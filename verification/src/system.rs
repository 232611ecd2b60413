//! The system prompt of a request: its text (text blocks joined by blank
//! lines), what stays of the field, and the per-turn billing line that is
//! split off before rendering.

use vstd::prelude::*;
use vstd::string::StringSliceAdditionalSpecFns;
use crate::json::{
    Json,
    JsonV,
    field_str_or,
    lit,
    lemma_array_view,
    lemma_array_view_ops,
    array_view,
};
use crate::text::push_all;
use crate::blocks::is_text_type;

verus! {

/// The `"text"` of every text block (`""` where missing), in order.
pub open spec fn text_parts(a: Seq<JsonV>) -> Seq<Seq<u8>>
    decreases a.len(),
{
    if a.len() == 0 {
        Seq::empty()
    } else if is_text_type(a.last()) {
        text_parts(a.drop_last()).push(field_str_or(a.last(), "text".spec_bytes(), Seq::empty()))
    } else {
        text_parts(a.drop_last())
    }
}

/// The blocks that are not text blocks, in order.
pub open spec fn other_blocks(a: Seq<JsonV>) -> Seq<JsonV>
    decreases a.len(),
{
    if a.len() == 0 {
        Seq::empty()
    } else if is_text_type(a.last()) {
        other_blocks(a.drop_last())
    } else {
        other_blocks(a.drop_last()).push(a.last())
    }
}

/// `parts` joined with `sep` between consecutive parts.
pub open spec fn join(parts: Seq<Seq<u8>>, sep: Seq<u8>) -> Seq<u8>
    decreases parts.len(),
{
    if parts.len() == 0 {
        Seq::empty()
    } else if parts.len() == 1 {
        parts[0]
    } else {
        join(parts.drop_last(), sep) + sep + parts.last()
    }
}

pub open spec fn paragraph_sep() -> Seq<u8> {
    "\n\n".spec_bytes()
}

/// The text of a `system` field and what stays in its place: a string gives
/// its text and leaves `""`; an array gives its text blocks joined by blank
/// lines and leaves its other blocks; null or absence gives nothing; any
/// other value gives no text and stays.
pub open spec fn system_text_of(field: Option<JsonV>) -> (Seq<u8>, Option<JsonV>) {
    match field {
        None => (Seq::empty(), None),
        Some(JsonV::Null) => (Seq::empty(), None),
        Some(JsonV::Str(s)) => (s, Some(JsonV::Str(Seq::empty()))),
        Some(JsonV::Array(a)) => (
            join(text_parts(a), paragraph_sep()),
            Some(JsonV::Array(other_blocks(a))),
        ),
        Some(other) => (Seq::empty(), Some(other)),
    }
}

pub(crate) fn extract_system_text(field: Option<&Json>) -> (r: (Vec<u8>, Option<Json>))
    ensures
        (r.0@, match r.1 {
            Some(j) => Some(j@),
            None => None,
        }) == system_text_of(
            match field {
                Some(j) => Some(j@),
                None => None,
            },
        ),
{
    match field {
        None => (Vec::new(), None),
        Some(Json::Null) => (Vec::new(), None),
        Some(Json::Str(s)) => {
            let t = crate::text::copy_range(s.as_slice(), 0, s.len());
            assert(s@.subrange(0, s@.len() as int) == s@);
            (t, Some(Json::Str(Vec::new())))
        },
        Some(Json::Array(arr)) => {
            let ghost av = array_view(arr@);
            proof {
                lemma_array_view(arr@);
                lemma_array_view_ops(arr@);
            }
            let sep = lit("\n\n");
            let mut text: Vec<u8> = Vec::new();
            let mut n_parts: usize = 0;
            let mut kept: Vec<Json> = Vec::new();
            let mut i: usize = 0;
            while i < arr.len()
                invariant
                    i <= arr@.len(),
                    av == array_view(arr@),
                    av.len() == arr@.len(),
                    sep@ == paragraph_sep(),
                    forall|k: int| 0 <= k < arr@.len() ==> #[trigger] av[k] == arr@[k]@,
                    text@ == join(text_parts(av.subrange(0, i as int)), sep@),
                    n_parts == text_parts(av.subrange(0, i as int)).len(),
                    n_parts <= i,
                    array_view(kept@) == other_blocks(av.subrange(0, i as int)),
                decreases arr@.len() - i,
            {
                let b = &arr[i];
                let ghost pre = av.subrange(0, i as int);
                assert(av.subrange(0, i + 1).drop_last() == pre);
                assert(av.subrange(0, i + 1).last() == b@);
                if b.field_is(lit("type").as_slice(), lit("text").as_slice()) {
                    let ghost parts_old = text_parts(pre);
                    let ghost p = field_str_or(b@, "text".spec_bytes(), Seq::empty());
                    assert(text_parts(av.subrange(0, i + 1)) == parts_old.push(p));
                    assert(parts_old.push(p).drop_last() == parts_old);
                    if n_parts > 0 {
                        push_all(&mut text, sep.as_slice());
                    }
                    match b.get_str(lit("text").as_slice()) {
                        Some(t) => push_all(&mut text, t.as_slice()),
                        None => {},
                    }
                    n_parts = n_parts + 1;
                } else {
                    let c = b.deep_clone();
                    proof {
                        lemma_array_view_ops(kept@);
                    }
                    kept.push(c);
                }
                i = i + 1;
            }
            assert(av.subrange(0, arr@.len() as int) == av);
            (text, Some(Json::Array(kept)))
        },
        Some(other) => (Vec::new(), Some(other.deep_clone())),
    }
}

pub open spec fn billing_prefix() -> Seq<u8> {
    "x-anthropic-billing-header:".spec_bytes()
}

/// Splits off a leading per-turn billing line: when the first line of `t`
/// starts with the billing header, it is removed (with its line feed) and
/// returned separately.
pub open spec fn split_billing(t: Seq<u8>) -> (Seq<u8>, Option<Seq<u8>>) {
    let idx = crate::text::find_byte(t, 0x0a, 0);
    if idx < t.len() {
        let first = t.subrange(0, idx);
        if crate::text::starts_with(first, billing_prefix()) {
            (t.subrange(idx + 1, t.len() as int), Some(first))
        } else {
            (t, None)
        }
    } else if crate::text::starts_with(t, billing_prefix()) {
        (Seq::empty(), Some(t))
    } else {
        (t, None)
    }
}

pub(crate) fn strip_billing(t: Vec<u8>) -> (r: (Vec<u8>, Option<Vec<u8>>))
    ensures
        (r.0@, match r.1 {
            Some(b) => Some(b@),
            None => None,
        }) == split_billing(t@),
{
    let prefix = lit("x-anthropic-billing-header:");
    let idx = crate::text::find_byte_from(t.as_slice(), 0x0a, 0);
    if idx < t.len() {
        let first = crate::text::copy_range(t.as_slice(), 0, idx);
        if crate::text::starts_with_bytes(first.as_slice(), prefix.as_slice()) {
            let rest = crate::text::copy_range(t.as_slice(), idx + 1, t.len());
            (rest, Some(first))
        } else {
            (t, None)
        }
    } else if crate::text::starts_with_bytes(t.as_slice(), prefix.as_slice()) {
        (Vec::new(), Some(t))
    } else {
        (t, None)
    }
}

// ----- laws -----
/// What stays of an array `system` field holds no text block.
pub proof fn law_system_text_removed(a: Seq<JsonV>)
    ensures
        forall|k: int| 0 <= k < other_blocks(a).len() ==> !is_text_type(#[trigger] other_blocks(a)[k]),
    decreases a.len(),
{
    if a.len() > 0 {
        law_system_text_removed(a.drop_last());
        let prev = other_blocks(a.drop_last());
        if !is_text_type(a.last()) {
            assert forall|k: int| 0 <= k < other_blocks(a).len() implies !is_text_type(
                #[trigger] other_blocks(a)[k],
            ) by {
                if k < prev.len() {
                    assert(other_blocks(a)[k] == prev[k]);
                }
            }
        }
    }
}

proof fn lemma_find_byte_skip(s: Seq<u8>, b: u8, i: int, j: int)
    requires
        0 <= i <= j <= s.len(),
        forall|k: int| i <= k < j ==> s[k] != b,
    ensures
        crate::text::find_byte(s, b, i) == crate::text::find_byte(s, b, j),
    decreases j - i,
{
    if i < j {
        lemma_find_byte_skip(s, b, i + 1, j);
    }
}

/// The per-turn billing line at the head of the system text is split off
/// before rendering: texts that differ only in that line render the same
/// text, so the cached images keep being reused from turn to turn.
pub proof fn law_billing_line_ignored(line: Seq<u8>, rest: Seq<u8>)
    requires
        crate::text::starts_with(line, billing_prefix()),
        forall|k: int| 0 <= k < line.len() ==> line[k] != 0x0a,
    ensures
        split_billing(line + seq![0x0au8] + rest) == (rest, Some(line)),
{
    let t = line + seq![0x0au8] + rest;
    assert forall|k: int| 0 <= k < line.len() implies t[k] != 0x0a by {
        assert(t[k] == line[k]);
    }
    lemma_find_byte_skip(t, 0x0a, 0, line.len() as int);
    assert(t[line.len() as int] == 0x0a);
    assert(crate::text::find_byte(t, 0x0a, 0) == line.len());
    assert(t.subrange(0, line.len() as int) =~= line);
    assert(t.subrange(line.len() as int + 1, t.len() as int) =~= rest);
}

} // verus!
