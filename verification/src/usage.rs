//! Token usage reported by the upstream API, from a plain JSON response or
//! from the `data:` events of a server-sent event stream.

use vstd::prelude::*;
use vstd::string::StringSliceAdditionalSpecFns;
use crate::json::{Json, JsonV, jget, field_str, lit};
use crate::render::views;
use crate::text::{
    find_byte,
    find_byte_from,
    lemma_find_byte_bounds,
    starts_with,
    starts_with_bytes,
    trim_start_index,
    trim_start_ws,
    copy_range,
};

verus! {

/// Token counts of one response.
#[derive(PartialEq, Eq, Structural, Clone, Copy, Debug)]
pub struct TokenCounts {
    pub input: u64,
    pub output: u64,
    pub cache_read: u64,
    pub cache_create: u64,
}

pub open spec fn zero_counts() -> TokenCounts {
    TokenCounts { input: 0, output: 0, cache_read: 0, cache_create: 0 }
}

/// The `u64` value of member `key` (`get(key).and_then(as_u64)`).
pub open spec fn field_u64(v: JsonV, key: Seq<u8>) -> Option<u64> {
    match jget(v, key) {
        Some(JsonV::Num(_, n)) => n,
        _ => None,
    }
}

pub open spec fn field_u64_or(v: JsonV, key: Seq<u8>, default: u64) -> u64 {
    match field_u64(v, key) {
        Some(n) => n,
        None => default,
    }
}

/// The counts of a `usage` object; a missing count is zero.
pub open spec fn usage_of(u: JsonV) -> TokenCounts {
    TokenCounts {
        input: field_u64_or(u, "input_tokens".spec_bytes(), 0),
        output: field_u64_or(u, "output_tokens".spec_bytes(), 0),
        cache_read: field_u64_or(u, "cache_read_input_tokens".spec_bytes(), 0),
        cache_create: field_u64_or(u, "cache_creation_input_tokens".spec_bytes(), 0),
    }
}

/// One stream event applied to the running counts: `message_start` sets the
/// input and cache counts present in its `message.usage`, `message_delta`
/// sets the output count of its `usage`; the flag records that usage was
/// seen. Events that are not JSON (`None`) or of other types change nothing.
pub open spec fn scan_event(st: (TokenCounts, bool), ev: Option<JsonV>) -> (TokenCounts, bool) {
    match ev {
        Some(v) => {
            let ty = field_str(v, "type".spec_bytes());
            if ty == Some("message_start".spec_bytes()) {
                match jget(v, "message".spec_bytes()) {
                    Some(m) => match jget(m, "usage".spec_bytes()) {
                        Some(u) => (
                            TokenCounts {
                                input: field_u64_or(u, "input_tokens".spec_bytes(), st.0.input),
                                output: st.0.output,
                                cache_read: field_u64_or(
                                    u,
                                    "cache_read_input_tokens".spec_bytes(),
                                    st.0.cache_read,
                                ),
                                cache_create: field_u64_or(
                                    u,
                                    "cache_creation_input_tokens".spec_bytes(),
                                    st.0.cache_create,
                                ),
                            },
                            true,
                        ),
                        None => st,
                    },
                    None => st,
                }
            } else if ty == Some("message_delta".spec_bytes()) {
                match jget(v, "usage".spec_bytes()) {
                    Some(u) => match field_u64(u, "output_tokens".spec_bytes()) {
                        Some(o) => (TokenCounts { output: o, ..st.0 }, true),
                        None => st,
                    },
                    None => st,
                }
            } else {
                st
            }
        },
        None => st,
    }
}

/// The events scanned in order from zero counts.
pub open spec fn scan_events(evs: Seq<Option<JsonV>>) -> (TokenCounts, bool)
    decreases evs.len(),
{
    if evs.len() == 0 {
        (zero_counts(), false)
    } else {
        scan_event(scan_events(evs.drop_last()), evs.last())
    }
}

/// The usage of a response: the `usage` member of a JSON body when it has
/// one; otherwise, for a UTF-8 body (`events` present), the counts of its
/// stream events when any event carried usage.
pub open spec fn response_usage(plain: Option<JsonV>, events: Option<Seq<Option<JsonV>>>) -> Option<
    TokenCounts,
> {
    let from_plain = match plain {
        Some(v) => jget(v, "usage".spec_bytes()),
        None => None,
    };
    match from_plain {
        Some(u) => Some(usage_of(u)),
        None => match events {
            Some(evs) => if scan_events(evs).1 {
                Some(scan_events(evs).0)
            } else {
                None
            },
            None => None,
        },
    }
}

// ----- stream lines -----
/// The line that runs from `start` to the line feed at `e` (or the end): a
/// carriage return before the line feed is not part of it.
pub open spec fn line_at(s: Seq<u8>, start: int, e: int) -> Seq<u8> {
    let piece = s.subrange(start, e);
    if e < s.len() && piece.len() > 0 && piece.last() == 0x0d {
        piece.drop_last()
    } else {
        piece
    }
}

/// `str::lines` from byte `start` on.
pub open spec fn str_lines_from(s: Seq<u8>, start: int) -> Seq<Seq<u8>>
    decreases s.len() + 1 - start,
{
    if start < 0 || start >= s.len() {
        Seq::empty()
    } else {
        let e = find_byte(s, 0x0a, start);
        proof {
            lemma_find_byte_bounds(s, 0x0a, start);
        }
        seq![line_at(s, start, e)] + str_lines_from(s, e + 1)
    }
}

/// What follows `data: ` on a line, leading whitespace skipped.
pub open spec fn data_payload(line: Seq<u8>) -> Option<Seq<u8>> {
    let t = trim_start_ws(line);
    if starts_with(t, "data: ".spec_bytes()) {
        Some(t.subrange("data: ".spec_bytes().len() as int, t.len() as int))
    } else {
        None
    }
}

/// The payloads of the `data:` lines, in order.
pub open spec fn data_payloads(lines: Seq<Seq<u8>>) -> Seq<Seq<u8>>
    decreases lines.len(),
{
    if lines.len() == 0 {
        Seq::empty()
    } else {
        let head = match data_payload(lines[0]) {
            Some(p) => seq![p],
            None => Seq::empty(),
        };
        head + data_payloads(lines.skip(1))
    }
}

/// `std::str::from_utf8(bytes).is_ok()`. The contract claims that it holds
/// exactly of valid UTF-8, as `vstd::utf8::valid_utf8` defines it.
#[verifier::external_body]
fn is_utf8(bytes: &[u8]) -> (r: bool)
    ensures
        r == vstd::utf8::valid_utf8(bytes@),
{
    std::str::from_utf8(bytes).is_ok()
}

/// The payloads of the `data:` lines of an event stream, or `None` when the
/// body is not UTF-8.
pub fn sse_payloads(body: &[u8]) -> (r: Option<Vec<Vec<u8>>>)
    ensures
        match r {
            Some(p) => vstd::utf8::valid_utf8(body@) && views(p@) == data_payloads(
                str_lines_from(body@, 0),
            ),
            None => !vstd::utf8::valid_utf8(body@),
        },
{
    if !is_utf8(body) {
        return None;
    }
    let prefix = lit("data: ");
    let mut out: Vec<Vec<u8>> = Vec::new();
    let mut start: usize = 0;
    let ghost all = data_payloads(str_lines_from(body@, 0));
    assert(views(out@) =~= Seq::<Seq<u8>>::empty());
    assert(Seq::<Seq<u8>>::empty() + all =~= all);
    while start < body.len()
        invariant
            start <= body@.len(),
            vstd::utf8::valid_utf8(body@),
            prefix@ == "data: ".spec_bytes(),
            all == data_payloads(str_lines_from(body@, 0)),
            views(out@) + data_payloads(str_lines_from(body@, start as int)) == all,
        decreases body@.len() - start,
    {
        let e = find_byte_from(body, 0x0a, start);
        let end = if e < body.len() && e > start && body[e - 1] == 0x0d {
            e - 1
        } else {
            e
        };
        let ghost line = line_at(body@, start as int, e as int);
        assert(body@.subrange(start as int, end as int) == line);
        let ghost rest = str_lines_from(body@, e + 1);
        assert(str_lines_from(body@, start as int) == seq![line] + rest);
        assert((seq![line] + rest)[0] == line);
        assert((seq![line] + rest).skip(1) =~= rest);
        let ghost head = match data_payload(line) {
            Some(q) => seq![q],
            None => Seq::<Seq<u8>>::empty(),
        };
        assert(data_payloads(seq![line] + rest) == head + data_payloads(rest));
        assert(views(out@) + (head + data_payloads(rest)) == all);
        let b = trim_start_index(body, start, end);
        let ghost before = views(out@);
        let t = &body[b..end];
        assert(t@ == body@.subrange(b as int, end as int));
        assert(t@ == trim_start_ws(line));
        if starts_with_bytes(t, prefix.as_slice()) {
            let p = copy_range(body, b + prefix.len(), end);
            assert(p@ == trim_start_ws(line).subrange(prefix@.len() as int, trim_start_ws(line).len() as int));
            out.push(p);
            assert(views(out@) == before.push(p@));
            assert(views(out@) + data_payloads(rest) =~= before + (seq![p@] + data_payloads(rest)));
        } else {
            assert(data_payload(line) is None);
            assert(before + data_payloads(rest) =~= before + (Seq::<Seq<u8>>::empty()
                + data_payloads(rest)));
        }
        assert(views(out@) + data_payloads(rest) =~= all);
        if e >= body.len() {
            assert(rest =~= Seq::<Seq<u8>>::empty());
            assert(data_payloads(rest) =~= Seq::<Seq<u8>>::empty());
            assert(views(out@) =~= all);
            return Some(out);
        }
        start = e + 1;
    }
    assert(str_lines_from(body@, start as int) =~= Seq::<Seq<u8>>::empty());
    assert(views(out@) =~= all);
    Some(out)
}

// ----- counts -----
/// `get(key).and_then(as_u64)`.
fn get_u64(v: &Json, key: &str) -> (r: Option<u64>)
    ensures
        r == field_u64(v@, key.spec_bytes()),
{
    match v.get(lit(key).as_slice()) {
        Some(Json::Number(n)) => n.unsigned,
        _ => None,
    }
}

fn get_u64_or(v: &Json, key: &str, default: u64) -> (r: u64)
    ensures
        r == field_u64_or(v@, key.spec_bytes(), default),
{
    match get_u64(v, key) {
        Some(n) => n,
        None => default,
    }
}

/// The counts of a `usage` object; a missing count is zero.
pub fn usage_to_log(u: &Json) -> (r: TokenCounts)
    ensures
        r == usage_of(u@),
{
    TokenCounts {
        input: get_u64_or(u, "input_tokens", 0),
        output: get_u64_or(u, "output_tokens", 0),
        cache_read: get_u64_or(u, "cache_read_input_tokens", 0),
        cache_create: get_u64_or(u, "cache_creation_input_tokens", 0),
    }
}

fn scan_event_exec(st: (TokenCounts, bool), ev: &Option<Json>) -> (r: (TokenCounts, bool))
    ensures
        r == scan_event(
            st,
            match ev {
                Some(v) => Some(v@),
                None => None,
            },
        ),
{
    match ev {
        Some(v) => {
            if v.field_is(lit("type").as_slice(), lit("message_start").as_slice()) {
                match v.get(lit("message").as_slice()) {
                    Some(m) => match m.get(lit("usage").as_slice()) {
                        Some(u) => (
                            TokenCounts {
                                input: get_u64_or(u, "input_tokens", st.0.input),
                                output: st.0.output,
                                cache_read: get_u64_or(u, "cache_read_input_tokens", st.0.cache_read),
                                cache_create: get_u64_or(
                                    u,
                                    "cache_creation_input_tokens",
                                    st.0.cache_create,
                                ),
                            },
                            true,
                        ),
                        None => st,
                    },
                    None => st,
                }
            } else if v.field_is(lit("type").as_slice(), lit("message_delta").as_slice()) {
                match v.get(lit("usage").as_slice()) {
                    Some(u) => match get_u64(u, "output_tokens") {
                        Some(o) => (
                            TokenCounts {
                                input: st.0.input,
                                output: o,
                                cache_read: st.0.cache_read,
                                cache_create: st.0.cache_create,
                            },
                            true,
                        ),
                        None => st,
                    },
                    None => st,
                }
            } else {
                st
            }
        },
        None => st,
    }
}

pub open spec fn opt_views(evs: Seq<Option<Json>>) -> Seq<Option<JsonV>> {
    evs.map_values(
        |e: Option<Json>|
            match e {
                Some(v) => Some(v@),
                None => None,
            },
    )
}

/// The usage of a response: `plain` is the body parsed as JSON (when it
/// is), `events` the stream payloads of `sse_payloads` parsed as JSON
/// (`None` for a payload that is not), or `None` when the body is not UTF-8.
pub fn parse_usage(plain: Option<Json>, events: Option<Vec<Option<Json>>>) -> (r: Option<TokenCounts>)
    ensures
        r == response_usage(
            match plain {
                Some(v) => Some(v@),
                None => None,
            },
            match events {
                Some(e) => Some(opt_views(e@)),
                None => None,
            },
        ),
{
    match &plain {
        Some(v) => match v.get(lit("usage").as_slice()) {
            Some(u) => {
                return Some(usage_to_log(u));
            },
            None => {},
        },
        None => {},
    }
    match events {
        None => None,
        Some(evs) => {
            let ghost ev = opt_views(evs@);
            let mut st = (TokenCounts { input: 0, output: 0, cache_read: 0, cache_create: 0 }, false);
            let mut i: usize = 0;
            assert(ev.subrange(0, 0) =~= Seq::<Option<JsonV>>::empty());
            while i < evs.len()
                invariant
                    i <= evs@.len(),
                    ev == opt_views(evs@),
                    st == scan_events(ev.subrange(0, i as int)),
                decreases evs@.len() - i,
            {
                assert(ev.subrange(0, i + 1).drop_last() == ev.subrange(0, i as int));
                st = scan_event_exec(st, &evs[i]);
                i = i + 1;
            }
            assert(ev.subrange(0, evs@.len() as int) == ev);
            if st.1 {
                Some(st.0)
            } else {
                None
            }
        },
    }
}

} // verus!
