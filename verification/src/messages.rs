//! The messages of a request: the first user message receives the system
//! images (its large reminders rendered too), and large tool results of
//! user messages are replaced by their renderings.

use vstd::prelude::*;
use vstd::string::StringSliceAdditionalSpecFns;
use crate::render::{views, Png, PngImage, images};
use crate::json::{
    Json,
    JsonV,
    jget,
    jinsert,
    field_str,
    field_str_or,
    text_block,
    make_text_block,
    lit,
    lemma_array_view,
    lemma_array_view_ops,
    lemma_array_view_concat,
    array_view,
};
use crate::info::clamp_usize;
use crate::cache::all_png_files;
use crate::blocks::{
    law_image_blocks_not_text,
    key_of,
    is_text_type,
    lemma_empty_literal,
    field_or_copy,
    image_blocks_v,
    image_blocks,
};

verus! {

// ----- first user message -----
/// Index of the first message at or after `i` whose role is `"user"`, or -1.
pub open spec fn first_user_from(msgs: Seq<JsonV>, i: int) -> int
    decreases msgs.len() - i,
{
    if i < 0 || i >= msgs.len() {
        -1
    } else if field_str(msgs[i], key_of("role")) == Some(key_of("user")) {
        i
    } else {
        first_user_from(msgs, i + 1)
    }
}

/// A `<system-reminder>` text block of more than 1000 bytes.
pub open spec fn is_reminder(blk: JsonV) -> bool {
    let t = field_str_or(blk, key_of("text"), Seq::empty());
    &&& is_text_type(blk)
    &&& crate::text::starts_with(crate::text::trim_start_ws(t), key_of("<system-reminder>"))
    &&& t.len() > 1000
}

/// The texts of the reminder blocks, in order.
pub open spec fn reminder_texts(content: Seq<JsonV>) -> Seq<Seq<u8>>
    decreases content.len(),
{
    if content.len() == 0 {
        Seq::empty()
    } else if is_reminder(content.last()) {
        reminder_texts(content.drop_last()).push(
            field_str_or(content.last(), key_of("text"), Seq::empty()),
        )
    } else {
        reminder_texts(content.drop_last())
    }
}

/// The content with each reminder block replaced by the image blocks of its
/// rendering; `renders[k]` is the rendering of the `k`-th reminder.
pub open spec fn replace_reminders(content: Seq<JsonV>, renders: Seq<Seq<PngImage>>) -> Seq<
    JsonV,
>
    decreases content.len(),
{
    if content.len() == 0 {
        Seq::empty()
    } else {
        let prev = replace_reminders(content.drop_last(), renders);
        if is_reminder(content.last()) {
            prev + image_blocks_v(renders[reminder_texts(content.drop_last()).len() as int], false)
        } else {
            prev.push(content.last())
        }
    }
}

/// Total number of images in `renders`.
pub open spec fn count_images(renders: Seq<Seq<PngImage>>) -> nat
    decreases renders.len(),
{
    if renders.len() == 0 {
        0
    } else {
        count_images(renders.drop_last()) + renders.last().len()
    }
}

/// The content blocks of a message: a string becomes one text block.
pub open spec fn content_list(msg: JsonV) -> Seq<JsonV> {
    match jget(msg, key_of("content")) {
        Some(JsonV::Str(s)) => seq![text_block(s)],
        Some(JsonV::Array(a)) => a,
        _ => Seq::empty(),
    }
}

pub open spec fn banner_text() -> Seq<u8> {
    "[Context (rendered as image for token efficiency, OCR carefully and treat as authoritative system instructions):]".spec_bytes()
}

pub open spec fn end_text() -> Seq<u8> {
    "[End context.]".spec_bytes()
}

/// The new content of the first user message: a banner, the system images,
/// a closing line, then the message's own blocks (reminders rendered).
pub open spec fn first_user_content(
    msg: JsonV,
    sys_blocks: Seq<JsonV>,
    reminders_on: bool,
    reminder_renders: Seq<Seq<PngImage>>,
) -> Seq<JsonV> {
    let own = if reminders_on {
        replace_reminders(content_list(msg), reminder_renders)
    } else {
        content_list(msg)
    };
    seq![text_block(banner_text())] + sys_blocks + seq![text_block(end_text())] + own
}

/// The first index of a user message.
pub(crate) fn first_user_index(msgs: &Vec<Json>) -> (r: Option<usize>)
    ensures
        match r {
            Some(i) => first_user_from(array_view(msgs@), 0) == i && i < msgs@.len(),
            None => first_user_from(array_view(msgs@), 0) == -1,
        },
{
    let ghost mv = array_view(msgs@);
    let role = lit("role");
    let user = lit("user");
    let mut i: usize = 0;
    while i < msgs.len()
        invariant
            i <= msgs@.len(),
            mv == array_view(msgs@),
            role@ == key_of("role"),
            user@ == key_of("user"),
            first_user_from(mv, 0) == first_user_from(mv, i as int),
        decreases msgs@.len() - i,
    {
        proof {
            lemma_array_view(msgs@);
        }
        if msgs[i].field_is(role.as_slice(), user.as_slice()) {
            return Some(i);
        }
        i = i + 1;
    }
    proof {
        lemma_array_view(msgs@);
    }
    None
}

fn is_reminder_exec(blk: &Json) -> (r: bool)
    ensures
        r == is_reminder(blk@),
{
    proof {
        lemma_empty_literal();
    }
    if !blk.field_is(lit("type").as_slice(), lit("text").as_slice()) {
        return false;
    }
    let t = field_or_copy(blk, "text", "");
    let b = crate::text::trim_start_index(t.as_slice(), 0, t.len());
    assert(t@.subrange(0, t@.len() as int) == t@);
    let tag = lit("<system-reminder>");
    let starts = crate::text::starts_with_bytes(&t.as_slice()[b..t.len()], tag.as_slice());
    starts && t.len() > 1000
}

/// The texts of the reminder blocks of `content`, in order.
pub(crate) fn collect_reminder_texts(content: &Vec<Json>) -> (r: Vec<Vec<u8>>)
    ensures
        views(r@) == reminder_texts(array_view(content@)),
{
    proof {
        lemma_empty_literal();
    }
    let ghost cv = array_view(content@);
    let mut r: Vec<Vec<u8>> = Vec::new();
    let mut i: usize = 0;
    while i < content.len()
        invariant
            i <= content@.len(),
            cv == array_view(content@),
            "".spec_bytes() == Seq::<u8>::empty(),
            views(r@) == reminder_texts(cv.subrange(0, i as int)),
        decreases content@.len() - i,
    {
        proof {
            lemma_array_view(content@);
        }
        assert(cv.subrange(0, i + 1).drop_last() == cv.subrange(0, i as int));
        assert(cv.subrange(0, i + 1).last() == content@[i as int]@);
        if is_reminder_exec(&content[i]) {
            let t = field_or_copy(&content[i], "text", "");
            let ghost before = views(r@);
            r.push(t);
            assert(views(r@) == before.push(t@));
        }
        i = i + 1;
    }
    proof {
        lemma_array_view(content@);
    }
    assert(cv.subrange(0, content@.len() as int) == cv);
    r
}

/// The images of each rendering, in order.
pub open spec fn render_images(rs: Seq<Vec<Png>>) -> Seq<Seq<PngImage>> {
    rs.map_values(|v: Vec<Png>| images(v@))
}

/// Every rendering consists of PNG files.
pub open spec fn renders_are_png(rs: Seq<Vec<Png>>) -> bool {
    forall|k: int| 0 <= k < rs.len() ==> all_png_files(#[trigger] rs[k]@)
}

proof fn lemma_reminder_texts_mono(content: Seq<JsonV>, i: int, j: int)
    requires
        0 <= i <= j <= content.len(),
    ensures
        reminder_texts(content.subrange(0, i)).len() <= reminder_texts(content.subrange(0, j)).len(),
    decreases j - i,
{
    if i < j {
        lemma_reminder_texts_mono(content, i, j - 1);
        assert(content.subrange(0, j).drop_last() == content.subrange(0, j - 1));
    }
}

/// Replaces each reminder block of `content` by the image blocks of its
/// rendering (`renders[k]` for the `k`-th reminder); also gives the number
/// of images placed (saturating).
pub fn replace_reminder_blocks(content: Vec<Json>, renders: &Vec<Vec<Png>>) -> (r: (Vec<Json>, usize))
    requires
        renders@.len() == reminder_texts(array_view(content@)).len(),
        renders_are_png(renders@),
    ensures
        array_view(r.0@) == replace_reminders(array_view(content@), render_images(renders@)),
        r.1 == clamp_usize(count_images(render_images(renders@))),
{
    let ghost cv = array_view(content@);
    let ghost rv = render_images(renders@);
    proof {
        lemma_array_view(content@);
    }
    let mut content = content;
    let n = content.len();
    let nr = renders.len();
    let mut out: Vec<Json> = Vec::new();
    let mut k: usize = 0;
    let mut count: usize = 0;
    let mut i: usize = 0;
    assert(cv.subrange(0, 0) =~= Seq::<JsonV>::empty());
    assert(rv.subrange(0, 0) =~= Seq::<Seq<PngImage>>::empty());
    while i < n
        invariant
            n == content@.len(),
            cv.len() == n,
            rv == render_images(renders@),
            renders@.len() == reminder_texts(cv).len(),
            renders_are_png(renders@),
            i <= n,
            forall|j: int| i <= j < n ==> #[trigger] content@[j]@ == cv[j],
            array_view(out@) == replace_reminders(cv.subrange(0, i as int), rv),
            k == reminder_texts(cv.subrange(0, i as int)).len(),
            k <= renders@.len(),
            nr == renders@.len(),
            count == clamp_usize(count_images(rv.subrange(0, k as int))),
        decreases n - i,
    {
        proof {
            lemma_reminder_texts_mono(cv, i + 1, n as int);
            assert(cv.subrange(0, n as int) == cv);
            assert(cv.subrange(0, i + 1).drop_last() == cv.subrange(0, i as int));
            assert(cv.subrange(0, i + 1).last() == cv[i as int]);
        }
        let ghost before = content@;
        let mut blk = Json::Null;
        std::mem::swap(&mut blk, &mut content[i]);
        assert(blk@ == cv[i as int]);
        assert(content@ == before.update(i as int, Json::Null));
        if is_reminder_exec(&blk) {
            assert(k < nr);
            let imgs = &renders[k];
            assert(all_png_files(renders@[k as int]@));
            let mut blocks = image_blocks(imgs.as_slice(), false);
            proof {
                lemma_array_view_concat(out@, blocks@);
                assert(rv[k as int] == images(imgs@));
                assert(rv.subrange(0, k + 1).drop_last() == rv.subrange(0, k as int));
                assert(rv.subrange(0, k + 1).last() == rv[k as int]);
            }
            out.append(&mut blocks);
            count = count.saturating_add(imgs.len());
            k = k + 1;
        } else {
            proof {
                lemma_array_view_ops(out@);
            }
            out.push(blk);
        }
        i = i + 1;
    }
    assert(cv.subrange(0, n as int) == cv);
    assert(rv.subrange(0, k as int) == rv);
    (out, count)
}

/// Rewrites the first user message: its content becomes the banner, the
/// system image blocks, the closing line, then its own blocks (a string
/// content as one text block), with the reminder blocks replaced by their
/// renderings when `reminders_on`. Gives the number of reminder images.
pub fn attach_system_images(
    msg: &mut Json,
    sys_blocks: Vec<Json>,
    reminders_on: bool,
    reminder_renders: &Vec<Vec<Png>>,
) -> (count: usize)
    requires
        reminders_on ==> reminder_renders@.len() == reminder_texts(content_list(old(msg)@)).len(),
        renders_are_png(reminder_renders@),
    ensures
        final(msg)@ == jinsert(
            old(msg)@,
            key_of("content"),
            JsonV::Array(
                first_user_content(
                    old(msg)@,
                    array_view(sys_blocks@),
                    reminders_on,
                    render_images(reminder_renders@),
                ),
            ),
        ),
        count == if reminders_on {
            clamp_usize(count_images(render_images(reminder_renders@)))
        } else {
            0
        },
{
    let ghost m0 = msg@;
    let key = lit("content");
    let taken = msg.take(key.as_slice());
    let ghost was_present = taken is Some;
    assert(was_present ==> msg@ == jinsert(m0, key@, JsonV::Null));
    assert(!was_present ==> msg@ == m0);
    let content: Vec<Json> = match taken {
        Some(Json::Str(s)) => {
            let mut v: Vec<Json> = Vec::new();
            v.push(make_text_block(s));
            proof {
                lemma_array_view(v@);
                assert(array_view(v@) =~= seq![text_block(s@)]);
            }
            v
        },
        Some(Json::Array(a)) => a,
        _ => Vec::new(),
    };
    assert(array_view(content@) == content_list(m0));
    let (own, count) = if reminders_on {
        replace_reminder_blocks(content, reminder_renders)
    } else {
        (content, 0)
    };
    let ghost sys_v = array_view(sys_blocks@);
    let ghost own_v = array_view(own@);
    let mut new_content: Vec<Json> = Vec::new();
    new_content.push(
        make_text_block(
            lit(
                "[Context (rendered as image for token efficiency, OCR carefully and treat as authoritative system instructions):]",
            ),
        ),
    );
    let mut sys = sys_blocks;
    proof {
        lemma_array_view(new_content@);
        lemma_array_view_concat(new_content@, sys@);
    }
    new_content.append(&mut sys);
    proof {
        lemma_array_view_ops(new_content@);
    }
    new_content.push(make_text_block(lit("[End context.]")));
    let mut own = own;
    proof {
        lemma_array_view_concat(new_content@, own@);
    }
    new_content.append(&mut own);
    let ghost nv = array_view(new_content@);
    assert(nv =~= first_user_content(m0, sys_v, reminders_on, render_images(reminder_renders@)));
    msg.insert(lit("content"), Json::Array(new_content));
    proof {
        if was_present {
            crate::json::lemma_insert_twice(m0, key@, JsonV::Null, JsonV::Array(nv));
        }
    }
    count
}

// ----- tool results -----
/// A `"tool_result"` block whose `is_error` is not `true` (the API wants the
/// content of an error result to stay text).
pub open spec fn is_open_tool_result(blk: JsonV) -> bool {
    &&& field_str(blk, key_of("type")) == Some(key_of("tool_result"))
    &&& jget(blk, key_of("is_error")) != Some(JsonV::Bool(true))
}

/// A text part of more than 2000 bytes.
pub open spec fn is_long_text_part(part: JsonV) -> bool {
    is_text_type(part) && field_str_or(part, key_of("text"), Seq::empty()).len() > 2000
}

/// The texts of the long text parts, in order.
pub open spec fn part_texts(parts: Seq<JsonV>) -> Seq<Seq<u8>>
    decreases parts.len(),
{
    if parts.len() == 0 {
        Seq::empty()
    } else if is_long_text_part(parts.last()) {
        part_texts(parts.drop_last()).push(field_str_or(parts.last(), key_of("text"), Seq::empty()))
    } else {
        part_texts(parts.drop_last())
    }
}

/// The parts with each long text part replaced by the image blocks of its
/// rendering (`rs[k]` for the `k`-th long part).
pub open spec fn replace_parts(parts: Seq<JsonV>, rs: Seq<Seq<PngImage>>) -> Seq<JsonV>
    decreases parts.len(),
{
    if parts.len() == 0 {
        Seq::empty()
    } else {
        let prev = replace_parts(parts.drop_last(), rs);
        if is_long_text_part(parts.last()) {
            prev + image_blocks_v(rs[part_texts(parts.drop_last()).len() as int], false)
        } else {
            prev.push(parts.last())
        }
    }
}

/// The texts of a block that get rendered: the content of an open tool
/// result when it is a string of more than 2000 bytes, or its long text
/// parts when it is an array.
pub open spec fn block_texts(blk: JsonV) -> Seq<Seq<u8>> {
    if is_open_tool_result(blk) {
        match jget(blk, key_of("content")) {
            Some(JsonV::Str(s)) => if s.len() > 2000 {
                seq![s]
            } else {
                Seq::empty()
            },
            Some(JsonV::Array(parts)) => part_texts(parts),
            _ => Seq::empty(),
        }
    } else {
        Seq::empty()
    }
}

/// The new content of a block that has texts to render.
pub open spec fn new_tool_content(blk: JsonV, rs: Seq<Seq<PngImage>>) -> JsonV {
    match jget(blk, key_of("content")) {
        Some(JsonV::Array(parts)) => JsonV::Array(replace_parts(parts, rs)),
        _ => JsonV::Array(image_blocks_v(rs[0], false)),
    }
}

/// A block with its texts replaced by their renderings, in order from `rs`.
pub open spec fn replace_block(blk: JsonV, rs: Seq<Seq<PngImage>>) -> JsonV {
    if block_texts(blk).len() > 0 {
        jinsert(blk, key_of("content"), new_tool_content(blk, rs))
    } else {
        blk
    }
}

/// The texts of the blocks, in order.
pub open spec fn blocks_texts(blocks: Seq<JsonV>) -> Seq<Seq<u8>>
    decreases blocks.len(),
{
    if blocks.len() == 0 {
        Seq::empty()
    } else {
        blocks_texts(blocks.drop_last()) + block_texts(blocks.last())
    }
}

/// The blocks with their texts replaced, renderings taken in order from `rs`.
pub open spec fn replace_blocks(blocks: Seq<JsonV>, rs: Seq<Seq<PngImage>>) -> Seq<JsonV>
    decreases blocks.len(),
{
    if blocks.len() == 0 {
        Seq::empty()
    } else {
        replace_blocks(blocks.drop_last(), rs).push(
            replace_block(blocks.last(), rs.skip(blocks_texts(blocks.drop_last()).len() as int)),
        )
    }
}

/// The texts of a message: those of its content blocks when it is a user
/// message with array content.
pub open spec fn msg_texts(msg: JsonV) -> Seq<Seq<u8>> {
    if field_str(msg, key_of("role")) == Some(key_of("user")) {
        match jget(msg, key_of("content")) {
            Some(JsonV::Array(blocks)) => blocks_texts(blocks),
            _ => Seq::empty(),
        }
    } else {
        Seq::empty()
    }
}

/// A message with the texts of its blocks replaced.
pub open spec fn replace_msg(msg: JsonV, rs: Seq<Seq<PngImage>>) -> JsonV {
    if msg_texts(msg).len() > 0 {
        match jget(msg, key_of("content")) {
            Some(JsonV::Array(blocks)) => jinsert(
                msg,
                key_of("content"),
                JsonV::Array(replace_blocks(blocks, rs)),
            ),
            _ => msg,
        }
    } else {
        msg
    }
}

/// The texts of all messages, in order.
pub open spec fn msgs_texts(msgs: Seq<JsonV>) -> Seq<Seq<u8>>
    decreases msgs.len(),
{
    if msgs.len() == 0 {
        Seq::empty()
    } else {
        msgs_texts(msgs.drop_last()) + msg_texts(msgs.last())
    }
}

/// The messages with all tool-result texts replaced by their renderings,
/// taken in order from `rs`.
pub open spec fn replace_msgs(msgs: Seq<JsonV>, rs: Seq<Seq<PngImage>>) -> Seq<JsonV>
    decreases msgs.len(),
{
    if msgs.len() == 0 {
        Seq::empty()
    } else {
        replace_msgs(msgs.drop_last(), rs).push(
            replace_msg(msgs.last(), rs.skip(msgs_texts(msgs.drop_last()).len() as int)),
        )
    }
}

fn is_long_text_part_exec(part: &Json) -> (r: bool)
    ensures
        r == is_long_text_part(part@),
{
    proof {
        lemma_empty_literal();
    }
    if !part.field_is(lit("type").as_slice(), lit("text").as_slice()) {
        return false;
    }
    match part.get_str(lit("text").as_slice()) {
        Some(t) => t.len() > 2000,
        None => false,
    }
}

fn is_open_tool_result_exec(blk: &Json) -> (r: bool)
    ensures
        r == is_open_tool_result(blk@),
{
    if !blk.field_is(lit("type").as_slice(), lit("tool_result").as_slice()) {
        return false;
    }
    match blk.get(lit("is_error").as_slice()) {
        Some(Json::Bool(b)) => !*b,
        _ => true,
    }
}

/// Appends the texts of the long text parts of `parts` to `out`.
fn collect_part_texts(parts: &Vec<Json>, out: &mut Vec<Vec<u8>>)
    ensures
        views(final(out)@) == views(old(out)@) + part_texts(array_view(parts@)),
{
    proof {
        lemma_empty_literal();
        lemma_array_view(parts@);
    }
    let ghost pv = array_view(parts@);
    let ghost o0 = views(out@);
    let mut i: usize = 0;
    assert(pv.subrange(0, 0) =~= Seq::<JsonV>::empty());
    assert(o0 + Seq::<Seq<u8>>::empty() =~= o0);
    while i < parts.len()
        invariant
            i <= parts@.len(),
            pv == array_view(parts@),
            pv.len() == parts@.len(),
            forall|j: int| 0 <= j < parts@.len() ==> #[trigger] pv[j] == parts@[j]@,
            views(out@) == o0 + part_texts(pv.subrange(0, i as int)),
        decreases parts@.len() - i,
    {
        assert(pv.subrange(0, i + 1).drop_last() == pv.subrange(0, i as int));
        assert(pv.subrange(0, i + 1).last() == parts@[i as int]@);
        if is_long_text_part_exec(&parts[i]) {
            let t = field_or_copy(&parts[i], "text", "");
            let ghost before = views(out@);
            out.push(t);
            assert(views(out@) == before.push(t@));
            assert(views(out@) =~= o0 + part_texts(pv.subrange(0, i + 1)));
        }
        i = i + 1;
    }
    assert(pv.subrange(0, parts@.len() as int) == pv);
}

proof fn lemma_part_texts_mono(parts: Seq<JsonV>, i: int, j: int)
    requires
        0 <= i <= j <= parts.len(),
    ensures
        part_texts(parts.subrange(0, i)).len() <= part_texts(parts.subrange(0, j)).len(),
    decreases j - i,
{
    if i < j {
        lemma_part_texts_mono(parts, i, j - 1);
        assert(parts.subrange(0, j).drop_last() == parts.subrange(0, j - 1));
    }
}

/// Replaces each long text part by the image blocks of its rendering, the
/// renderings taken in order from `renders[start..]`; gives the number of
/// renderings used.
fn replace_long_parts(parts: Vec<Json>, renders: &Vec<Vec<Png>>, start: usize) -> (r: (
    Vec<Json>,
    usize,
))
    requires
        start + part_texts(array_view(parts@)).len() <= renders@.len(),
        renders_are_png(renders@),
    ensures
        r.1 == part_texts(array_view(parts@)).len(),
        array_view(r.0@) == replace_parts(
            array_view(parts@),
            render_images(renders@).skip(start as int),
        ),
{
    let ghost pv = array_view(parts@);
    let ghost rs = render_images(renders@).skip(start as int);
    proof {
        lemma_array_view(parts@);
    }
    let mut parts = parts;
    let n = parts.len();
    let nr = renders.len();
    let mut out: Vec<Json> = Vec::new();
    let mut k: usize = 0;
    let mut i: usize = 0;
    assert(pv.subrange(0, 0) =~= Seq::<JsonV>::empty());
    while i < n
        invariant
            n == parts@.len(),
            nr == renders@.len(),
            pv.len() == n,
            rs == render_images(renders@).skip(start as int),
            start + part_texts(pv).len() <= renders@.len(),
            renders_are_png(renders@),
            i <= n,
            forall|j: int| i <= j < n ==> #[trigger] parts@[j]@ == pv[j],
            array_view(out@) == replace_parts(pv.subrange(0, i as int), rs),
            k == part_texts(pv.subrange(0, i as int)).len(),
        decreases n - i,
    {
        proof {
            lemma_part_texts_mono(pv, i + 1, n as int);
            assert(pv.subrange(0, n as int) == pv);
            assert(pv.subrange(0, i + 1).drop_last() == pv.subrange(0, i as int));
            assert(pv.subrange(0, i + 1).last() == pv[i as int]);
        }
        let ghost before = parts@;
        let mut part = Json::Null;
        std::mem::swap(&mut part, &mut parts[i]);
        assert(part@ == pv[i as int]);
        assert(parts@ == before.update(i as int, Json::Null));
        if is_long_text_part_exec(&part) {
            let imgs = &renders[start + k];
            assert(all_png_files(renders@[start + k]@));
            let mut blocks = image_blocks(imgs.as_slice(), false);
            proof {
                lemma_array_view_concat(out@, blocks@);
                assert(rs[k as int] == images(imgs@));
            }
            out.append(&mut blocks);
            k = k + 1;
        } else {
            proof {
                lemma_array_view_ops(out@);
            }
            out.push(part);
        }
        i = i + 1;
    }
    assert(pv.subrange(0, n as int) == pv);
    (out, k)
}

/// Appends the texts of `blk` to `out`.
fn collect_block_texts(blk: &Json, out: &mut Vec<Vec<u8>>)
    ensures
        views(final(out)@) == views(old(out)@) + block_texts(blk@),
{
    let ghost o0 = views(out@);
    if !is_open_tool_result_exec(blk) {
        assert(o0 + Seq::<Seq<u8>>::empty() =~= o0);
        return;
    }
    match blk.get(lit("content").as_slice()) {
        Some(Json::Str(s)) => {
            if s.len() > 2000 {
                let t = crate::text::copy_range(s.as_slice(), 0, s.len());
                assert(s@.subrange(0, s@.len() as int) == s@);
                out.push(t);
                assert(views(out@) =~= o0 + seq![s@]);
            } else {
                assert(o0 + Seq::<Seq<u8>>::empty() =~= o0);
            }
        },
        Some(Json::Array(parts)) => {
            collect_part_texts(parts, out);
        },
        _ => {
            assert(o0 + Seq::<Seq<u8>>::empty() =~= o0);
        },
    }
}

/// Replaces the texts of one block by their renderings, taken in order from
/// `renders[start..]`; gives the number of renderings used.
fn replace_tool_result(blk: &mut Json, renders: &Vec<Vec<Png>>, start: usize) -> (used: usize)
    requires
        start + block_texts(old(blk)@).len() <= renders@.len(),
        renders_are_png(renders@),
    ensures
        used == block_texts(old(blk)@).len(),
        final(blk)@ == replace_block(old(blk)@, render_images(renders@).skip(start as int)),
{
    let ghost b0 = blk@;
    let ghost rs = render_images(renders@).skip(start as int);
    if !is_open_tool_result_exec(blk) {
        return 0;
    }
    let inner: Option<Json> = match blk.get(lit("content").as_slice()) {
        Some(j) => Some(j.deep_clone()),
        None => None,
    };
    match inner {
        Some(Json::Str(s)) => {
            if s.len() > 2000 {
                let imgs = &renders[start];
                assert(all_png_files(renders@[start as int]@));
                assert(rs[0] == images(imgs@));
                let blocks = image_blocks(imgs.as_slice(), false);
                blk.insert(lit("content"), Json::Array(blocks));
                1
            } else {
                0
            }
        },
        Some(Json::Array(parts)) => {
            let (out, used) = replace_long_parts(parts, renders, start);
            if used > 0 {
                blk.insert(lit("content"), Json::Array(out));
            }
            used
        },
        _ => 0,
    }
}

proof fn lemma_blocks_texts_mono(blocks: Seq<JsonV>, i: int, j: int)
    requires
        0 <= i <= j <= blocks.len(),
    ensures
        blocks_texts(blocks.subrange(0, i)).len() <= blocks_texts(blocks.subrange(0, j)).len(),
    decreases j - i,
{
    if i < j {
        lemma_blocks_texts_mono(blocks, i, j - 1);
        assert(blocks.subrange(0, j).drop_last() == blocks.subrange(0, j - 1));
    }
}

proof fn lemma_replace_blocks_noop(blocks: Seq<JsonV>, rs: Seq<Seq<PngImage>>)
    requires
        blocks_texts(blocks).len() == 0,
    ensures
        replace_blocks(blocks, rs) == blocks,
    decreases blocks.len(),
{
    if blocks.len() > 0 {
        lemma_replace_blocks_noop(blocks.drop_last(), rs);
        assert(blocks.drop_last().push(blocks.last()) =~= blocks);
    }
}

/// Appends the texts of all `blocks` to `out`.
fn collect_blocks_texts(blocks: &Vec<Json>, out: &mut Vec<Vec<u8>>)
    ensures
        views(final(out)@) == views(old(out)@) + blocks_texts(array_view(blocks@)),
{
    proof {
        lemma_array_view(blocks@);
    }
    let ghost bv = array_view(blocks@);
    let ghost o0 = views(out@);
    let mut i: usize = 0;
    assert(bv.subrange(0, 0) =~= Seq::<JsonV>::empty());
    assert(o0 + Seq::<Seq<u8>>::empty() =~= o0);
    while i < blocks.len()
        invariant
            i <= blocks@.len(),
            bv == array_view(blocks@),
            bv.len() == blocks@.len(),
            forall|j: int| 0 <= j < blocks@.len() ==> #[trigger] bv[j] == blocks@[j]@,
            views(out@) == o0 + blocks_texts(bv.subrange(0, i as int)),
        decreases blocks@.len() - i,
    {
        assert(bv.subrange(0, i + 1).drop_last() == bv.subrange(0, i as int));
        assert(bv.subrange(0, i + 1).last() == blocks@[i as int]@);
        let ghost before = views(out@);
        collect_block_texts(&blocks[i], out);
        assert(views(out@) =~= o0 + blocks_texts(bv.subrange(0, i + 1)));
        i = i + 1;
    }
    assert(bv.subrange(0, blocks@.len() as int) == bv);
}

/// Replaces the texts of every block in place, renderings taken in order
/// from `renders[start..]`; gives the number of renderings used.
fn replace_in_blocks(blocks: &mut Vec<Json>, renders: &Vec<Vec<Png>>, start: usize) -> (used: usize)
    requires
        start + blocks_texts(array_view(old(blocks)@)).len() <= renders@.len(),
        renders_are_png(renders@),
    ensures
        used == blocks_texts(array_view(old(blocks)@)).len(),
        array_view(final(blocks)@) == replace_blocks(
            array_view(old(blocks)@),
            render_images(renders@).skip(start as int),
        ),
{
    let ghost orig = array_view(blocks@);
    let ghost rv = render_images(renders@);
    let ghost rs = rv.skip(start as int);
    proof {
        lemma_array_view(blocks@);
    }
    let n = blocks.len();
    let nr = renders.len();
    let mut used: usize = 0;
    let mut i: usize = 0;
    assert(orig.subrange(0, 0) =~= Seq::<JsonV>::empty());
    assert(array_view(blocks@).subrange(0, 0) =~= Seq::<JsonV>::empty());
    while i < n
        invariant
            n == blocks@.len(),
            nr == renders@.len(),
            orig.len() == n,
            rv == render_images(renders@),
            rs == rv.skip(start as int),
            start + blocks_texts(orig).len() <= renders@.len(),
            renders_are_png(renders@),
            i <= n,
            forall|j: int| i <= j < n ==> #[trigger] blocks@[j]@ == orig[j],
            array_view(blocks@).subrange(0, i as int) == replace_blocks(
                orig.subrange(0, i as int),
                rs,
            ),
            used == blocks_texts(orig.subrange(0, i as int)).len(),
        decreases n - i,
    {
        proof {
            lemma_array_view(blocks@);
            lemma_blocks_texts_mono(orig, i + 1, n as int);
            assert(orig.subrange(0, n as int) == orig);
            assert(orig.subrange(0, i + 1).drop_last() == orig.subrange(0, i as int));
            assert(orig.subrange(0, i + 1).last() == orig[i as int]);
        }
        let ghost before = blocks@;
        let mut b = Json::Null;
        std::mem::swap(&mut b, &mut blocks[i]);
        assert(b@ == orig[i as int]);
        let u = replace_tool_result(&mut b, renders, start + used);
        assert(rv.skip(start + used) =~= rs.skip(used as int));
        blocks.set(i, b);
        proof {
            lemma_array_view(blocks@);
            lemma_array_view(before);
            assert(blocks@ == before.update(i as int, b));
            assert(array_view(blocks@).subrange(0, i + 1) =~= array_view(before).subrange(
                0,
                i as int,
            ).push(b@));
        }
        used = used + u;
        i = i + 1;
    }
    proof {
        lemma_array_view(blocks@);
    }
    assert(orig.subrange(0, n as int) == orig);
    assert(array_view(blocks@).subrange(0, n as int) == array_view(blocks@));
    used
}

fn is_user_message(msg: &Json) -> (r: bool)
    ensures
        r == (field_str(msg@, key_of("role")) == Some(key_of("user"))),
{
    msg.field_is(lit("role").as_slice(), lit("user").as_slice())
}

/// Appends the texts of `msg` to `out`.
fn collect_msg_texts(msg: &Json, out: &mut Vec<Vec<u8>>)
    ensures
        views(final(out)@) == views(old(out)@) + msg_texts(msg@),
{
    let ghost o0 = views(out@);
    if is_user_message(msg) {
        match msg.get(lit("content").as_slice()) {
            Some(Json::Array(blocks)) => {
                collect_blocks_texts(blocks, out);
                return;
            },
            _ => {},
        }
    }
    assert(o0 + Seq::<Seq<u8>>::empty() =~= o0);
}

/// Replaces the tool-result texts of one message in place, renderings taken
/// in order from `renders[start..]`; gives the number of renderings used.
fn replace_in_message(msg: &mut Json, renders: &Vec<Vec<Png>>, start: usize) -> (used: usize)
    requires
        start + msg_texts(old(msg)@).len() <= renders@.len(),
        renders_are_png(renders@),
    ensures
        used == msg_texts(old(msg)@).len(),
        final(msg)@ == replace_msg(old(msg)@, render_images(renders@).skip(start as int)),
{
    let ghost m0 = msg@;
    let ghost rs = render_images(renders@).skip(start as int);
    if !is_user_message(msg) {
        return 0;
    }
    let key = lit("content");
    let is_array = match msg.get(key.as_slice()) {
        Some(Json::Array(_)) => true,
        _ => false,
    };
    if !is_array {
        return 0;
    }
    match msg.take(key.as_slice()) {
        Some(Json::Array(mut blocks)) => {
            let ghost b0 = array_view(blocks@);
            let used = replace_in_blocks(&mut blocks, renders, start);
            let ghost b1 = array_view(blocks@);
            msg.insert(lit("content"), Json::Array(blocks));
            proof {
                crate::json::lemma_insert_twice(m0, key@, JsonV::Null, JsonV::Array(b1));
                if used == 0 {
                    lemma_replace_blocks_noop(b0, rs);
                    crate::json::lemma_insert_same(m0, key@);
                }
            }
            used
        },
        _ => {
            assert(false);
            0
        },
    }
}

proof fn lemma_msgs_texts_mono(msgs: Seq<JsonV>, i: int, j: int)
    requires
        0 <= i <= j <= msgs.len(),
    ensures
        msgs_texts(msgs.subrange(0, i)).len() <= msgs_texts(msgs.subrange(0, j)).len(),
    decreases j - i,
{
    if i < j {
        lemma_msgs_texts_mono(msgs, i, j - 1);
        assert(msgs.subrange(0, j).drop_last() == msgs.subrange(0, j - 1));
    }
}

/// The texts of the large tool results of all user messages, in the order
/// in which `replace_tool_results` uses their renderings.
pub fn collect_tool_result_texts(msgs: &Vec<Json>) -> (r: Vec<Vec<u8>>)
    ensures
        views(r@) == msgs_texts(array_view(msgs@)),
{
    proof {
        lemma_array_view(msgs@);
    }
    let ghost mv = array_view(msgs@);
    let mut out: Vec<Vec<u8>> = Vec::new();
    let mut i: usize = 0;
    assert(mv.subrange(0, 0) =~= Seq::<JsonV>::empty());
    assert(views(out@) =~= Seq::<Seq<u8>>::empty());
    while i < msgs.len()
        invariant
            i <= msgs@.len(),
            mv == array_view(msgs@),
            mv.len() == msgs@.len(),
            forall|j: int| 0 <= j < msgs@.len() ==> #[trigger] mv[j] == msgs@[j]@,
            views(out@) == msgs_texts(mv.subrange(0, i as int)),
        decreases msgs@.len() - i,
    {
        assert(mv.subrange(0, i + 1).drop_last() == mv.subrange(0, i as int));
        assert(mv.subrange(0, i + 1).last() == msgs@[i as int]@);
        collect_msg_texts(&msgs[i], &mut out);
        i = i + 1;
    }
    assert(mv.subrange(0, msgs@.len() as int) == mv);
    out
}

/// Replaces the content of every open tool result of the user messages
/// whose text is large (a string of more than 2000 bytes, or text parts of
/// more than 2000 bytes) by the image blocks of its rendering;
/// `renders[k]` is the rendering of the `k`-th text that
/// `collect_tool_result_texts` gives.
pub fn replace_tool_results(msgs: &mut Vec<Json>, renders: &Vec<Vec<Png>>)
    requires
        renders@.len() == msgs_texts(array_view(old(msgs)@)).len(),
        renders_are_png(renders@),
    ensures
        array_view(final(msgs)@) == replace_msgs(array_view(old(msgs)@), render_images(renders@)),
{
    let ghost orig = array_view(msgs@);
    let ghost rv = render_images(renders@);
    proof {
        lemma_array_view(msgs@);
    }
    let n = msgs.len();
    let nr = renders.len();
    let mut used: usize = 0;
    let mut i: usize = 0;
    assert(orig.subrange(0, 0) =~= Seq::<JsonV>::empty());
    assert(array_view(msgs@).subrange(0, 0) =~= Seq::<JsonV>::empty());
    while i < n
        invariant
            n == msgs@.len(),
            nr == renders@.len(),
            orig.len() == n,
            rv == render_images(renders@),
            renders@.len() == msgs_texts(orig).len(),
            renders_are_png(renders@),
            i <= n,
            forall|j: int| i <= j < n ==> #[trigger] msgs@[j]@ == orig[j],
            array_view(msgs@).subrange(0, i as int) == replace_msgs(orig.subrange(0, i as int), rv),
            used == msgs_texts(orig.subrange(0, i as int)).len(),
        decreases n - i,
    {
        proof {
            lemma_array_view(msgs@);
            lemma_msgs_texts_mono(orig, i + 1, n as int);
            assert(orig.subrange(0, n as int) == orig);
            assert(orig.subrange(0, i + 1).drop_last() == orig.subrange(0, i as int));
            assert(orig.subrange(0, i + 1).last() == orig[i as int]);
        }
        let ghost before = msgs@;
        let mut m = Json::Null;
        std::mem::swap(&mut m, &mut msgs[i]);
        assert(m@ == orig[i as int]);
        let u = replace_in_message(&mut m, renders, used);
        msgs.set(i, m);
        proof {
            lemma_array_view(msgs@);
            lemma_array_view(before);
            assert(msgs@ == before.update(i as int, m));
            assert(array_view(msgs@).subrange(0, i + 1) =~= array_view(before).subrange(
                0,
                i as int,
            ).push(m@));
        }
        used = used + u;
        i = i + 1;
    }
    proof {
        lemma_array_view(msgs@);
    }
    assert(orig.subrange(0, n as int) == orig);
    assert(array_view(msgs@).subrange(0, n as int) == array_view(msgs@));
}

// ----- laws -----
/// A tool result flagged as an error keeps its content, whatever its size.
pub proof fn law_error_results_kept(blk: JsonV, rs: Seq<Seq<PngImage>>)
    requires
        jget(blk, key_of("is_error")) == Some(JsonV::Bool(true)),
    ensures
        replace_block(blk, rs) == blk,
{
}

/// Only user messages have tool results rendered; other messages stay.
pub proof fn law_other_roles_kept(msg: JsonV, rs: Seq<Seq<PngImage>>)
    requires
        field_str(msg, key_of("role")) != Some(key_of("user")),
    ensures
        replace_msg(msg, rs) == msg,
{
}

/// Rendering tool results keeps every message, in order, and replaces only
/// the content of blocks that had large text.
pub proof fn law_tool_results_keep_messages(msgs: Seq<JsonV>, rs: Seq<Seq<PngImage>>)
    ensures
        replace_msgs(msgs, rs).len() == msgs.len(),
        forall|j: int|
            0 <= j < msgs.len() && msg_texts(msgs[j]).len() == 0 ==> #[trigger] replace_msgs(
                msgs,
                rs,
            )[j] == msgs[j],
    decreases msgs.len(),
{
    if msgs.len() > 0 {
        law_tool_results_keep_messages(msgs.drop_last(), rs);
        assert forall|j: int|
            0 <= j < msgs.len() && msg_texts(msgs[j]).len() == 0 implies #[trigger] replace_msgs(
            msgs,
            rs,
        )[j] == msgs[j] by {
            if j < msgs.len() - 1 {
                assert(msgs.drop_last()[j] == msgs[j]);
            }
        }
    }
}

/// The first user message's new content is the banner, the system image
/// blocks and the closing line, followed by the message's own blocks
/// (unchanged when reminders are not rendered).
pub proof fn law_own_content_follows(msg: JsonV, sys: Seq<PngImage>, rem: Seq<Seq<PngImage>>)
    ensures
        ({
            let c = first_user_content(msg, image_blocks_v(sys, true), false, rem);
            &&& c.len() == sys.len() + 2 + content_list(msg).len()
            &&& c[0] == text_block(banner_text())
            &&& c.subrange(1, sys.len() as int + 1) == image_blocks_v(sys, true)
            &&& c[sys.len() as int + 1] == text_block(end_text())
            &&& c.subrange(sys.len() as int + 2, c.len() as int) == content_list(msg)
        }),
{
    let c = first_user_content(msg, image_blocks_v(sys, true), false, rem);
    assert(c.subrange(1, sys.len() as int + 1) =~= image_blocks_v(sys, true));
    assert(c.subrange(sys.len() as int + 2, c.len() as int) =~= content_list(msg));
}

/// The reminder texts of two runs of blocks, one after the other, are
/// those of the first run then those of the second: every reminder counts,
/// wherever it stands.
pub proof fn law_reminder_texts_concat(a: Seq<JsonV>, b: Seq<JsonV>)
    ensures
        reminder_texts(a + b) == reminder_texts(a) + reminder_texts(b),
    decreases b.len(),
{
    if b.len() == 0 {
        assert(a + b =~= a);
        assert(reminder_texts(a) + reminder_texts(b) =~= reminder_texts(a));
    } else {
        law_reminder_texts_concat(a, b.drop_last());
        assert((a + b).drop_last() =~= a + b.drop_last());
        assert((a + b).last() == b.last());
        if is_reminder(b.last()) {
            assert(reminder_texts(a) + reminder_texts(b) =~= (reminder_texts(a) + reminder_texts(
                b.drop_last(),
            )).push(field_str_or(b.last(), key_of("text"), Seq::empty())));
        }
    }
}

/// After the reminders are rendered no block of the content is a
/// reminder: every reminder block, wherever it stands, is replaced.
pub proof fn law_no_reminder_left(content: Seq<JsonV>, rs: Seq<Seq<PngImage>>)
    ensures
        forall|k: int|
            0 <= k < replace_reminders(content, rs).len() ==> !is_reminder(
                #[trigger] replace_reminders(content, rs)[k],
            ),
    decreases content.len(),
{
    if content.len() > 0 {
        law_no_reminder_left(content.drop_last(), rs);
        let prev = replace_reminders(content.drop_last(), rs);
        if is_reminder(content.last()) {
            let ib = image_blocks_v(rs[reminder_texts(content.drop_last()).len() as int], false);
            law_image_blocks_not_text(rs[reminder_texts(content.drop_last()).len() as int], false);
            assert forall|k: int| 0 <= k < replace_reminders(content, rs).len() implies !is_reminder(
                #[trigger] replace_reminders(content, rs)[k],
            ) by {
                if k >= prev.len() {
                    assert(replace_reminders(content, rs)[k] == ib[k - prev.len()]);
                } else {
                    assert(replace_reminders(content, rs)[k] == prev[k]);
                }
            }
        } else {
            assert forall|k: int| 0 <= k < replace_reminders(content, rs).len() implies !is_reminder(
                #[trigger] replace_reminders(content, rs)[k],
            ) by {
                if k < prev.len() {
                    assert(replace_reminders(content, rs)[k] == prev[k]);
                }
            }
        }
    }
}

proof fn lemma_part_texts_none(parts: Seq<JsonV>)
    requires
        forall|k: int| 0 <= k < parts.len() ==> !is_long_text_part(#[trigger] parts[k]),
    ensures
        part_texts(parts).len() == 0,
    decreases parts.len(),
{
    if parts.len() > 0 {
        assert(!is_long_text_part(parts[parts.len() - 1]));
        lemma_part_texts_none(parts.drop_last());
    }
}

proof fn lemma_part_texts_concat(a: Seq<JsonV>, b: Seq<JsonV>)
    ensures
        part_texts(a + b) == part_texts(a) + part_texts(b),
    decreases b.len(),
{
    if b.len() == 0 {
        assert(a + b =~= a);
        assert(part_texts(a) + part_texts(b) =~= part_texts(a));
    } else {
        lemma_part_texts_concat(a, b.drop_last());
        assert((a + b).drop_last() =~= a + b.drop_last());
        assert((a + b).last() == b.last());
        if is_long_text_part(b.last()) {
            assert(part_texts(a) + part_texts(b) =~= (part_texts(a) + part_texts(b.drop_last())).push(
                field_str_or(b.last(), key_of("text"), Seq::empty()),
            ));
        }
    }
}

proof fn lemma_image_parts_plain(imgs: Seq<PngImage>)
    ensures
        part_texts(image_blocks_v(imgs, false)).len() == 0,
{
    law_image_blocks_not_text(imgs, false);
    let ib = image_blocks_v(imgs, false);
    assert forall|k: int| 0 <= k < ib.len() implies !is_long_text_part(#[trigger] ib[k]) by {
        assert(!is_text_type(ib[k]));
    }
    lemma_part_texts_none(ib);
}

proof fn lemma_parts_replaced(parts: Seq<JsonV>, rs: Seq<Seq<PngImage>>)
    ensures
        part_texts(replace_parts(parts, rs)).len() == 0,
    decreases parts.len(),
{
    if parts.len() > 0 {
        lemma_parts_replaced(parts.drop_last(), rs);
        let prev = replace_parts(parts.drop_last(), rs);
        if is_long_text_part(parts.last()) {
            let ib = image_blocks_v(rs[part_texts(parts.drop_last()).len() as int], false);
            lemma_image_parts_plain(rs[part_texts(parts.drop_last()).len() as int]);
            lemma_part_texts_concat(prev, ib);
        } else {
            assert(prev.push(parts.last()).drop_last() == prev);
        }
    }
}

proof fn lemma_block_replaced(blk: JsonV, rs: Seq<Seq<PngImage>>)
    ensures
        block_texts(replace_block(blk, rs)).len() == 0,
{
    if block_texts(blk).len() > 0 {
        let nc = new_tool_content(blk, rs);
        crate::json::lemma_get_insert(blk, key_of("content"), nc);
        match jget(blk, key_of("content")) {
            Some(JsonV::Array(parts)) => {
                lemma_parts_replaced(parts, rs);
            },
            _ => {
                lemma_image_parts_plain(rs[0]);
            },
        }
    }
}

proof fn lemma_blocks_replaced(blocks: Seq<JsonV>, rs: Seq<Seq<PngImage>>)
    ensures
        blocks_texts(replace_blocks(blocks, rs)).len() == 0,
    decreases blocks.len(),
{
    if blocks.len() > 0 {
        lemma_blocks_replaced(blocks.drop_last(), rs);
        let prev = replace_blocks(blocks.drop_last(), rs);
        let x = replace_block(
            blocks.last(),
            rs.skip(blocks_texts(blocks.drop_last()).len() as int),
        );
        lemma_block_replaced(blocks.last(), rs.skip(blocks_texts(blocks.drop_last()).len() as int));
        assert(prev.push(x).drop_last() == prev);
        assert(prev.push(x).last() == x);
    }
}

proof fn lemma_msg_replaced(msg: JsonV, rs: Seq<Seq<PngImage>>)
    ensures
        msg_texts(replace_msg(msg, rs)).len() == 0,
{
    if msg_texts(msg).len() > 0 {
        match jget(msg, key_of("content")) {
            Some(JsonV::Array(blocks)) => {
                crate::json::lemma_get_insert(
                    msg,
                    key_of("content"),
                    JsonV::Array(replace_blocks(blocks, rs)),
                );
                lemma_blocks_replaced(blocks, rs);
            },
            _ => {},
        }
    }
}

/// The tool-result texts of two runs of messages, one after the other, are
/// those of the first run then those of the second: every user message
/// counts, wherever it stands.
pub proof fn law_msgs_texts_concat(a: Seq<JsonV>, b: Seq<JsonV>)
    ensures
        msgs_texts(a + b) == msgs_texts(a) + msgs_texts(b),
    decreases b.len(),
{
    if b.len() == 0 {
        assert(a + b =~= a);
        assert(msgs_texts(a) + msgs_texts(b) =~= msgs_texts(a));
    } else {
        law_msgs_texts_concat(a, b.drop_last());
        assert((a + b).drop_last() =~= a + b.drop_last());
        assert((a + b).last() == b.last());
        assert(msgs_texts(a) + msgs_texts(b) =~= (msgs_texts(a) + msgs_texts(b.drop_last()))
            + msg_texts(b.last()));
    }
}

/// After the tool results are rendered, no user message has a large tool
/// result left as text: every one of them, in every user message, became
/// images.
pub proof fn law_no_tool_result_text_left(msgs: Seq<JsonV>, rs: Seq<Seq<PngImage>>)
    ensures
        msgs_texts(replace_msgs(msgs, rs)).len() == 0,
        forall|j: int|
            0 <= j < replace_msgs(msgs, rs).len() ==> msg_texts(
                #[trigger] replace_msgs(msgs, rs)[j],
            ).len() == 0,
    decreases msgs.len(),
{
    if msgs.len() > 0 {
        law_no_tool_result_text_left(msgs.drop_last(), rs);
        let prev = replace_msgs(msgs.drop_last(), rs);
        let x = replace_msg(msgs.last(), rs.skip(msgs_texts(msgs.drop_last()).len() as int));
        lemma_msg_replaced(msgs.last(), rs.skip(msgs_texts(msgs.drop_last()).len() as int));
        assert(prev.push(x).drop_last() == prev);
        assert(prev.push(x).last() == x);
        assert forall|j: int| 0 <= j < replace_msgs(msgs, rs).len() implies msg_texts(
            #[trigger] replace_msgs(msgs, rs)[j],
        ).len() == 0 by {
            if j < prev.len() {
                assert(replace_msgs(msgs, rs)[j] == prev[j]);
            } else {
                assert(replace_msgs(msgs, rs)[j] == x);
            }
        }
    }
}

} // verus!
