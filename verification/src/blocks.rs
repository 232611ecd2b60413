//! Content blocks of Messages API requests: literal keys and strings, text
//! blocks, and the image blocks that carry rendered PNGs.

use vstd::prelude::*;
use vstd::string::StringSliceAdditionalSpecFns;
use crate::render::{Png, PngImage, images};
use crate::digest::{base64_standard, base64_encode, base64_len_ok};
use crate::json::{
    Json,
    JsonV,
    jget,
    field_str,
    field_str_or,
    lit,
    lemma_array_view_ops,
    lemma_fields_view,
    fields_view,
    array_view,
};
use crate::cache::all_png_files;

verus! {

/// The UTF-8 bytes of a key or string literal.
pub open spec fn key_of(s: &str) -> Seq<u8> {
    s.spec_bytes()
}

/// A block whose `"type"` is `"text"`.
pub open spec fn is_text_type(b: JsonV) -> bool {
    field_str(b, "type".spec_bytes()) == Some("text".spec_bytes())
}

pub(crate) proof fn lemma_empty_literal()
    ensures
        "".spec_bytes() == Seq::<u8>::empty(),
{
    reveal_strlit("");
    assert(""@ == Seq::<char>::empty());
}

/// A copy of the string member `key` of `j`, or `default`.
pub(crate) fn field_or_copy(j: &Json, key: &str, default: &str) -> (r: Vec<u8>)
    ensures
        r@ == field_str_or(j@, key.spec_bytes(), default.spec_bytes()),
{
    match j.get_str(lit(key).as_slice()) {
        Some(s) => {
            let r = crate::text::copy_range(s.as_slice(), 0, s.len());
            assert(s@.subrange(0, s@.len() as int) == s@);
            r
        },
        None => lit(default),
    }
}

/// A JSON string holding a literal.
pub open spec fn str_v(s: &str) -> JsonV {
    JsonV::Str(s.spec_bytes())
}

/// An image content block holding the PNG as Base64; with `cache` it also
/// carries `"cache_control": {"type": "ephemeral", "ttl": "1h"}`.
pub open spec fn image_block_v(png: Seq<u8>, cache: bool) -> JsonV {
    let source = JsonV::Object(
        seq![
            ("type".spec_bytes(), str_v("base64")),
            ("media_type".spec_bytes(), str_v("image/png")),
            ("data".spec_bytes(), JsonV::Str(base64_standard(png))),
        ],
    );
    let base = seq![("type".spec_bytes(), str_v("image")), ("source".spec_bytes(), source)];
    let control = JsonV::Object(
        seq![("type".spec_bytes(), str_v("ephemeral")), ("ttl".spec_bytes(), str_v("1h"))],
    );
    JsonV::Object(
        if cache {
            base.push(("cache_control".spec_bytes(), control))
        } else {
            base
        },
    )
}

/// Image blocks for `imgs`, in order; with `cache_last` the last one carries
/// the cache breakpoint.
pub open spec fn image_blocks_v(imgs: Seq<PngImage>, cache_last: bool) -> Seq<JsonV> {
    Seq::new(
        imgs.len(),
        |i: int| image_block_v(imgs[i].bytes, cache_last && i + 1 == imgs.len()),
    )
}

proof fn lemma_base64_fits(n: int)
    requires
        0 <= n <= isize::MAX,
    ensures
        base64_len_ok(n),
{
}

pub(crate) fn str_json(s: &str) -> (r: Json)
    ensures
        r@ == str_v(s),
{
    Json::Str(lit(s))
}

fn object2(k1: &str, v1: Json, k2: &str, v2: Json) -> (r: Json)
    ensures
        r@ == JsonV::Object(seq![(k1.spec_bytes(), v1@), (k2.spec_bytes(), v2@)]),
{
    let mut f: Vec<(Vec<u8>, Json)> = Vec::new();
    f.push((lit(k1), v1));
    f.push((lit(k2), v2));
    proof {
        lemma_fields_view(f@);
        assert(fields_view(f@) =~= seq![(k1.spec_bytes(), v1@), (k2.spec_bytes(), v2@)]);
    }
    Json::Object(f)
}

/// Builds the image content block for one PNG.
pub(crate) fn image_block(png_bytes: &[u8], cache: bool) -> (r: Json)
    requires
        png_bytes@.len() <= isize::MAX,
    ensures
        r@ == image_block_v(png_bytes@, cache),
{
    proof {
        lemma_base64_fits(png_bytes@.len() as int);
    }
    let b64 = base64_encode(png_bytes);
    let mut src: Vec<(Vec<u8>, Json)> = Vec::new();
    src.push((lit("type"), str_json("base64")));
    src.push((lit("media_type"), str_json("image/png")));
    src.push((lit("data"), Json::Str(b64)));
    let ghost sv = fields_view(src@);
    proof {
        lemma_fields_view(src@);
    }
    let source = Json::Object(src);
    let mut f: Vec<(Vec<u8>, Json)> = Vec::new();
    f.push((lit("type"), str_json("image")));
    f.push((lit("source"), source));
    if cache {
        f.push((lit("cache_control"), object2("type", str_json("ephemeral"), "ttl", str_json("1h"))));
    }
    proof {
        lemma_fields_view(f@);
        let want = image_block_v(png_bytes@, cache);
        assert(source@ == JsonV::Object(sv));
        assert(JsonV::Object(fields_view(f@)) == want) by {
            assert(sv =~= seq![
                ("type".spec_bytes(), str_v("base64")),
                ("media_type".spec_bytes(), str_v("image/png")),
                ("data".spec_bytes(), JsonV::Str(base64_standard(png_bytes@))),
            ]);
            if cache {
                assert(fields_view(f@) =~= want->Object_0);
            } else {
                assert(fields_view(f@) =~= want->Object_0);
            }
        }
    }
    Json::Object(f)
}

/// Image blocks for `pngs`, in order.
pub(crate) fn image_blocks(pngs: &[Png], cache_last: bool) -> (r: Vec<Json>)
    requires
        all_png_files(pngs@),
    ensures
        array_view(r@) == image_blocks_v(images(pngs@), cache_last),
{
    let mut r: Vec<Json> = Vec::new();
    let mut i: usize = 0;
    let ghost want = image_blocks_v(images(pngs@), cache_last);
    while i < pngs.len()
        invariant
            i <= pngs@.len(),
            all_png_files(pngs@),
            want == image_blocks_v(images(pngs@), cache_last),
            array_view(r@) == want.subrange(0, i as int),
        decreases pngs@.len() - i,
    {
        let b = image_block(pngs[i].bytes.as_slice(), cache_last && i + 1 == pngs.len());
        proof {
            lemma_array_view_ops(r@);
        }
        r.push(b);
        assert(want.subrange(0, i + 1) == want.subrange(0, i as int).push(want[i as int]));
        i = i + 1;
    }
    assert(want.subrange(0, pngs@.len() as int) == want);
    r
}

// ----- laws -----
proof fn lemma_distinct_literals(a: &str, b: &str)
    requires
        a@ != b@,
    ensures
        a.spec_bytes() != b.spec_bytes(),
{
    broadcast use vstd::utf8::encode_utf8_decode_utf8;

    assert(vstd::utf8::decode_utf8(vstd::utf8::encode_utf8(a@)) == a@);
    assert(vstd::utf8::decode_utf8(vstd::utf8::encode_utf8(b@)) == b@);
}

proof fn lemma_image_block_keys(png: Seq<u8>, cache: bool)
    ensures
        (jget(image_block_v(png, cache), key_of("cache_control")) is Some) == cache,
{
    reveal_strlit("type");
    reveal_strlit("source");
    reveal_strlit("cache_control");
    lemma_distinct_literals("type", "cache_control");
    lemma_distinct_literals("source", "cache_control");
    let f = image_block_v(png, cache)->Object_0;
    crate::json::lemma_find_key(f, key_of("cache_control"), 0);
    if cache {
        crate::json::lemma_find_key_first(f, key_of("cache_control"), 0, 2);
    } else {
        crate::json::lemma_find_key_first(f, key_of("cache_control"), 0, 2);
    }
}

/// Of the image blocks added for the system text only the last carries a
/// cache breakpoint, and the image blocks of reminders and tool results
/// carry none: a rewrite adds one breakpoint to the request.
pub proof fn law_one_breakpoint(imgs: Seq<PngImage>)
    ensures
        forall|k: int|
            0 <= k < imgs.len() ==> (jget(
                #[trigger] image_blocks_v(imgs, true)[k],
                key_of("cache_control"),
            ) is Some) == (k == imgs.len() - 1),
        forall|k: int|
            0 <= k < imgs.len() ==> jget(
                #[trigger] image_blocks_v(imgs, false)[k],
                key_of("cache_control"),
            ) is None,
{
    assert forall|k: int| 0 <= k < imgs.len() implies (jget(
        #[trigger] image_blocks_v(imgs, true)[k],
        key_of("cache_control"),
    ) is Some) == (k == imgs.len() - 1) by {
        lemma_image_block_keys(imgs[k].bytes, k + 1 == imgs.len());
    }
    assert forall|k: int| 0 <= k < imgs.len() implies jget(
        #[trigger] image_blocks_v(imgs, false)[k],
        key_of("cache_control"),
    ) is None by {
        lemma_image_block_keys(imgs[k].bytes, false);
    }
}

/// Image blocks are not text blocks: nothing that looks for text (a
/// reminder, a large text part) finds any in them.
pub proof fn law_image_blocks_not_text(imgs: Seq<PngImage>, cache: bool)
    ensures
        forall|k: int| 0 <= k < imgs.len() ==> !is_text_type(#[trigger] image_blocks_v(imgs, cache)[k]),
{
    reveal_strlit("image");
    reveal_strlit("text");
    lemma_distinct_literals("image", "text");
    assert forall|k: int| 0 <= k < imgs.len() implies !is_text_type(
        #[trigger] image_blocks_v(imgs, cache)[k],
    ) by {
        let f = image_blocks_v(imgs, cache)[k]->Object_0;
        crate::json::lemma_find_key_first(f, key_of("type"), 0, 0);
    }
}

} // verus!
