//! Request-body transformation: the bulky text of a Messages API request
//! (system prompt, tool documentation, large reminders and tool results)
//! is rendered into PNG images that replace it, within the API's limit on
//! `cache_control` breakpoints (one is added, on the last system image).

use vstd::prelude::*;
use vstd::string::StringSliceAdditionalSpecFns;
use crate::font::AtlasFont;
use crate::render::{views, Png, PngImage, images, render_ready};
use crate::json::{
    Json,
    JsonV,
    jget,
    jinsert,
    text_block,
    make_text_block,
    lit,
    lemma_array_view,
    lemma_array_view_ops,
    array_view,
};
use crate::text::push_all;
use crate::info::{clamp_usize, TransformInfo, InfoV, empty_info, measured, measure_images};
use crate::digest::{sha8, sha256_8};
use crate::cache::{RenderCache, cached_render, digest_rendering};
use crate::blocks::{key_of, image_blocks_v, image_blocks};
use crate::system::{
    system_text_of,
    split_billing,
    extract_system_text,
    strip_billing,
    law_system_text_removed,
};
use crate::blocks::is_text_type;
use crate::tools::{tools_step, request_schemas, tools_step_exec};
use crate::messages::{
    first_user_from,
    first_user_content,
    first_user_index,
    content_list,
    reminder_texts,
    collect_reminder_texts,
    count_images,
    render_images,
    renders_are_png,
    attach_system_images,
    msgs_texts,
    replace_msgs,
    collect_tool_result_texts,
    replace_tool_results,
};

verus! {

/// Settings of a request transformation.
pub struct TransformConfig<'a> {
    pub compress: bool,
    pub compress_tools: bool,
    pub compress_schemas: bool,
    pub compress_reminders: bool,
    pub compress_tool_results: bool,
    /// Shortest system text (in bytes) worth rendering.
    pub min_chars: usize,
    pub font: &'a AtlasFont,
    pub render_cache: &'a RenderCache,
}

/// `rs[k]` is what the render cache gives for `texts[k]` with `font` (the
/// rendering of a text with the same digest), for every `k`.
pub open spec fn renders_match(rs: Seq<Seq<PngImage>>, font: AtlasFont, texts: Seq<Seq<u8>>) -> bool {
    &&& rs.len() == texts.len()
    &&& forall|k: int| 0 <= k < rs.len() ==> digest_rendering(#[trigger] rs[k], font, texts[k])
}

/// The system text of a request with its billing line split off, the
/// billing line, and what stays in the `system` field.
pub open spec fn system_parts(req: JsonV) -> (Seq<u8>, Option<Seq<u8>>, Option<JsonV>) {
    let s = system_text_of(jget(req, key_of("system")));
    let b = split_billing(s.0);
    (b.0, b.1, s.1)
}

/// `system <{min_chars} chars`.
pub open spec fn short_notice(min_chars: usize) -> Seq<u8> {
    "system <".spec_bytes() + crate::text::decimal(min_chars as nat) + " chars".spec_bytes()
}

pub open spec fn no_user_notice() -> Seq<u8> {
    "no user message to attach image to".spec_bytes()
}

/// The tools step of a transformation.
pub open spec fn tools_of(req: JsonV, cfg: TransformConfig, texts: Seq<Seq<u8>>) -> (
    JsonV,
    Seq<u8>,
    nat,
) {
    tools_step(req, cfg.compress_tools, cfg.compress_schemas, texts)
}

/// The text rendered into the system images: the system text, then the
/// tool documentation.
pub open spec fn system_image_text(req: JsonV, cfg: TransformConfig, texts: Seq<Seq<u8>>) -> Seq<
    u8,
> {
    system_parts(req).0 + tools_of(req, cfg, texts).1
}

/// The `messages` array of a request.
pub open spec fn messages_of(req: JsonV) -> Option<Seq<JsonV>> {
    match jget(req, key_of("messages")) {
        Some(JsonV::Array(m)) => Some(m),
        _ => None,
    }
}

/// The reminder texts of a message that get rendered.
pub open spec fn reminder_list(msg: JsonV, on: bool) -> Seq<Seq<u8>> {
    if on {
        reminder_texts(content_list(msg))
    } else {
        Seq::empty()
    }
}

/// The messages after the first user message (at `i`) got the system images.
pub open spec fn with_system_images(
    msgs: Seq<JsonV>,
    i: int,
    sys: Seq<PngImage>,
    reminders_on: bool,
    rem: Seq<Seq<PngImage>>,
) -> Seq<JsonV> {
    msgs.update(
        i,
        jinsert(
            msgs[i],
            key_of("content"),
            JsonV::Array(first_user_content(msgs[i], image_blocks_v(sys, true), reminders_on, rem)),
        ),
    )
}

/// The tool-result texts of the messages that get rendered.
pub open spec fn tool_result_list(msgs: Seq<JsonV>, on: bool) -> Seq<Seq<u8>> {
    if on {
        msgs_texts(msgs)
    } else {
        Seq::empty()
    }
}

pub open spec fn with_tool_results(msgs: Seq<JsonV>, on: bool, tr: Seq<Seq<PngImage>>) -> Seq<JsonV> {
    if on {
        replace_msgs(msgs, tr)
    } else {
        msgs
    }
}

/// The `system` field after the rewrite: the billing line alone when there
/// was one, else what stayed of the field (when there was a field).
pub open spec fn restore_system(req: JsonV, billing: Option<Seq<u8>>, rest: Option<JsonV>) -> JsonV {
    match billing {
        Some(b) => jinsert(req, key_of("system"), JsonV::Str(b)),
        None => match rest {
            Some(r) => jinsert(req, key_of("system"), r),
            None => req,
        },
    }
}

/// Whether `sys`, `rem` and `tr` are renderings that the rewrite of `req`
/// can use: what the render cache gives, with the configured atlas, for the
/// system image text, the reminders of the first user message and the
/// large tool results, each as far as the rewrite gets.
pub open spec fn renderings_fit(
    req: Option<JsonV>,
    cfg: TransformConfig,
    texts: Seq<Seq<u8>>,
    sys: Seq<PngImage>,
    rem: Seq<Seq<PngImage>>,
    tr: Seq<Seq<PngImage>>,
) -> bool {
    match req {
        Some(r) => (cfg.compress && system_parts(r).0.len() >= cfg.min_chars) ==> {
            &&& digest_rendering(sys, *cfg.font, system_image_text(r, cfg, texts))
            &&& match messages_of(tools_of(r, cfg, texts).0) {
                Some(msgs) => {
                    let i = first_user_from(msgs, 0);
                    i >= 0 ==> {
                        &&& renders_match(
                            rem,
                            *cfg.font,
                            reminder_list(msgs[i], cfg.compress_reminders),
                        )
                        &&& renders_match(
                            tr,
                            *cfg.font,
                            tool_result_list(
                                with_system_images(msgs, i, sys, cfg.compress_reminders, rem),
                                cfg.compress_tool_results,
                            ),
                        )
                    }
                },
                None => true,
            }
        },
        None => true,
    }
}

/// The rewrite of a request object, given the renderings it uses.
pub open spec fn rewrite_spec(
    r: JsonV,
    cfg: TransformConfig,
    texts: Seq<Seq<u8>>,
    sys: Seq<PngImage>,
    rem: Seq<Seq<PngImage>>,
    tr: Seq<Seq<PngImage>>,
) -> (Option<JsonV>, InfoV) {
    let p = system_parts(r);
    let info0 = InfoV {
        system_text_chars: p.0.len() as usize,
        system_text_sha8: sha8(p.0),
        ..empty_info()
    };
    if p.0.len() < cfg.min_chars {
        (None, InfoV { skipped: Some(short_notice(cfg.min_chars)), ..info0 })
    } else {
        let t = tools_of(r, cfg, texts);
        let info1 = measured(
            InfoV { tool_text_added: t.1.len() as usize, schemas_compressed: t.2 as usize, ..info0 },
            sys,
            (p.0 + t.1).len() as usize,
        );
        match messages_of(t.0) {
            None => (None, info1),
            Some(msgs) => {
                let i = first_user_from(msgs, 0);
                if i < 0 {
                    (None, InfoV { skipped: Some(no_user_notice()), ..info1 })
                } else {
                    let m1 = with_system_images(msgs, i, sys, cfg.compress_reminders, rem);
                    let m2 = with_tool_results(m1, cfg.compress_tool_results, tr);
                    let out = restore_system(
                        jinsert(t.0, key_of("messages"), JsonV::Array(m2)),
                        p.1,
                        p.2,
                    );
                    (
                        Some(out),
                        InfoV {
                            compressed: true,
                            reminder_imgs: if cfg.compress_reminders {
                                clamp_usize(count_images(rem))
                            } else {
                                0
                            },
                            tool_result_imgs: if cfg.compress_tool_results {
                                clamp_usize(count_images(tr))
                            } else {
                                0
                            },
                            ..info1
                        },
                    )
                }
            },
        }
    }
}

/// What `transform` gives: the rewritten request (`None` when the request
/// is to be forwarded as it came) and the report.
pub open spec fn transform_spec(
    req: Option<JsonV>,
    cfg: TransformConfig,
    texts: Seq<Seq<u8>>,
    sys: Seq<PngImage>,
    rem: Seq<Seq<PngImage>>,
    tr: Seq<Seq<PngImage>>,
) -> (Option<JsonV>, InfoV) {
    match req {
        Some(r) => if cfg.compress {
            rewrite_spec(r, cfg, texts, sys, rem, tr)
        } else {
            (None, empty_info())
        },
        None => (None, empty_info()),
    }
}

pub open spec fn opt_view(j: Option<Json>) -> Option<JsonV> {
    match j {
        Some(v) => Some(v@),
        None => None,
    }
}

/// A copy of the content blocks of a message (`content_list`).
fn content_list_exec(msg: &Json) -> (r: Vec<Json>)
    ensures
        array_view(r@) == content_list(msg@),
{
    match msg.get(lit("content").as_slice()) {
        Some(c) => match c.deep_clone() {
            Json::Str(s) => {
                let mut v: Vec<Json> = Vec::new();
                v.push(make_text_block(s));
                proof {
                    lemma_array_view(v@);
                    assert(array_view(v@) =~= seq![text_block(s@)]);
                }
                v
            },
            Json::Array(a) => a,
            _ => Vec::new(),
        },
        None => Vec::new(),
    }
}

/// Renders each text through the cache, in order.
fn render_all(cache: &RenderCache, font: &AtlasFont, texts: &Vec<Vec<u8>>) -> (r: Vec<Vec<Png>>)
    requires
        render_ready(*font),
    ensures
        renders_match(render_images(r@), *font, views(texts@)),
        renders_are_png(r@),
{
    let mut r: Vec<Vec<Png>> = Vec::new();
    let mut i: usize = 0;
    while i < texts.len()
        invariant
            render_ready(*font),
            i <= texts@.len(),
            r@.len() == i,
            forall|k: int| 0 <= k < i ==> digest_rendering(#[trigger] images(r@[k]@), *font, texts@[k]@),
            renders_are_png(r@),
        decreases texts@.len() - i,
    {
        let pngs = cached_render(cache, font, texts[i].as_slice());
        r.push(pngs);
        i = i + 1;
    }
    assert forall|k: int| 0 <= k < r@.len() implies digest_rendering(
        #[trigger] render_images(r@)[k],
        *font,
        views(texts@)[k],
    ) by {
        assert(images(r@[k]@) == render_images(r@)[k]);
    }
    r
}

/// Number of images of all renderings (saturating).
fn count_render_images(renders: &Vec<Vec<Png>>) -> (n: usize)
    ensures
        n == clamp_usize(count_images(render_images(renders@))),
{
    let ghost rv = render_images(renders@);
    let mut n: usize = 0;
    let mut i: usize = 0;
    while i < renders.len()
        invariant
            i <= renders@.len(),
            rv == render_images(renders@),
            n == clamp_usize(count_images(rv.subrange(0, i as int))),
        decreases renders@.len() - i,
    {
        assert(rv.subrange(0, i + 1).drop_last() == rv.subrange(0, i as int));
        assert(rv.subrange(0, i + 1).last() == images(renders@[i as int]@));
        n = n.saturating_add(renders[i].len());
        i = i + 1;
    }
    assert(rv.subrange(0, renders@.len() as int) == rv);
    n
}

/// The message steps of the rewrite: the first user message (at `i`) gets
/// the system image blocks (reminders rendered when configured), then the
/// large tool results are rendered when configured. Gives the numbers of
/// reminder and tool-result images, and the renderings used.
fn rewrite_messages(
    msgs: &mut Vec<Json>,
    i: usize,
    sys_blocks: Vec<Json>,
    Ghost(sys): Ghost<Seq<PngImage>>,
    cfg: &TransformConfig,
) -> (r: (usize, usize, Ghost<Seq<Seq<PngImage>>>, Ghost<Seq<Seq<PngImage>>>))
    requires
        i < old(msgs)@.len(),
        render_ready(*cfg.font),
        array_view(sys_blocks@) == image_blocks_v(sys, true),
    ensures
        ({
            let m0 = array_view(old(msgs)@);
            let rem = r.2@;
            let tr = r.3@;
            let m1 = with_system_images(m0, i as int, sys, cfg.compress_reminders, rem);
            &&& renders_match(rem, *cfg.font, reminder_list(m0[i as int], cfg.compress_reminders))
            &&& renders_match(tr, *cfg.font, tool_result_list(m1, cfg.compress_tool_results))
            &&& array_view(final(msgs)@) == with_tool_results(m1, cfg.compress_tool_results, tr)
            &&& r.0 == if cfg.compress_reminders {
                clamp_usize(count_images(rem))
            } else {
                0
            }
            &&& r.1 == if cfg.compress_tool_results {
                clamp_usize(count_images(tr))
            } else {
                0
            }
        }),
{
    let ghost m0 = array_view(msgs@);
    proof {
        lemma_array_view(msgs@);
    }
    let reminder_renders: Vec<Vec<Png>> = if cfg.compress_reminders {
        let content = content_list_exec(&msgs[i]);
        let texts = collect_reminder_texts(&content);
        render_all(cfg.render_cache, cfg.font, &texts)
    } else {
        Vec::new()
    };
    let ghost rem = if cfg.compress_reminders {
        render_images(reminder_renders@)
    } else {
        Seq::empty()
    };
    assert(renders_match(rem, *cfg.font, reminder_list(m0[i as int], cfg.compress_reminders)));
    let ghost before = msgs@;
    let mut m = Json::Null;
    std::mem::swap(&mut m, &mut msgs[i]);
    assert(m@ == m0[i as int]);
    let n_rem = attach_system_images(&mut m, sys_blocks, cfg.compress_reminders, &reminder_renders);
    msgs.set(i, m);
    let ghost m1 = with_system_images(m0, i as int, sys, cfg.compress_reminders, rem);
    proof {
        lemma_array_view(msgs@);
        lemma_array_view_ops(before);
        assert(msgs@ == before.update(i as int, m));
        if cfg.compress_reminders {
            assert(first_user_content(m0[i as int], image_blocks_v(sys, true), true, rem)
                == first_user_content(m0[i as int], image_blocks_v(sys, true), true, render_images(reminder_renders@)));
        }
        assert(array_view(msgs@) =~= m1);
    }
    if cfg.compress_tool_results {
        let texts = collect_tool_result_texts(msgs);
        let renders = render_all(cfg.render_cache, cfg.font, &texts);
        assert(render_images(renders@).len() == renders@.len());
        assert(views(texts@).len() == texts@.len());
        replace_tool_results(msgs, &renders);
        let n_tr = count_render_images(&renders);
        (n_rem, n_tr, Ghost(rem), Ghost(render_images(renders@)))
    } else {
        (n_rem, 0, Ghost(rem), Ghost(Seq::empty()))
    }
}

fn restore_system_exec(req: &mut Json, billing: Option<Vec<u8>>, rest: Option<Json>)
    ensures
        final(req)@ == restore_system(
            old(req)@,
            match billing {
                Some(b) => Some(b@),
                None => None,
            },
            opt_view(rest),
        ),
{
    match billing {
        Some(b) => req.insert(lit("system"), Json::Str(b)),
        None => match rest {
            Some(r) => req.insert(lit("system"), r),
            None => {},
        },
    }
}

/// The rewrite of a parsed request (`transform` with compression on).
fn rewrite_request(req: Json, schema_texts: &Vec<Vec<u8>>, cfg: &TransformConfig) -> (r: (
    Option<Json>,
    TransformInfo,
))
    requires
        render_ready(*cfg.font),
        cfg.compress,
        schema_texts@.len() == request_schemas(req@, cfg.compress_tools, cfg.compress_schemas).len(),
    ensures
        exists|sys: Seq<PngImage>, rem: Seq<Seq<PngImage>>, tr: Seq<Seq<PngImage>>|
            renderings_fit(Some(req@), *cfg, views(schema_texts@), sys, rem, tr) && (
            opt_view(r.0),
            r.1@,
        ) == rewrite_spec(req@, *cfg, views(schema_texts@), sys, rem, tr),
{
    let ghost r0 = req@;
    let ghost texts = views(schema_texts@);
    let mut req = req;
    let mut info = TransformInfo::default();
    let (text0, rest) = extract_system_text(req.get(lit("system").as_slice()));
    let (text, billing) = strip_billing(text0);
    let ghost p = system_parts(r0);
    assert(text@ == p.0);
    info.system_text_chars = text.len();
    info.system_text_sha8 = sha256_8(text.as_slice());
    if text.len() < cfg.min_chars {
        let mut notice = lit("system <");
        crate::text::push_decimal(&mut notice, cfg.min_chars);
        push_all(&mut notice, lit(" chars").as_slice());
        info.skipped = Some(notice);
        let ghost e = Seq::<Seq<PngImage>>::empty();
        assert(renderings_fit(Some(r0), *cfg, texts, Seq::empty(), e, e));
        assert((opt_view(None), info@) == rewrite_spec(r0, *cfg, texts, Seq::empty(), e, e));
        return (None, info);
    }
    let (section, count) = tools_step_exec(&mut req, cfg.compress_tools, cfg.compress_schemas, schema_texts);
    let ghost t = tools_of(r0, *cfg, texts);
    assert(req@ == t.0 && section@ == t.1 && count == t.2);
    info.tool_text_added = section.len();
    info.schemas_compressed = count;
    let mut text = text;
    push_all(&mut text, section.as_slice());
    let pngs = cached_render(cfg.render_cache, cfg.font, text.as_slice());
    let ghost sys = images(pngs@);
    assert(text@ == system_image_text(r0, *cfg, texts));
    let ghost e = Seq::<Seq<PngImage>>::empty();
    let ghost info0 = info@;
    measure_images(&mut info, &pngs, text.len());
    let sys_blocks = image_blocks(pngs.as_slice(), true);
    let key = lit("messages");
    let is_array = match req.get(key.as_slice()) {
        Some(Json::Array(_)) => true,
        _ => false,
    };
    if !is_array {
        assert(renderings_fit(Some(r0), *cfg, texts, sys, e, e));
        assert((opt_view(None), info@) == rewrite_spec(r0, *cfg, texts, sys, e, e));
        return (None, info);
    }
    let ghost r2 = req@;
    match req.take(key.as_slice()) {
        Some(Json::Array(mut msgs)) => {
            let ghost mv = array_view(msgs@);
            assert(messages_of(t.0) == Some(mv));
            match first_user_index(&msgs) {
                None => {
                    info.skipped = Some(lit("no user message to attach image to"));
                    assert(renderings_fit(Some(r0), *cfg, texts, sys, e, e));
                    assert((opt_view(None), info@) == rewrite_spec(r0, *cfg, texts, sys, e, e));
                    (None, info)
                },
                Some(i) => {
                    let (n_rem, n_tr, Ghost(rem), Ghost(tr)) = rewrite_messages(
                        &mut msgs,
                        i,
                        sys_blocks,
                        Ghost(sys),
                        cfg,
                    );
                    let ghost m2 = array_view(msgs@);
                    req.insert(lit("messages"), Json::Array(msgs));
                    proof {
                        crate::json::lemma_insert_twice(r2, key@, JsonV::Null, JsonV::Array(m2));
                    }
                    restore_system_exec(&mut req, billing, rest);
                    info.reminder_imgs = n_rem;
                    info.tool_result_imgs = n_tr;
                    info.compressed = true;
                    assert(renderings_fit(Some(r0), *cfg, texts, sys, rem, tr));
                    assert((opt_view(Some(req)), info@) == rewrite_spec(r0, *cfg, texts, sys, rem, tr));
                    (Some(req), info)
                },
            }
        },
        _ => {
            assert(false);
            (None, info)
        },
    }
}

/// Rewrites a Messages API request: the system prompt (with the per-turn
/// billing line split off), and with `compress_tools` the tool documentation,
/// are rendered into images that go at the head of the first user message,
/// with only the last image carrying a cache breakpoint; large reminders and
/// tool results are rendered too when configured. `req` is the parsed body
/// (`None` when the body is not JSON) and `schema_texts` the pretty-printed
/// schemas that `schemas_to_print` lists. Gives the rewritten request, or
/// `None` when the body is to be forwarded as it came, and the report.
pub fn transform(req: Option<Json>, schema_texts: &Vec<Vec<u8>>, cfg: &TransformConfig) -> (r: (
    Option<Json>,
    TransformInfo,
))
    requires
        render_ready(*cfg.font),
        req matches Some(j) ==> schema_texts@.len() == request_schemas(
            j@,
            cfg.compress_tools,
            cfg.compress_schemas,
        ).len(),
    ensures
        exists|sys: Seq<PngImage>, rem: Seq<Seq<PngImage>>, tr: Seq<Seq<PngImage>>|
            renderings_fit(opt_view(req), *cfg, views(schema_texts@), sys, rem, tr) && (
            opt_view(r.0),
            r.1@,
        ) == transform_spec(opt_view(req), *cfg, views(schema_texts@), sys, rem, tr),
{
    let ghost e = Seq::<Seq<PngImage>>::empty();
    let ghost t = views(schema_texts@);
    if !cfg.compress {
        let info = TransformInfo::default();
        assert(renderings_fit(opt_view(req), *cfg, t, Seq::empty(), e, e));
        assert((opt_view(None), info@) == transform_spec(opt_view(req), *cfg, t, Seq::empty(), e, e));
        return (None, info);
    }
    match req {
        None => {
            let info = TransformInfo::default();
            assert(renderings_fit(None, *cfg, t, Seq::empty(), e, e));
            assert((opt_view(None), info@) == transform_spec(None, *cfg, t, Seq::empty(), e, e));
            (None, info)
        },
        Some(j) => rewrite_request(j, schema_texts, cfg),
    }
}

// ----- laws -----
/// With compression off, or a body that is not JSON, the request is
/// forwarded as it came and the report is empty.
pub proof fn law_passthrough(
    req: Option<JsonV>,
    cfg: TransformConfig,
    texts: Seq<Seq<u8>>,
    sys: Seq<PngImage>,
    rem: Seq<Seq<PngImage>>,
    tr: Seq<Seq<PngImage>>,
)
    requires
        !cfg.compress || req is None,
    ensures
        transform_spec(req, cfg, texts, sys, rem, tr) == (None::<JsonV>, empty_info()),
{
}

/// A system text shorter than `min_chars` leaves the request as it came,
/// with the reason in the report.
pub proof fn law_short_system_skipped(
    req: JsonV,
    cfg: TransformConfig,
    texts: Seq<Seq<u8>>,
    sys: Seq<PngImage>,
    rem: Seq<Seq<PngImage>>,
    tr: Seq<Seq<PngImage>>,
)
    requires
        cfg.compress,
        system_parts(req).0.len() < cfg.min_chars,
    ensures
        transform_spec(Some(req), cfg, texts, sys, rem, tr).0 is None,
        transform_spec(Some(req), cfg, texts, sys, rem, tr).1.skipped == Some(
            short_notice(cfg.min_chars),
        ),
        !transform_spec(Some(req), cfg, texts, sys, rem, tr).1.compressed,
{
}

/// A rewritten request keeps all its messages; only the first user message
/// gets the system images, and with tool-result rendering off every other
/// message is as it was.
pub proof fn law_messages_kept(
    msgs: Seq<JsonV>,
    i: int,
    sys: Seq<PngImage>,
    reminders_on: bool,
    rem: Seq<Seq<PngImage>>,
)
    requires
        0 <= i < msgs.len(),
    ensures
        with_system_images(msgs, i, sys, reminders_on, rem).len() == msgs.len(),
        forall|j: int|
            0 <= j < msgs.len() && j != i ==> #[trigger] with_system_images(
                msgs,
                i,
                sys,
                reminders_on,
                rem,
            )[j] == msgs[j],
{
}

/// A request is forwarded as it came exactly when the report says it was
/// not rewritten.
pub proof fn law_uncompressed_forwarded(
    req: Option<JsonV>,
    cfg: TransformConfig,
    texts: Seq<Seq<u8>>,
    sys: Seq<PngImage>,
    rem: Seq<Seq<PngImage>>,
    tr: Seq<Seq<PngImage>>,
)
    ensures
        (transform_spec(req, cfg, texts, sys, rem, tr).0 is None) == !transform_spec(
            req,
            cfg,
            texts,
            sys,
            rem,
            tr,
        ).1.compressed,
{
}

/// After a rewrite the `system` field holds no text that went into the
/// images: the billing line alone when there was one; otherwise `""` for a
/// string prompt, and for an array only its blocks that are not text.
pub proof fn law_system_field_after_rewrite(
    req: JsonV,
    cfg: TransformConfig,
    texts: Seq<Seq<u8>>,
    sys: Seq<PngImage>,
    rem: Seq<Seq<PngImage>>,
    tr: Seq<Seq<PngImage>>,
)
    requires
        transform_spec(Some(req), cfg, texts, sys, rem, tr).0 is Some,
    ensures
        ({
            let out = transform_spec(Some(req), cfg, texts, sys, rem, tr).0->0;
            let billing = system_parts(req).1;
            &&& billing matches Some(b) ==> jget(out, key_of("system")) == Some(JsonV::Str(b))
            &&& (billing is None && jget(req, key_of("system")) matches Some(JsonV::Str(_)))
                ==> jget(out, key_of("system")) == Some(JsonV::Str(Seq::empty()))
            &&& (billing is None && jget(req, key_of("system")) matches Some(JsonV::Array(_)))
                ==> (jget(out, key_of("system")) matches Some(JsonV::Array(kept)) && forall|k: int|
                0 <= k < kept.len() ==> !is_text_type(#[trigger] kept[k]))
        }),
{
    let p = system_parts(req);
    let t = tools_of(req, cfg, texts);
    let msgs = messages_of(t.0)->0;
    let i = first_user_from(msgs, 0);
    let m1 = with_system_images(msgs, i, sys, cfg.compress_reminders, rem);
    let m2 = with_tool_results(m1, cfg.compress_tool_results, tr);
    let x = jinsert(t.0, key_of("messages"), JsonV::Array(m2));
    assert(t.0 is Object);
    assert(x is Object);
    match p.1 {
        Some(b) => {
            crate::json::lemma_get_insert(x, key_of("system"), JsonV::Str(b));
        },
        None => {
            match jget(req, key_of("system")) {
                Some(JsonV::Str(s)) => {
                    crate::json::lemma_get_insert(x, key_of("system"), JsonV::Str(Seq::empty()));
                },
                Some(JsonV::Array(a)) => {
                    law_system_text_removed(a);
                    crate::json::lemma_get_insert(
                        x,
                        key_of("system"),
                        JsonV::Array(crate::system::other_blocks(a)),
                    );
                },
                _ => {},
            }
        },
    }
}

} // verus!
