use base64::Engine;
use claude_image_proxy::digest::sha256_8;
use claude_image_proxy::font::{AtlasFont, Mark};
use claude_image_proxy::json::{Json, JsonNumber};
use claude_image_proxy::render::{render_bytes, Png};
use claude_image_proxy::cache::{cached_render, clone_pngs, RenderCache};
use claude_image_proxy::tools::schemas_to_print;
use claude_image_proxy::transform::{transform, TransformConfig};
use serde_json::Value;
use sha2::Digest;

fn test_font() -> AtlasFont {
    let mut marks: Vec<Vec<Mark>> = Vec::new();
    for code in 32u8..=126 {
        let mut m = Vec::new();
        if code != b' ' {
            let x = (code % 5) as i32;
            for y in 1..8 {
                m.push(Mark { x, y, ink: 200 });
            }
            m.push(Mark { x: 4, y: (code % 9) as i32, ink: 255 });
        }
        marks.push(m);
    }
    AtlasFont::from_marks(7, -2, 5, &marks)
}

fn to_json(v: &Value) -> Json {
    match v {
        Value::Null => Json::Null,
        Value::Bool(b) => Json::Bool(*b),
        Value::Number(n) => Json::Number(JsonNumber {
            text: n.to_string().into_bytes(),
            unsigned: n.as_u64(),
        }),
        Value::String(s) => Json::Str(s.as_bytes().to_vec()),
        Value::Array(a) => Json::Array(a.iter().map(to_json).collect()),
        Value::Object(m) => Json::Object(
            m.iter().map(|(k, v)| (k.as_bytes().to_vec(), to_json(v))).collect(),
        ),
    }
}

fn to_value(j: &Json) -> Value {
    match j {
        Json::Null => Value::Null,
        Json::Bool(b) => Value::Bool(*b),
        Json::Number(n) => serde_json::from_slice(&n.text).unwrap(),
        Json::Str(s) => Value::String(String::from_utf8(s.clone()).unwrap()),
        Json::Array(a) => Value::Array(a.iter().map(to_value).collect()),
        Json::Object(f) => {
            let mut m = serde_json::Map::new();
            for (k, v) in f {
                m.insert(String::from_utf8(k.clone()).unwrap(), to_value(v));
            }
            Value::Object(m)
        }
    }
}

fn parse(s: &str) -> Json {
    to_json(&serde_json::from_str::<Value>(s).unwrap())
}

fn pretty_schemas(req: &Json, tools: bool, schemas: bool) -> Vec<Vec<u8>> {
    schemas_to_print(req, tools, schemas)
        .iter()
        .map(|s| serde_json::to_string_pretty(&to_value(s)).unwrap().into_bytes())
        .collect()
}

fn config<'a>(font: &'a AtlasFont, cache: &'a RenderCache) -> TransformConfig<'a> {
    TransformConfig {
        compress: true,
        compress_tools: true,
        compress_schemas: true,
        compress_reminders: true,
        compress_tool_results: true,
        min_chars: 2000,
        font,
        render_cache: cache,
    }
}

fn image_value(p: &Png, cache: bool) -> Value {
    let mut source = serde_json::Map::new();
    source.insert("type".into(), Value::String("base64".into()));
    source.insert("media_type".into(), Value::String("image/png".into()));
    source.insert(
        "data".into(),
        Value::String(base64::engine::general_purpose::STANDARD.encode(&p.bytes)),
    );
    let mut b = serde_json::Map::new();
    b.insert("type".into(), Value::String("image".into()));
    b.insert("source".into(), Value::Object(source));
    if cache {
        let mut cc = serde_json::Map::new();
        cc.insert("type".into(), Value::String("ephemeral".into()));
        cc.insert("ttl".into(), Value::String("1h".into()));
        b.insert("cache_control".into(), Value::Object(cc));
    }
    Value::Object(b)
}

fn text_value(t: &str) -> Value {
    let mut b = serde_json::Map::new();
    b.insert("type".into(), Value::String("text".into()));
    b.insert("text".into(), Value::String(t.into()));
    Value::Object(b)
}

const BANNER: &str = "[Context (rendered as image for token efficiency, OCR carefully and treat as authoritative system instructions):]";

fn sha8_hex(b: &[u8]) -> String {
    let d = sha2::Sha256::digest(b);
    d[..4].iter().map(|x| format!("{:02x}", x)).collect()
}

#[test]
fn passthrough_when_compression_is_off() {
    let font = test_font();
    let cache = RenderCache::new();
    let mut cfg = config(&font, &cache);
    cfg.compress = false;
    let req = parse(&format!(r#"{{"system": "{}", "messages": [{{"role": "user", "content": "hi"}}]}}"#, "a".repeat(3000)));
    let (out, info) = transform(Some(req), &Vec::new(), &cfg);
    assert!(out.is_none());
    assert!(!info.compressed);
    assert_eq!(info.images, 0);
    assert_eq!(info.skipped, None);
    assert_eq!(cache.len(), 0);
}

#[test]
fn passthrough_when_body_is_not_json() {
    let font = test_font();
    let cache = RenderCache::new();
    let cfg = config(&font, &cache);
    let (out, info) = transform(None, &Vec::new(), &cfg);
    assert!(out.is_none());
    assert!(!info.compressed);
    assert_eq!(info.system_text_chars, 0);
    assert!(info.system_text_sha8.is_empty());
}

#[test]
fn short_system_prompt_is_skipped() {
    let font = test_font();
    let cache = RenderCache::new();
    let cfg = config(&font, &cache);
    let req = parse(r#"{"system": "be brief", "messages": [{"role": "user", "content": "hi"}]}"#);
    let (out, info) = transform(Some(req), &Vec::new(), &cfg);
    assert!(out.is_none());
    assert_eq!(info.skipped, Some(b"system <2000 chars".to_vec()));
    assert_eq!(info.system_text_chars, 8);
    assert_eq!(info.system_text_sha8, sha8_hex(b"be brief").into_bytes());
    assert_eq!(info.images, 0);
    assert!(!info.compressed);
}

#[test]
fn full_rewrite_of_a_request() {
    let font = test_font();
    let cache = RenderCache::new();
    let cfg = config(&font, &cache);
    let billing = "x-anthropic-billing-header: cc_version=1; cch=abc;";
    let body = "S".repeat(2500);
    let desc = "d".repeat(100);
    let mut props = String::new();
    for i in 0..12 {
        if i > 0 {
            props.push_str(", ");
        }
        props.push_str(&format!(r#""field_{}": {{"type": "string"}}"#, i));
    }
    let req_text = format!(
        r#"{{
        "model": "m",
        "system": "{billing}\n{body}",
        "tools": [
            {{"name": "Read", "description": "{desc}", "input_schema": {{"type": "object", "properties": {{{props}}}}}}},
            {{"name": "Tiny", "description": "short", "input_schema": {{"type": "object"}}}},
            "not a tool"
        ],
        "messages": [
            {{"role": "assistant", "content": "earlier"}},
            {{"role": "user", "content": "question"}},
            {{"role": "user", "content": [
                {{"type": "tool_result", "tool_use_id": "t1", "content": "{long}"}},
                {{"type": "tool_result", "tool_use_id": "t2", "is_error": true, "content": "{err}"}},
                {{"type": "tool_result", "tool_use_id": "t3", "content": [
                    {{"type": "text", "text": "small"}},
                    {{"type": "text", "text": "{long2}"}}
                ]}}
            ]}}
        ]
    }}"#,
        billing = billing,
        body = body,
        desc = desc,
        props = props,
        long = "L".repeat(2500),
        err = "E".repeat(3000),
        long2 = "M".repeat(2100),
    );
    let req = parse(&req_text);
    let texts = pretty_schemas(&req, true, true);
    assert_eq!(texts.len(), 2);
    let read_schema = String::from_utf8(texts[0].clone()).unwrap();
    assert!(read_schema.len() > 200);
    assert!(texts[1].len() <= 200);

    let (out, info) = transform(Some(req), &texts, &cfg);
    let out = to_value(&out.expect("rewritten"));

    // the system field keeps only the billing line
    assert_eq!(out["system"], Value::String(billing.into()));
    assert_eq!(out["model"], Value::String("m".into()));

    // tools: long description and long schema stubbed, the rest kept
    assert_eq!(
        out["tools"][0]["description"],
        Value::String("See `Read` docs in system context image.".into())
    );
    assert_eq!(out["tools"][0]["input_schema"], serde_json::from_str::<Value>(r#"{"type":"object"}"#).unwrap());
    assert_eq!(out["tools"][1]["description"], Value::String("short".into()));
    assert_eq!(out["tools"][2], Value::String("not a tool".into()));

    // the rendered system text
    let section = format!(
        "\n\n# Tool Documentation\n\n### Tool: Read\n{}\n#### Schema for `Read`\n```json\n{}\n```\n\n### Tool: Tiny\nshort",
        desc, read_schema
    );
    let sys_text = format!("{}{}", body, section);
    let sys_pngs = render_bytes(&font, sys_text.as_bytes());

    // first user message: banner, images (last one cached), end, own content
    let content = out["messages"][1]["content"].as_array().unwrap().clone();
    assert_eq!(content.len(), sys_pngs.len() + 3);
    assert_eq!(content[0], text_value(BANNER));
    for (k, p) in sys_pngs.iter().enumerate() {
        assert_eq!(content[1 + k], image_value(p, k + 1 == sys_pngs.len()));
    }
    assert_eq!(content[sys_pngs.len() + 1], text_value("[End context.]"));
    assert_eq!(content[sys_pngs.len() + 2], text_value("question"));
    assert_eq!(out["messages"][0]["content"], Value::String("earlier".into()));

    // tool results: large string and large text part rendered, error kept
    let blocks = out["messages"][2]["content"].as_array().unwrap();
    let l_pngs = render_bytes(&font, "L".repeat(2500).as_bytes());
    let want: Vec<Value> = l_pngs.iter().map(|p| image_value(p, false)).collect();
    assert_eq!(blocks[0]["content"], Value::Array(want));
    assert_eq!(blocks[0]["tool_use_id"], Value::String("t1".into()));
    assert_eq!(blocks[1]["content"], Value::String("E".repeat(3000)));
    let m_pngs = render_bytes(&font, "M".repeat(2100).as_bytes());
    let mut want2 = vec![text_value("small")];
    want2.extend(m_pngs.iter().map(|p| image_value(p, false)));
    assert_eq!(blocks[2]["content"], Value::Array(want2));

    // the report
    assert!(info.compressed);
    assert_eq!(info.system_text_chars, 2500);
    assert_eq!(info.system_text_sha8, sha8_hex(body.as_bytes()).into_bytes());
    assert_eq!(info.tool_text_added, section.len());
    assert_eq!(info.schemas_compressed, 1);
    assert_eq!(info.images, sys_pngs.len());
    assert_eq!(info.png_bytes, sys_pngs.iter().map(|p| p.bytes.len()).sum::<usize>());
    assert_eq!(info.dims, sys_pngs.iter().map(|p| (p.width, p.height)).collect::<Vec<_>>());
    assert_eq!(
        info.total_pixels,
        sys_pngs.iter().map(|p| p.width as u64 * p.height as u64).sum::<u64>()
    );
    assert_eq!(
        info.expected_image_tokens,
        sys_pngs.iter().map(|p| ((p.width as u64 * p.height as u64) / 750).max(1)).sum::<u64>()
            + 85 * sys_pngs.len() as u64
    );
    assert_eq!(info.text_tokens_estimate, (sys_text.len() / 4) as u64);
    assert_eq!(info.tool_result_imgs, l_pngs.len() + m_pngs.len());
    assert_eq!(info.reminder_imgs, 0);
    assert_eq!(info.cc_breakpoints_added, 1);
    assert_eq!(info.skipped, None);
}

#[test]
fn exactly_one_cache_breakpoint_is_added() {
    let font = test_font();
    let cache = RenderCache::new();
    let cfg = config(&font, &cache);
    let req = parse(&format!(
        r#"{{"system": "{}", "messages": [{{"role": "user", "content": "{}"}}]}}"#,
        "line of system text\\n".repeat(600),
        format!("<system-reminder>{}</system-reminder>", "r".repeat(1200))
    ));
    let (out, info) = transform(Some(req), &Vec::new(), &cfg);
    let out = to_value(&out.unwrap());
    let content = out["messages"][0]["content"].as_array().unwrap();
    let with_cc = content.iter().filter(|b| b.get("cache_control").is_some()).count();
    assert_eq!(with_cc, 1);
    assert!(info.images >= 2);
    assert!(info.reminder_imgs >= 1);
    let last_sys = content[info.images].clone();
    assert!(last_sys.get("cache_control").is_some());
}

#[test]
fn reminders_become_images() {
    let font = test_font();
    let cache = RenderCache::new();
    let cfg = config(&font, &cache);
    let reminder = format!("  <system-reminder>{}</system-reminder>", "r".repeat(1100));
    let small = "<system-reminder>short</system-reminder>";
    let req = parse(&format!(
        r#"{{"system": "{}", "messages": [{{"role": "user", "content": [
            {{"type": "text", "text": "{}"}},
            {{"type": "text", "text": "{}"}},
            {{"type": "text", "text": "ask"}}
        ]}}]}}"#,
        "s".repeat(2000),
        reminder,
        small
    ));
    let (out, info) = transform(Some(req), &Vec::new(), &cfg);
    let out = to_value(&out.unwrap());
    let content = out["messages"][0]["content"].as_array().unwrap();
    let r_pngs = render_bytes(&font, reminder.as_bytes());
    let start = info.images + 2;
    for (k, p) in r_pngs.iter().enumerate() {
        assert_eq!(content[start + k], image_value(p, false));
    }
    assert_eq!(content[start + r_pngs.len()], text_value(small));
    assert_eq!(content[start + r_pngs.len() + 1], text_value("ask"));
    assert_eq!(content.len(), start + r_pngs.len() + 2);
    assert_eq!(info.reminder_imgs, r_pngs.len());
}

#[test]
fn reminders_stay_text_when_not_configured() {
    let font = test_font();
    let cache = RenderCache::new();
    let mut cfg = config(&font, &cache);
    cfg.compress_reminders = false;
    cfg.compress_tool_results = false;
    let reminder = format!("<system-reminder>{}</system-reminder>", "r".repeat(1100));
    let req = parse(&format!(
        r#"{{"system": "{}", "messages": [{{"role": "user", "content": "{}"}}]}}"#,
        "s".repeat(2000),
        reminder
    ));
    let (out, info) = transform(Some(req), &Vec::new(), &cfg);
    let out = to_value(&out.unwrap());
    let content = out["messages"][0]["content"].as_array().unwrap();
    assert_eq!(content[content.len() - 1], text_value(&reminder));
    assert_eq!(info.reminder_imgs, 0);
}

#[test]
fn request_without_messages_is_measured_but_kept() {
    let font = test_font();
    let cache = RenderCache::new();
    let cfg = config(&font, &cache);
    let req = parse(&format!(r#"{{"system": "{}"}}"#, "s".repeat(2500)));
    let (out, info) = transform(Some(req), &Vec::new(), &cfg);
    assert!(out.is_none());
    assert!(info.images >= 1);
    assert_eq!(info.cc_breakpoints_added, 1);
    assert_eq!(info.skipped, None);
    assert!(!info.compressed);
}

#[test]
fn request_without_user_message_is_skipped() {
    let font = test_font();
    let cache = RenderCache::new();
    let cfg = config(&font, &cache);
    let req = parse(&format!(
        r#"{{"system": "{}", "messages": [{{"role": "assistant", "content": "x"}}]}}"#,
        "s".repeat(2500)
    ));
    let (out, info) = transform(Some(req), &Vec::new(), &cfg);
    assert!(out.is_none());
    assert_eq!(info.skipped, Some(b"no user message to attach image to".to_vec()));
    assert!(info.images >= 1);
}

#[test]
fn system_blocks_are_joined_and_others_kept() {
    let font = test_font();
    let cache = RenderCache::new();
    let mut cfg = config(&font, &cache);
    cfg.min_chars = 10;
    let req = parse(r#"{"system": [
            {"type": "text", "text": "first part"},
            {"type": "image", "id": 7},
            {"type": "text", "text": "second part"}
        ], "messages": [{"role": "user", "content": "q"}]}"#);
    let (out, info) = transform(Some(req), &Vec::new(), &cfg);
    let out = to_value(&out.unwrap());
    assert_eq!(info.system_text_chars, "first part\n\nsecond part".len());
    assert_eq!(
        out["system"],
        serde_json::from_str::<Value>(r#"[{"type": "image", "id": 7}]"#).unwrap()
    );
    let pngs = render_bytes(&font, b"first part\n\nsecond part");
    let content = out["messages"][0]["content"].as_array().unwrap();
    assert_eq!(content[1], image_value(&pngs[0], pngs.len() == 1));
}

#[test]
fn billing_line_alone_is_not_rendered() {
    let font = test_font();
    let cache = RenderCache::new();
    let mut cfg = config(&font, &cache);
    cfg.min_chars = 0;
    let req = parse(r#"{"system": "x-anthropic-billing-header: a=1;", "messages": [{"role": "user", "content": "q"}]}"#);
    let (out, info) = transform(Some(req), &Vec::new(), &cfg);
    let out = to_value(&out.unwrap());
    assert_eq!(info.system_text_chars, 0);
    assert_eq!(out["system"], Value::String("x-anthropic-billing-header: a=1;".into()));
    let pngs = render_bytes(&font, b"");
    assert_eq!(info.images, pngs.len());
}

#[test]
fn tools_are_kept_when_not_configured() {
    let font = test_font();
    let cache = RenderCache::new();
    let mut cfg = config(&font, &cache);
    cfg.compress_tools = false;
    let desc = "d".repeat(100);
    let req = parse(&format!(
        r#"{{"system": "{}", "tools": [{{"name": "T", "description": "{}"}}], "messages": [{{"role": "user", "content": "q"}}]}}"#,
        "s".repeat(2000),
        desc
    ));
    assert!(schemas_to_print(&req, false, true).is_empty());
    let (out, info) = transform(Some(req), &Vec::new(), &cfg);
    let out = to_value(&out.unwrap());
    assert_eq!(out["tools"][0]["description"], Value::String(desc));
    assert_eq!(info.tool_text_added, 0);
}

#[test]
fn cache_reuses_renderings() {
    let font = test_font();
    let cache = RenderCache::new();
    let a = cached_render(&cache, &font, b"some text to render");
    assert_eq!(cache.len(), 1);
    let b = cached_render(&cache, &font, b"some text to render");
    assert_eq!(cache.len(), 1);
    assert_eq!(a.len(), b.len());
    for (x, y) in a.iter().zip(b.iter()) {
        assert_eq!(x.bytes, y.bytes);
        assert_eq!((x.width, x.height), (y.width, y.height));
    }
    let direct = render_bytes(&font, b"some text to render");
    assert_eq!(direct[0].bytes, a[0].bytes);
    let _ = cached_render(&cache, &font, b"other text");
    assert_eq!(cache.len(), 2);
}

#[test]
fn cloned_pngs_are_equal() {
    let font = test_font();
    let pngs = render_bytes(&font, b"abc");
    let c = clone_pngs(&pngs);
    assert_eq!(c.len(), pngs.len());
    assert_eq!(c[0].bytes, pngs[0].bytes);
    assert_eq!((c[0].width, c[0].height), (pngs[0].width, pngs[0].height));
}

#[test]
fn sha8_is_the_digest_prefix() {
    assert_eq!(sha256_8(b""), b"e3b0c442".to_vec());
    assert_eq!(sha256_8(b"abc"), b"ba7816bf".to_vec());
}

#[test]
fn billing_line_changes_do_not_change_the_images() {
    let font = test_font();
    let cache = RenderCache::new();
    let cfg = config(&font, &cache);
    let body = "p".repeat(2100);
    let make = |cch: &str| {
        parse(&format!(
            r#"{{"system": "x-anthropic-billing-header: cch={};\n{}", "messages": [{{"role": "user", "content": "q"}}]}}"#,
            cch, body
        ))
    };
    let (a, ia) = transform(Some(make("111")), &Vec::new(), &cfg);
    let (b, ib) = transform(Some(make("222")), &Vec::new(), &cfg);
    let (a, b) = (to_value(&a.unwrap()), to_value(&b.unwrap()));
    assert_eq!(ia.system_text_sha8, ib.system_text_sha8);
    assert_eq!(a["messages"], b["messages"]);
    assert_ne!(a["system"], b["system"]);
    assert_eq!(cache.len(), 1);
}

fn other_font() -> AtlasFont {
    let mut marks: Vec<Vec<Mark>> = Vec::new();
    for code in 32u8..=126 {
        let mut m = Vec::new();
        if code != b' ' {
            m.push(Mark { x: 0, y: 0, ink: 255 });
        }
        marks.push(m);
    }
    AtlasFont::from_marks(7, -2, 5, &marks)
}

#[test]
fn cache_entries_are_used_only_with_the_same_font() {
    let a = test_font();
    let b = other_font();
    let cache = RenderCache::new();
    let with_a = cached_render(&cache, &a, b"shared text");
    let with_b = cached_render(&cache, &b, b"shared text");
    assert_eq!(with_a[0].bytes, render_bytes(&a, b"shared text")[0].bytes);
    assert_eq!(with_b[0].bytes, render_bytes(&b, b"shared text")[0].bytes);
    assert_ne!(with_a[0].bytes, with_b[0].bytes);
    // the entry now holds the rendering with `b`
    let again = cached_render(&cache, &b, b"shared text");
    assert_eq!(again[0].bytes, with_b[0].bytes);
    assert_eq!(cache.len(), 1);
}
