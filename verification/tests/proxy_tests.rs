use claude_image_proxy::info::TransformInfo;
use claude_image_proxy::json::{Json, JsonNumber};
use claude_image_proxy::proxy::{
    is_forwarded_header, needs_version_header, saved_token_estimate, should_compress,
    upstream_error_body, upstream_method, HttpMethod, Recent,
};
use claude_image_proxy::stats::Stats;
use claude_image_proxy::usage::{parse_usage, sse_payloads, usage_to_log, TokenCounts};
use serde_json::Value;

fn to_json(v: &Value) -> Json {
    match v {
        Value::Null => Json::Null,
        Value::Bool(b) => Json::Bool(*b),
        Value::Number(n) => Json::Number(JsonNumber {
            text: n.to_string().into_bytes(),
            unsigned: n.as_u64(),
        }),
        Value::String(s) => Json::Str(s.as_bytes().to_vec()),
        Value::Array(a) => Json::Array(a.iter().map(to_json).collect()),
        Value::Object(m) => Json::Object(
            m.iter().map(|(k, v)| (k.as_bytes().to_vec(), to_json(v))).collect(),
        ),
    }
}

fn parse_opt(b: &[u8]) -> Option<Json> {
    serde_json::from_slice::<Value>(b).ok().map(|v| to_json(&v))
}

fn usage_of_body(body: &[u8]) -> Option<TokenCounts> {
    let events = sse_payloads(body).map(|ps| ps.iter().map(|p| parse_opt(p)).collect());
    parse_usage(parse_opt(body), events)
}

#[test]
fn usage_from_plain_json() {
    let body = br#"{"id": "m", "usage": {"input_tokens": 12, "output_tokens": 5, "cache_read_input_tokens": 100, "cache_creation_input_tokens": 7}}"#;
    assert_eq!(
        usage_of_body(body),
        Some(TokenCounts { input: 12, output: 5, cache_read: 100, cache_create: 7 })
    );
}

#[test]
fn usage_missing_counts_are_zero() {
    let u = to_json(&serde_json::from_str::<Value>(r#"{"input_tokens": 3, "output_tokens": -1, "cache_read_input_tokens": 2.5}"#).unwrap());
    assert_eq!(
        usage_to_log(&u),
        TokenCounts { input: 3, output: 0, cache_read: 0, cache_create: 0 }
    );
}

#[test]
fn usage_from_event_stream() {
    let body = b"event: message_start\r\n\
data: {\"type\": \"message_start\", \"message\": {\"usage\": {\"input_tokens\": 10, \"cache_read_input_tokens\": 400, \"cache_creation_input_tokens\": 20}}}\r\n\
\r\n\
event: content_block_delta\n\
data: {\"type\": \"content_block_delta\"}\n\
   data: not json\n\
data: {\"type\": \"message_delta\", \"usage\": {\"output_tokens\": 33}}\n\
data: {\"type\": \"message_delta\", \"usage\": {}}\n";
    assert_eq!(
        usage_of_body(body),
        Some(TokenCounts { input: 10, output: 33, cache_read: 400, cache_create: 20 })
    );
}

#[test]
fn stream_payloads_are_the_data_lines() {
    let body = b"a\r\ndata: one\r\n  data: two\ndata:three\n\tdata: four";
    let p = sse_payloads(body).unwrap();
    assert_eq!(p, vec![b"one".to_vec(), b"two".to_vec(), b"four".to_vec()]);
    assert_eq!(sse_payloads(b""), Some(Vec::new()));
    assert_eq!(sse_payloads(b"data: x\r"), Some(vec![b"x\r".to_vec()]));
}

#[test]
fn no_usage_without_events_or_utf8() {
    assert_eq!(usage_of_body(b"data: {\"type\": \"ping\"}\n"), None);
    assert_eq!(usage_of_body(&[0xff, 0xfe, b'd']), None);
    assert_eq!(sse_payloads(&[0xff]), None);
    assert_eq!(usage_of_body(br#"{"no_usage": 1}"#), None);
}

#[test]
fn only_post_messages_are_rewritten() {
    assert!(should_compress(false, true, b"/v1/messages"));
    assert!(should_compress(false, true, b"/v1/messages?beta=true"));
    assert!(should_compress(false, true, b"/v1/messages/count_tokens"));
    assert!(!should_compress(true, true, b"/v1/messages"));
    assert!(!should_compress(false, false, b"/v1/messages"));
    assert!(!should_compress(false, true, b"/v1/models"));
}

#[test]
fn hop_headers_are_dropped() {
    for h in [
        "connection", "Keep-Alive", "proxy-connection", "Transfer-Encoding", "upgrade", "te",
        "Host", "content-length", "expect", "accept-encoding",
    ] {
        assert!(!is_forwarded_header(h.as_bytes(), false), "{}", h);
        assert!(!is_forwarded_header(h.as_bytes(), true), "{}", h);
    }
    assert!(is_forwarded_header(b"x-api-key", false));
    assert!(is_forwarded_header(b"anthropic-version", true));
    assert!(is_forwarded_header(b"content-encoding", false));
    assert!(!is_forwarded_header(b"Content-Encoding", true));
    assert!(is_forwarded_header(b"tee", false));
}

#[test]
fn unknown_methods_go_upstream_as_post() {
    assert_eq!(upstream_method(HttpMethod::Get), HttpMethod::Get);
    assert_eq!(upstream_method(HttpMethod::Head), HttpMethod::Head);
    assert_eq!(upstream_method(HttpMethod::Delete), HttpMethod::Delete);
    assert_eq!(upstream_method(HttpMethod::Other), HttpMethod::Post);
}

#[test]
fn savings_estimate_never_goes_negative() {
    let mut info = TransformInfo::default();
    info.system_text_chars = 8000;
    info.tool_text_added = 2001;
    info.expected_image_tokens = 1000;
    assert_eq!(saved_token_estimate(&info), 1500);
    info.expected_image_tokens = 5000;
    assert_eq!(saved_token_estimate(&info), 0);
}

#[test]
fn recent_keeps_the_last_sixty_four() {
    let mut r: Recent<u32> = Recent::default();
    assert!(r.snapshot().is_empty());
    for i in 0..70u32 {
        r.push(i);
    }
    let s = r.snapshot();
    assert_eq!(s.len(), 64);
    assert_eq!(s[0], 6);
    assert_eq!(s[63], 69);
    assert_eq!(s, (6..70).collect::<Vec<u32>>());
}

#[test]
fn stats_count_requests() {
    let mut s = Stats::default();
    s.record(true);
    s.record(false);
    s.record(true);
    assert_eq!(s.requests, 3);
    assert_eq!(s.compressed_requests, 2);
    s.requests = u64::MAX;
    s.record(false);
    assert_eq!(s.requests, 0);
}

#[test]
fn version_header_added_only_when_absent() {
    assert!(needs_version_header(&vec![b"x-api-key".to_vec()]));
    assert!(needs_version_header(&Vec::new()));
    assert!(!needs_version_header(&vec![b"x-api-key".to_vec(), b"anthropic-version".to_vec()]));
}

#[test]
fn upstream_failure_body() {
    assert_eq!(
        upstream_error_body(b"\"timed out\""),
        br#"{"error":"upstream_error","detail":"timed out"}"#.to_vec()
    );
}
