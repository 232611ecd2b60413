use claude_image_proxy::json::{lit, make_text_block, Json, JsonNumber};

fn object() -> Json {
    Json::Object(vec![
        (b"a".to_vec(), Json::Bool(true)),
        (
            b"n".to_vec(),
            Json::Number(JsonNumber { text: b"7".to_vec(), unsigned: Some(7) }),
        ),
    ])
}

#[test]
fn insert_then_get_gives_the_value() {
    let mut o = object();
    o.insert(b"a".to_vec(), Json::Str(b"x".to_vec()));
    assert_eq!(o.get_str(b"a"), Some(&b"x".to_vec()));
    o.insert(b"new".to_vec(), Json::Null);
    assert!(matches!(o.get(b"new"), Some(Json::Null)));
    match &o {
        Json::Object(f) => {
            assert_eq!(f.len(), 3);
            assert_eq!(f[0].0, b"a".to_vec());
            assert_eq!(f[2].0, b"new".to_vec());
        }
        _ => panic!("not an object"),
    }
}

#[test]
fn take_leaves_null_and_non_objects_are_untouched() {
    let mut o = object();
    assert!(matches!(o.take(b"a"), Some(Json::Bool(true))));
    assert!(matches!(o.get(b"a"), Some(Json::Null)));
    assert!(o.take(b"missing").is_none());
    let mut s = Json::Str(b"text".to_vec());
    s.insert(b"k".to_vec(), Json::Null);
    assert!(matches!(s, Json::Str(_)));
    assert!(s.get(b"k").is_none());
}

#[test]
fn field_tests_and_text_blocks() {
    let b = make_text_block(b"hello".to_vec());
    assert!(b.field_is(b"type", b"text"));
    assert!(b.field_is(b"text", b"hello"));
    assert!(!b.field_is(b"text", b"other"));
    assert!(b.is_object());
    assert_eq!(lit("x-y"), b"x-y".to_vec());
    let c = b.deep_clone();
    assert!(c.field_is(b"text", b"hello"));
}
