use page_context::document::ContextValue;
use page_context::json::parse_json;
use page_context::names::Format;
use page_context::walker::load_value;

#[test]
fn valid_json_is_parsed() {
    let parsed = parse_json("{\"a\": [1, 2, {\"b\": null}]}").unwrap();
    assert_eq!(parsed["a"][0].as_u64(), Some(1));
    assert!(parsed["a"][2]["b"].is_null());
    assert_eq!(parse_json("\"text\""), Some(serde_json::Value::String("text".to_string())));
    assert_eq!(parse_json(" 7 ").and_then(|v| v.as_i64()), Some(7));
}

#[test]
fn invalid_json_is_refused() {
    assert_eq!(parse_json(""), None);
    assert_eq!(parse_json("{"), None);
    assert_eq!(parse_json("{\"a\": 1,}"), None);
    assert_eq!(parse_json("1 2"), None);
    assert_eq!(parse_json("hello"), None);
}

#[test]
fn json_nested_too_deep_is_refused() {
    let deep = "[".repeat(200) + &"]".repeat(200);
    assert_eq!(parse_json(&deep), None);
    let shallow = "[".repeat(100) + &"]".repeat(100);
    assert!(parse_json(&shallow).is_some());
}

#[test]
fn text_files_give_their_text() {
    let value = load_value("{ not json".to_string(), Format::Text);
    assert!(matches!(value, Some(ContextValue::String(text)) if text == "{ not json"));
}

#[test]
fn json_files_give_their_parsed_value() {
    let value = load_value("[1]".to_string(), Format::Json);
    let expected: serde_json::Value = serde_json::from_str("[1]").unwrap();
    assert!(matches!(value, Some(ContextValue::Json(json)) if json == expected));
    assert!(load_value("[1".to_string(), Format::Json).is_none());
}
