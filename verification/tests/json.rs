use mcpg_plugin_backend_net_core::json::JsonValue;

fn entry(key: &str, value: JsonValue) -> (String, JsonValue) {
    (key.to_owned(), value)
}

#[test]
fn values_have_compact_texts() {
    assert_eq!(JsonValue::Null.text(), "null");
    assert_eq!(JsonValue::Bool(false).text(), "false");
    assert_eq!(JsonValue::number(18_446_744_073_709_551_615).text(), "18446744073709551615");
    assert_eq!(JsonValue::number(0).text(), "0");
    assert_eq!(JsonValue::String("a\"\\\n\u{e9}\u{1}".to_owned()).text(), "\"a\\\"\\\\\\n\u{e9}\\u0001\"");
    assert_eq!(JsonValue::Array(vec![]).text(), "[]");
    assert_eq!(JsonValue::Object(vec![]).text(), "{}");
    assert_eq!(
        JsonValue::Array(vec![JsonValue::Null, JsonValue::Array(vec![JsonValue::number(1)])]).text(),
        "[null,[1]]"
    );
}

#[test]
fn texts_are_those_of_the_json_crate() {
    let value = JsonValue::Object(vec![
        entry("z", JsonValue::Array(vec![JsonValue::Bool(true), JsonValue::String("\t".to_owned())])),
        entry("a\"", JsonValue::Object(vec![entry("y", JsonValue::Null), entry("x", JsonValue::number(7))])),
    ]);
    let parsed: serde_json::Value = serde_json::from_str(&value.text()).unwrap();
    assert_eq!(parsed.to_string(), value.text());
}

#[test]
fn the_order_of_entries_does_not_matter() {
    let one = JsonValue::Object(vec![entry("b", JsonValue::Null), entry("a", JsonValue::number(1))]);
    let other = JsonValue::Object(vec![entry("a", JsonValue::number(1)), entry("b", JsonValue::Null)]);
    assert_eq!(one.text(), other.text());
    assert_eq!(one.text(), "{\"a\":1,\"b\":null}");
}

#[test]
fn copies_are_equal() {
    let value = JsonValue::Array(vec![
        JsonValue::String("x".to_owned()),
        JsonValue::Object(vec![entry("k", JsonValue::Bool(true))]),
    ]);
    assert_eq!(value.duplicate(), value);
}

#[test]
fn control_characters_are_escaped() {
    let text = |value: &str| JsonValue::String(value.to_owned()).text();
    assert_eq!(text(""), "\"\"");
    assert_eq!(text("\u{8}\t\n\u{c}\r"), "\"\\b\\t\\n\\f\\r\"");
    assert_eq!(text("\u{0}\u{b}\u{1f}"), "\"\\u0000\\u000b\\u001f\"");
    assert_eq!(text(" /\u{7f}\u{2028}"), "\" /\u{7f}\u{2028}\"");
}
