// The output stage offers a compact and a pretty rendering; both must parse
// back to the identical value tree. The library never formats, so this holds
// the serializer the callers use to its contract.

use serde_json::Value as JsonValue;

fn sample() -> JsonValue {
    let mut inner = serde_json::Map::new();
    inner.insert("b".to_string(), JsonValue::from(5));
    let mut root = serde_json::Map::new();
    root.insert("a".to_string(), JsonValue::Object(inner));
    root.insert(
        "list".to_string(),
        JsonValue::Array(vec![
            JsonValue::from(1),
            JsonValue::Bool(true),
            JsonValue::Null,
            JsonValue::from("s"),
        ]),
    );
    JsonValue::Object(root)
}

#[test]
fn compact_output_parses_back_identically() {
    let doc = sample();
    let compact = serde_json::to_string(&doc).unwrap();
    let reparsed: JsonValue = serde_json::from_str(&compact).unwrap();
    assert_eq!(reparsed, doc);
}

#[test]
fn pretty_output_parses_back_identically() {
    let doc = sample();
    let pretty = serde_json::to_string_pretty(&doc).unwrap();
    let reparsed: JsonValue = serde_json::from_str(&pretty).unwrap();
    assert_eq!(reparsed, doc);
}

#[test]
fn pretty_and_compact_agree() {
    let doc = sample();
    let compact = serde_json::to_string(&doc).unwrap();
    let pretty = serde_json::to_string_pretty(&doc).unwrap();
    let from_compact: JsonValue = serde_json::from_str(&compact).unwrap();
    let from_pretty: JsonValue = serde_json::from_str(&pretty).unwrap();
    assert_eq!(from_compact, from_pretty);
}
