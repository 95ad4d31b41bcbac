use mcping::json::{extract_text, parse_json, JsonValue};

fn obj(fields: Vec<(&str, JsonValue)>) -> JsonValue {
    JsonValue::Obj(
        fields
            .into_iter()
            .map(|(k, v)| (k.to_string(), v))
            .collect(),
    )
}

#[test]
fn flatten_nested_text_and_extra() {
    // {"text":"A","extra":[{"text":"B"},{"text":"C","extra":[{"text":"D"}]}]}
    let v = obj(vec![
        ("text", JsonValue::Str("A".to_string())),
        (
            "extra",
            JsonValue::Arr(vec![
                obj(vec![("text", JsonValue::Str("B".to_string()))]),
                obj(vec![
                    ("text", JsonValue::Str("C".to_string())),
                    (
                        "extra",
                        JsonValue::Arr(vec![obj(vec![(
                            "text",
                            JsonValue::Str("D".to_string()),
                        )])]),
                    ),
                ]),
            ]),
        ),
    ]);
    assert_eq!(extract_text(&v), "ABCD");
}

#[test]
fn flatten_bare_string() {
    assert_eq!(extract_text(&JsonValue::Str("hello".to_string())), "hello");
}

#[test]
fn flatten_empty_object() {
    assert_eq!(extract_text(&JsonValue::Obj(Vec::new())), "");
}

#[test]
fn flatten_ignores_non_text_values() {
    let v = JsonValue::Arr(vec![
        JsonValue::Str("a".to_string()),
        JsonValue::Int(7),
        JsonValue::Bool(true),
        JsonValue::Null,
        JsonValue::Str("b".to_string()),
    ]);
    assert_eq!(extract_text(&v), "ab");
}

#[test]
fn flatten_ignores_other_object_keys() {
    let v = obj(vec![
        ("color", JsonValue::Str("red".to_string())),
        ("text", JsonValue::Str("x".to_string())),
    ]);
    assert_eq!(extract_text(&v), "x");
}

#[test]
fn parse_json_builds_the_tree() {
    let v = parse_json("{\"text\":\"A\",\"extra\":[\"B\",\"C\"]}").unwrap();
    assert_eq!(extract_text(&v), "ABC");
}

#[test]
fn parse_json_scalars() {
    assert!(matches!(parse_json("null"), Some(JsonValue::Null)));
    assert!(matches!(parse_json("true"), Some(JsonValue::Bool(true))));
    assert!(matches!(parse_json("42"), Some(JsonValue::Int(42))));
    match parse_json("\"hi\"") {
        Some(JsonValue::Str(s)) => assert_eq!(s, "hi"),
        other => panic!("unexpected parse: {:?}", other.is_some()),
    }
}

#[test]
fn parse_json_rejects_invalid_text() {
    assert!(parse_json("not json at all").is_none());
    assert!(parse_json("{\"open\":").is_none());
}
