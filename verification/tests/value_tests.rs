use json_template::Value;

fn obj(fields: Vec<(&str, Value)>) -> Value {
    Value::Object(fields.into_iter().map(|(k, v)| (k.to_string(), v)).collect())
}

fn text(s: &str) -> Value {
    Value::Text(s.to_string())
}

#[test]
fn json_text_of_scalars() {
    assert_eq!(Value::Null.json_text(), "null");
    assert_eq!(Value::Bool(true).json_text(), "true");
    assert_eq!(Value::Bool(false).json_text(), "false");
    assert_eq!(Value::Int(0).json_text(), "0");
    assert_eq!(Value::Int(36).json_text(), "36");
    assert_eq!(Value::Int(-42).json_text(), "-42");
    assert_eq!(Value::Int(i64::MAX).json_text(), "9223372036854775807");
    assert_eq!(Value::Int(i64::MIN).json_text(), "-9223372036854775808");
}

#[test]
fn json_text_of_strings_is_quoted_and_escaped() {
    assert_eq!(text("hi").json_text(), "\"hi\"");
    assert_eq!(text("a\"b").json_text(), "\"a\\\"b\"");
    assert_eq!(text("a\\b").json_text(), "\"a\\\\b\"");
    assert_eq!(text("a\nb\tc\rd").json_text(), "\"a\\nb\\tc\\rd\"");
    assert_eq!(text("\u{8}\u{c}").json_text(), "\"\\b\\f\"");
    assert_eq!(text("\u{1}\u{1f}").json_text(), "\"\\u0001\\u001f\"");
}

#[test]
fn json_text_of_containers_is_compact() {
    let v = obj(vec![
        ("a", Value::Int(1)),
        ("b", Value::Array(vec![Value::Bool(true), Value::Null, text("x")])),
    ]);
    assert_eq!(v.json_text(), "{\"a\":1,\"b\":[true,null,\"x\"]}");
    assert_eq!(Value::Array(vec![]).json_text(), "[]");
    assert_eq!(obj(vec![]).json_text(), "{}");
}

#[test]
fn to_text_renders_strings_unquoted() {
    assert_eq!(text("Danilo").to_text(), "Danilo");
    assert_eq!(Value::Int(36).to_text(), "36");
    assert_eq!(Value::Null.to_text(), "null");
    assert_eq!(obj(vec![("a", Value::Int(1))]).to_text(), "{\"a\":1}");
}

#[test]
fn get_key_finds_first_match() {
    let v = obj(vec![("a", Value::Int(1)), ("b", Value::Int(2))]);
    assert_eq!(v.get_key("b"), Some(&Value::Int(2)));
    assert_eq!(v.get_key("c"), None);
    assert_eq!(Value::Null.get_key("a"), None);
}

#[test]
fn add_keeps_existing_scalars() {
    let mut v = Value::Int(1);
    v.add_recursive(Value::Int(2));
    assert_eq!(v, Value::Int(1));

    let mut v = text("keep");
    v.add_recursive(Value::Int(2));
    assert_eq!(v, text("keep"));
}

#[test]
fn add_unions_objects_existing_wins() {
    let mut v = obj(vec![("name", text("Danilo")), ("age", Value::Int(36))]);
    v.add_recursive(obj(vec![("age", Value::Int(99)), ("city", text("Rome"))]));
    assert_eq!(
        v,
        obj(vec![
            ("name", text("Danilo")),
            ("age", Value::Int(36)),
            ("city", text("Rome")),
        ])
    );
}

#[test]
fn add_concatenates_arrays() {
    let mut v = Value::Array(vec![Value::Int(1), Value::Int(2)]);
    v.add_recursive(Value::Array(vec![Value::Int(3)]));
    assert_eq!(
        v,
        Value::Array(vec![Value::Int(1), Value::Int(2), Value::Int(3)])
    );
}

#[test]
fn add_replaces_on_type_mismatch() {
    let mut v = obj(vec![("a", Value::Int(1))]);
    v.add_recursive(Value::Int(7));
    assert_eq!(v, Value::Int(7));

    let mut v = Value::Array(vec![Value::Int(1)]);
    v.add_recursive(obj(vec![("a", Value::Int(1))]));
    assert_eq!(v, obj(vec![("a", Value::Int(1))]));
}

#[test]
fn add_merges_nested_objects() {
    let mut v = obj(vec![("outer", obj(vec![("x", Value::Int(1))]))]);
    v.add_recursive(obj(vec![(
        "outer",
        obj(vec![("x", Value::Int(9)), ("y", Value::Int(2))]),
    )]));
    assert_eq!(
        v,
        obj(vec![("outer", obj(vec![("x", Value::Int(1)), ("y", Value::Int(2))]))])
    );
}

#[test]
fn override_replaces_scalars() {
    let mut v = Value::Int(1);
    v.override_recursive(Value::Int(2));
    assert_eq!(v, Value::Int(2));
}

#[test]
fn override_unions_objects_incoming_wins() {
    let mut v = obj(vec![("name", text("Danilo")), ("age", Value::Int(36))]);
    v.override_recursive(obj(vec![("age", Value::Int(99)), ("city", text("Rome"))]));
    assert_eq!(
        v,
        obj(vec![
            ("name", text("Danilo")),
            ("age", Value::Int(99)),
            ("city", text("Rome")),
        ])
    );
}

#[test]
fn override_merges_arrays_by_index() {
    let mut v = Value::Array(vec![Value::Int(1), Value::Int(2), Value::Int(3)]);
    v.override_recursive(Value::Array(vec![Value::Int(9)]));
    assert_eq!(
        v,
        Value::Array(vec![Value::Int(9), Value::Int(2), Value::Int(3)])
    );

    let mut v = Value::Array(vec![Value::Int(1)]);
    v.override_recursive(Value::Array(vec![Value::Int(9), Value::Int(8)]));
    assert_eq!(v, Value::Array(vec![Value::Int(9), Value::Int(8)]));
}

#[test]
fn duplicate_is_deep_equality() {
    let v = obj(vec![
        ("a", Value::Array(vec![Value::Int(1), text("x")])),
        ("b", obj(vec![("c", Value::Null)])),
    ]);
    assert_eq!(v.duplicate(), v);
}
