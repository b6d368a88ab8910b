use json_template::{Context, Deserializer, Error, NoCustom, Placeholder, ResolverFn, Value,
    DEFAULT_FUEL};

fn obj(fields: Vec<(&str, Value)>) -> Value {
    Value::Object(fields.into_iter().map(|(k, v)| (k.to_string(), v)).collect())
}

fn text(s: &str) -> Value {
    Value::Text(s.to_string())
}

#[test]
fn data_chain() {
    let document = obj(vec![
        ("my", text("{name}")),
        ("name", text("Danilo")),
        ("is", text("{name}")),
    ]);
    let context = Context::new();
    let resolved = Deserializer::new()
        .resolve(&document, &context, DEFAULT_FUEL)
        .expect("Failed to deserialize.");
    assert_eq!(
        resolved,
        obj(vec![
            ("my", text("Danilo")),
            ("name", text("Danilo")),
            ("is", text("Danilo")),
        ])
    );
}

#[test]
fn already_resolved_value_is_unchanged() {
    let document = obj(vec![
        ("name", text("Danilo")),
        ("age", Value::Int(36)),
        ("tags", Value::Array(vec![text("a"), Value::Bool(true), Value::Null])),
    ]);
    let expected = document.duplicate();
    let context = Context::new();
    let resolved = Deserializer::new()
        .resolve(&document, &context, DEFAULT_FUEL)
        .expect("Failed to deserialize.");
    assert_eq!(resolved, expected);
}

#[test]
fn whole_string_substitution_preserves_type() {
    let context = Context::new().with_data(obj(vec![("n", Value::Int(5))]));
    let deserializer = Deserializer::new();

    let document = obj(vec![("x", text("{n}"))]);
    let resolved = deserializer
        .resolve(&document, &context, DEFAULT_FUEL)
        .expect("Failed to deserialize.");
    assert_eq!(resolved, obj(vec![("x", Value::Int(5))]));

    let document = obj(vec![("x", text("age={n}"))]);
    let resolved = deserializer
        .resolve(&document, &context, DEFAULT_FUEL)
        .expect("Failed to deserialize.");
    assert_eq!(resolved, obj(vec![("x", text("age=5"))]));
}

#[test]
fn data_lookup_falls_back_to_current_document() {
    let document = obj(vec![
        ("greeting", text("hello {person.name}")),
        ("person", obj(vec![("name", text("Danilo"))])),
    ]);
    let context = Context::new();
    let resolved = Deserializer::new()
        .resolve(&document, &context, DEFAULT_FUEL)
        .expect("Failed to deserialize.");
    assert_eq!(
        resolved,
        obj(vec![
            ("greeting", text("hello Danilo")),
            ("person", obj(vec![("name", text("Danilo"))])),
        ])
    );
}

#[test]
fn chained_placeholders_resolve_transitively() {
    let context = Context::new().with_data(obj(vec![
        ("a", text("{b}")),
        ("b", text("Danilo")),
    ]));
    let document = obj(vec![("who", text("{a}"))]);
    let resolved = Deserializer::new()
        .resolve(&document, &context, DEFAULT_FUEL)
        .expect("Failed to deserialize.");
    assert_eq!(resolved, obj(vec![("who", text("Danilo"))]));
}

#[test]
fn string_function_renders_text() {
    let context = Context::new().with_data(obj(vec![("age", Value::Int(36))]));
    let document = obj(vec![("age_str", text("{string:age}"))]);
    let resolved = Deserializer::new()
        .resolve(&document, &context, DEFAULT_FUEL)
        .expect("Failed to deserialize.");
    assert_eq!(resolved, obj(vec![("age_str", text("36"))]));
}

#[test]
fn textual_substitution_of_several_placeholders() {
    let context = Context::new().with_data(obj(vec![
        ("name", text("Danilo")),
        ("age", Value::Int(36)),
    ]));
    let document = obj(vec![("info", text("{name} is {age} years old."))]);
    let resolved = Deserializer::new()
        .resolve(&document, &context, DEFAULT_FUEL)
        .expect("Failed to deserialize.");
    assert_eq!(resolved, obj(vec![("info", text("Danilo is 36 years old."))]));
}

#[test]
fn compose_function() {
    let context = Context::new().with_data(obj(vec![
        ("a", obj(vec![("name", text("Danilo"))])),
        ("b", obj(vec![("age", Value::Int(36))])),
    ]));
    let document = text("{compose:{a},{b}}");
    let resolved = Deserializer::new()
        .resolve(&document, &context, DEFAULT_FUEL)
        .expect("Failed to deserialize.");
    assert_eq!(
        resolved,
        obj(vec![("name", text("Danilo")), ("age", Value::Int(36))])
    );
}

#[test]
fn file_placeholder_requires_directory() {
    let context = Context::new();
    let document = text("{file:data.json}");
    let result = Deserializer::new().resolve(&document, &context, DEFAULT_FUEL);
    assert_eq!(result, Err(Error::NoDirectory));
}

#[test]
fn file_placeholder_resolves_loaded_document() {
    let fragment = obj(vec![("name", text("Danilo")), ("age", Value::Int(36))]);
    let context = Context::new()
        .with_directory(Some("base".to_string()))
        .with_file("base/data.json".to_string(), fragment);
    let document = text("{file:data.json}");
    let resolved = Deserializer::new()
        .resolve(&document, &context, DEFAULT_FUEL)
        .expect("Failed to deserialize.");
    assert_eq!(
        resolved,
        obj(vec![("name", text("Danilo")), ("age", Value::Int(36))])
    );
}

#[test]
fn file_placeholder_reports_missing_file() {
    let context = Context::new().with_directory(Some("base".to_string()));
    let document = text("{file:data.json}");
    let result = Deserializer::new().resolve(&document, &context, DEFAULT_FUEL);
    assert_eq!(result, Err(Error::FileUnavailable("base/data.json".to_string())));
}

#[test]
fn nested_file_placeholders_use_file_parent_directory() {
    let inner = obj(vec![("name", text("Danilo"))]);
    let outer = text("{file:sub/inner.json}");
    let context = Context::new()
        .with_directory(Some("base".to_string()))
        .with_file("base/outer.json".to_string(), outer)
        .with_file("base/sub/inner.json".to_string(), inner);
    let document = text("{file:outer.json}");
    let resolved = Deserializer::new()
        .resolve(&document, &context, DEFAULT_FUEL)
        .expect("Failed to deserialize.");
    assert_eq!(resolved, obj(vec![("name", text("Danilo"))]));
}

#[test]
fn unknown_function_tag_fails() {
    let context = Context::new();
    let document = text("{nope:x}");
    let result = Deserializer::new().resolve(&document, &context, DEFAULT_FUEL);
    assert_eq!(result, Err(Error::FunctionNotFound("nope".to_string())));
}

#[test]
fn missing_path_fails() {
    let context = Context::new();
    let document = obj(vec![("x", text("{missing}"))]);
    let result = Deserializer::new().resolve(&document, &context, DEFAULT_FUEL);
    assert_eq!(result, Err(Error::PathNotFound("missing".to_string())));
}

#[test]
fn placeholder_cycle_exhausts_depth() {
    let document = obj(vec![("a", text("{b}")), ("b", text("{a}"))]);
    let context = Context::new();
    let result = Deserializer::new().resolve(&document, &context, 50);
    assert_eq!(result, Err(Error::DepthExceeded));
}

struct TimeFn;

impl ResolverFn for TimeFn {
    fn call(&self, name: &str, placeholder: &Placeholder) -> Result<Value, Error> {
        assert_eq!(name, "time");
        let seconds: i64 = placeholder
            .path()
            .str()
            .parse()
            .map_err(|_| Error::Message("bad seconds".to_string()))?;
        Ok(Value::Object(vec![
            ("secs".to_string(), Value::Int(seconds)),
            ("nanos".to_string(), Value::Int(0)),
        ]))
    }
}

#[test]
fn custom_function() {
    let value = obj(vec![("duration", text("{time:5}"))]);
    let context = Context::new().with_function("time");
    let resolved = Deserializer::new()
        .resolve_with_context(&value, &context, &TimeFn, DEFAULT_FUEL)
        .expect("Failed to deserialize");
    assert_eq!(
        resolved,
        obj(vec![(
            "duration",
            obj(vec![("secs", Value::Int(5)), ("nanos", Value::Int(0))])
        )])
    );
}

#[test]
fn custom_function_error_propagates() {
    let value = obj(vec![("duration", text("{time:abc}"))]);
    let context = Context::new().with_function("time");
    let result = Deserializer::new().resolve_with_context(&value, &context, &TimeFn, DEFAULT_FUEL);
    assert_eq!(result, Err(Error::Message("bad seconds".to_string())));
}

#[test]
fn placeholder_segment_traverses_into_fragment() {
    let fragment = obj(vec![("data", obj(vec![("name", text("Danilo"))]))]);
    let context = Context::new()
        .with_directory(Some("base".to_string()))
        .with_file("base/f.json".to_string(), fragment);
    let document = text("{{file:f.json}.data}");
    let resolved = Deserializer::new()
        .resolve(&document, &context, DEFAULT_FUEL)
        .expect("Failed to deserialize.");
    assert_eq!(resolved, obj(vec![("name", text("Danilo"))]));
}

#[test]
fn failing_placeholder_fails_the_whole_string() {
    let context = Context::new().with_data(obj(vec![("name", text("Danilo"))]));
    let document = obj(vec![("x", text("{name} and {missing}"))]);
    let result = Deserializer::new().resolve(&document, &context, DEFAULT_FUEL);
    assert_eq!(result, Err(Error::PathNotFound("missing".to_string())));
}

#[test]
fn registry_can_be_overridden() {
    // Re-registering a built-in name dispatches it to the custom resolver.
    let mut context = Context::new().with_data(obj(vec![("age", Value::Int(36))]));
    context.set_function("string");
    let document = text("{string:5}");
    let resolved = Deserializer::new()
        .resolve_with_context(&document, &context, &TimeFn2, DEFAULT_FUEL)
        .expect("Failed to deserialize");
    assert_eq!(resolved, Value::Int(5));
}

struct TimeFn2;

impl ResolverFn for TimeFn2 {
    fn call(&self, _name: &str, placeholder: &Placeholder) -> Result<Value, Error> {
        let n: i64 = placeholder
            .path()
            .str()
            .parse()
            .map_err(|_| Error::Message("bad number".to_string()))?;
        Ok(Value::Int(n))
    }
}

#[test]
fn no_custom_resolver_rejects_every_name() {
    let context = Context::new().with_function("zap");
    let document = text("{zap:1}");
    let result = Deserializer::new().resolve_with_context(&document, &context, &NoCustom, 100);
    assert_eq!(result, Err(Error::FunctionNotFound("zap".to_string())));
}

#[test]
fn whole_string_substitution_can_produce_objects() {
    let context = Context::new().with_data(obj(vec![(
        "person",
        obj(vec![("name", text("Danilo"))]),
    )]));
    let document = obj(vec![("who", text("{person}"))]);
    let resolved = Deserializer::new()
        .resolve(&document, &context, DEFAULT_FUEL)
        .expect("Failed to deserialize.");
    assert_eq!(
        resolved,
        obj(vec![("who", obj(vec![("name", text("Danilo"))]))])
    );
}
