use json_template::{Path, Placeholder};

#[test]
fn placeholders() {
    let placeholder = "{time:5}";
    let placeholder = Placeholder::from_str(placeholder).expect("Failed to create placeholder.");
    assert_eq!(placeholder.value, "{time:5}");
    assert_eq!(placeholder.type_, Some("time".into()));

    let placeholder = "{{time:5}}";
    let placeholder = Placeholder::from_str(placeholder).expect("Failed to create placeholder.");
    assert_eq!(placeholder.value, "{{time:5}}");
    assert_eq!(placeholder.type_, None);

    let placeholders = "   {time}   {time:3}    ";
    let placeholders = Placeholder::placeholders(placeholders);
    assert_eq!(placeholders.len(), 2);
    assert_eq!(placeholders[0].value, "{time}");
    assert_eq!(placeholders[1].value, "{time:3}");

    let recursive_placeholders = "{time:{time:5}}  {time}";
    let recursive_placeholders = Placeholder::placeholders(recursive_placeholders);
    assert_eq!(recursive_placeholders.len(), 2);
    assert_eq!(recursive_placeholders[0].value, "{time:{time:5}}");
    assert_eq!(recursive_placeholders[1].value, "{time}");

    let placeholders_path = "{{file:data--self-referencing.json}.data}";
    let placeholders_path = Placeholder::placeholders(placeholders_path);
    assert_eq!(placeholders_path.len(), 1);
    assert_eq!(placeholders_path[0].value, "{{file:data--self-referencing.json}.data}");
}

#[test]
fn path_segments() {
    let path = Path::new("data");
    let segments = path.segments();
    assert_eq!(segments.len(), 1);
}

#[test]
fn segments_respect_brace_depth() {
    let path = Path::new("{time:{time:5}}.value");
    let segments = path.segments();
    assert_eq!(segments.len(), 2);
    assert_eq!(segments[0], "{time:{time:5}}");
    assert_eq!(segments[1], "value");
}

#[test]
fn segments_of_dotted_path() {
    let path = Path::new("a.b.c");
    let segments = path.segments();
    assert_eq!(segments, vec!["a", "b", "c"]);
}

#[test]
fn segments_keep_dots_inside_braces() {
    let path = Path::new("{file:f.json}.field");
    let segments = path.segments();
    assert_eq!(segments, vec!["{file:f.json}", "field"]);
}

#[test]
fn from_str_rejects_unbraced_text() {
    assert!(Placeholder::from_str("time").is_none());
    assert!(Placeholder::from_str("{time").is_none());
    assert!(Placeholder::from_str("time}").is_none());
    assert!(Placeholder::from_str("").is_none());
}

#[test]
fn from_str_tag_needs_top_level_colon() {
    let p = Placeholder::from_str("{time}").expect("placeholder");
    assert_eq!(p.type_, None);

    let p = Placeholder::from_str("{a{b:c}}").expect("placeholder");
    assert_eq!(p.type_, None);

    let p = Placeholder::from_str("{a{b:c}d:e}").expect("placeholder");
    assert_eq!(p.type_, Some("a{b:c}d".into()));
}

#[test]
fn placeholder_path_strips_tag() {
    let p = Placeholder::from_str("{time:5}").expect("placeholder");
    assert_eq!(p.path().str(), "5");

    let p = Placeholder::from_str("{name}").expect("placeholder");
    assert_eq!(p.path().str(), "name");

    let p = Placeholder::from_str("{file:dir/data.json}").expect("placeholder");
    assert_eq!(p.path().str(), "dir/data.json");
}

#[test]
fn placeholders_skip_unbalanced_text() {
    let found = Placeholder::placeholders("no placeholders here");
    assert_eq!(found.len(), 0);

    let found = Placeholder::placeholders("open { but never closed");
    assert_eq!(found.len(), 0);

    let found = Placeholder::placeholders("}{a}");
    assert_eq!(found.len(), 0);
}

#[test]
fn tag_requires_alphanumeric_after_brace() {
    let p = Placeholder::from_str("{!a:x}").expect("placeholder");
    assert_eq!(p.type_, None);
    assert_eq!(p.path().str(), "!a:x");

    let p = Placeholder::from_str("{a:x}").expect("placeholder");
    assert_eq!(p.type_, Some("a".into()));
    assert_eq!(p.path().str(), "x");
}
