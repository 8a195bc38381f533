use derrik::document::{Document, Field};
use derrik::matcher::{document_matches, first_matching_field, ConfigError, FilterSpec, Operator};
use derrik::pipeline::{filter_lines, filter_sources, line_matches};
use derrik::text::contains_text;

fn spec(fields: &[&str], operator: Operator, needle: &str) -> FilterSpec {
    FilterSpec {
        fields: fields.iter().map(|f| f.to_string()).collect(),
        operator,
        needle: needle.to_string(),
    }
}

fn source(lines: &[&str]) -> Vec<String> {
    lines.iter().map(|l| l.to_string()).collect()
}

fn run(spec: &FilterSpec, sources: &[&[&str]]) -> String {
    let sources: Vec<Vec<String>> = sources.iter().map(|s| source(s)).collect();
    let mut text = String::new();
    for line in filter_sources(spec, &sources) {
        text.push_str(&line);
        text.push('\n');
    }
    text
}

#[test]
fn test_filter_contains() {
    let json_content = r#"{"name": "John Doe", "age": 30}"#;
    let output_content = run(&spec(&["name"], Operator::Contains, "John"), &[&[json_content]]);
    assert!(output_content.contains(json_content));

    let output_content = run(&spec(&["name"], Operator::Contains, "john"), &[&[json_content]]);
    assert!(output_content.is_empty());
}

#[test]
fn test_filter_icontains() {
    let json_content = r#"{"name": "John Doe", "age": 30}"#;
    let output_content = run(&spec(&["name"], Operator::Icontains, "john"), &[&[json_content]]);
    assert!(output_content.contains(json_content));
}

#[test]
fn test_filter_no_match() {
    let json_content = r#"{"name": "John Doe", "age": 30}"#;
    let output_content = run(&spec(&["name"], Operator::Contains, "Alice"), &[&[json_content]]);
    assert!(output_content.is_empty());
}

#[test]
fn test_filter_multiple_fields() {
    let json_content = r#"{"name": "John Doe", "description": "Software Engineer"}"#;
    let output_content = run(
        &spec(&["name", "description"], Operator::Contains, "Engineer"),
        &[&[json_content]],
    );
    assert!(output_content.contains(json_content));
}

#[test]
fn test_filter_multiple_files() {
    let json_content1 = r#"{"name": "John Doe", "age": 30}"#;
    let json_content2 = r#"{"name": "Jane Doe", "age": 25}"#;
    let output_content = run(
        &spec(&["name"], Operator::Contains, "Doe"),
        &[&[json_content1], &[json_content2]],
    );
    assert!(output_content.contains(json_content1));
    assert!(output_content.contains(json_content2));
}

#[test]
fn test_filter_invalid_json() {
    let invalid_json = r#"{"name": "John Doe", age: 30}"#;
    let output_content = run(&spec(&["name"], Operator::Contains, "John"), &[&[invalid_json]]);
    assert!(output_content.is_empty());
}

#[test]
fn compact_line_scenario() {
    let line = r#"{"name":"John Doe","age":30}"#;
    assert!(line_matches(line, &spec(&["name"], Operator::Contains, "John")));
    assert!(!line_matches(line, &spec(&["name"], Operator::Contains, "john")));
    assert!(line_matches(line, &spec(&["name"], Operator::Icontains, "john")));
}

#[test]
fn icontains_does_not_fold_needle() {
    let line = r#"{"name":"John Doe"}"#;
    assert!(!line_matches(line, &spec(&["name"], Operator::Icontains, "JOHN")));
    assert!(!line_matches(line, &spec(&["name"], Operator::Icontains, "John")));
    assert!(line_matches(line, &spec(&["name"], Operator::Icontains, "doe")));
}

#[test]
fn haystack_is_json_rendering() {
    let line = r#"{"name":"John","age":30,"ok":true,"gone":null}"#;
    assert!(line_matches(line, &spec(&["name"], Operator::Contains, "\"John\"")));
    assert!(line_matches(line, &spec(&["age"], Operator::Contains, "30")));
    assert!(line_matches(line, &spec(&["ok"], Operator::Contains, "true")));
    assert!(line_matches(line, &spec(&["gone"], Operator::Contains, "null")));
    assert!(!line_matches(line, &spec(&["age"], Operator::Contains, "31")));
}

#[test]
fn icontains_folds_rendering() {
    let line = r#"{"ok":"YES"}"#;
    assert!(line_matches(line, &spec(&["ok"], Operator::Icontains, "yes")));
    assert!(!line_matches(line, &spec(&["ok"], Operator::Contains, "yes")));
}

#[test]
fn missing_field_does_not_stop_others() {
    let line = r#"{"b":"hit"}"#;
    assert!(line_matches(line, &spec(&["a", "b"], Operator::Contains, "hit")));
    assert!(!line_matches(line, &spec(&["a"], Operator::Contains, "hit")));
}

#[test]
fn composite_fields_never_match() {
    let line = r#"{"tags":["alpha","beta"],"meta":{"k":"alpha"}}"#;
    assert!(!line_matches(line, &spec(&["tags", "meta"], Operator::Contains, "alpha")));
}

#[test]
fn non_object_records_never_match() {
    assert!(!line_matches(r#""name""#, &spec(&["name"], Operator::Contains, "name")));
    assert!(!line_matches("[1,2]", &spec(&["name"], Operator::Contains, "1")));
    assert!(!line_matches("", &spec(&["name"], Operator::Contains, "x")));
}

#[test]
fn order_across_sources() {
    let s = spec(&["v"], Operator::Contains, "yes");
    let out = run(
        &s,
        &[
            &[r#"{"v":"yes 1"}"#, r#"{"v":"no"}"#],
            &[r#"{"v":"no"}"#, r#"{"v":"yes 2"}"#, r#"{"v":"yes 3"}"#],
        ],
    );
    assert_eq!(out, "{\"v\":\"yes 1\"}\n{\"v\":\"yes 2\"}\n{\"v\":\"yes 3\"}\n");
}

#[test]
fn two_files_one_match_each() {
    let s = spec(&["name"], Operator::Contains, "Doe");
    let out = run(
        &s,
        &[
            &[r#"{"name":"John Doe"}"#, r#"{"name":"Alice"}"#],
            &[r#"{"name":"Bob"}"#, r#"{"name":"Jane Doe"}"#],
        ],
    );
    assert_eq!(out, "{\"name\":\"John Doe\"}\n{\"name\":\"Jane Doe\"}\n");
}

#[test]
fn filtering_is_idempotent() {
    let s = spec(&["name"], Operator::Icontains, "doe");
    let input = source(&[r#"{"name":"John DOE"}"#, "not json", r#"{"name":"Alice"}"#, r#"{"name": "doe"}"#]);
    let once = filter_sources(&s, &vec![input]);
    let twice = filter_sources(&s, &vec![once.clone()]);
    assert_eq!(once, twice);
    assert_eq!(once.len(), 2);
}

#[test]
fn malformed_lines_are_dropped() {
    let s = spec(&["name"], Operator::Contains, "");
    let mut out = Vec::new();
    filter_lines(&s, &source(&[r#"{"name":"x""#, r#"{"name":"x"}"#, "{name:1}"]), &mut out);
    assert_eq!(out, vec![r#"{"name":"x"}"#.to_string()]);
}

#[test]
fn lines_are_kept_verbatim() {
    let line = r#"{ "name" :   "John",  "n": 1.50 }"#;
    let s = spec(&["name"], Operator::Contains, "John");
    let mut out = vec!["earlier".to_string()];
    filter_lines(&s, &source(&[line]), &mut out);
    assert_eq!(out, vec!["earlier".to_string(), line.to_string()]);
}

#[test]
fn substring_search() {
    assert!(contains_text("hello world", "o w"));
    assert!(contains_text("hello", ""));
    assert!(contains_text("", ""));
    assert!(!contains_text("", "a"));
    assert!(!contains_text("abc", "abcd"));
    assert!(contains_text("abc", "abc"));
    assert!(contains_text("héllo", "él"));
    assert!(!contains_text("aab", "ba"));
}

#[test]
fn config_errors() {
    assert_eq!(
        FilterSpec::new(vec![], Operator::Contains, "x".to_string()).unwrap_err(),
        ConfigError::NoFields
    );
    assert_eq!(
        FilterSpec::new(vec!["a".to_string()], Operator::Contains, String::new()).unwrap_err(),
        ConfigError::EmptyNeedle
    );
    let s = FilterSpec::new(vec!["a".to_string()], Operator::Icontains, "x".to_string()).unwrap();
    assert_eq!(s.operator, Operator::Icontains);
    assert_eq!(s.needle, "x");
}

#[test]
fn first_listed_field_wins() {
    let field = |key: &str, composite: bool, text: &str| Field {
        key: key.to_string(),
        composite,
        text: text.to_string(),
    };
    let doc = Document {
        object: true,
        fields: vec![field("a", false, "\"x\""), field("b", true, "[\"x\"]"), field("c", false, "\"xy\"")],
    };
    let s = spec(&["z", "b", "c", "a"], Operator::Contains, "x");
    assert_eq!(first_matching_field(&doc, &s), Some(2));
    assert!(document_matches(&doc, &s));
    let not_object = Document { object: false, fields: vec![] };
    assert_eq!(first_matching_field(&not_object, &s), None);
}
