use json_diff::{compare_json, compare_values, DiffFormatter, JsonDiff, Value};

fn num(n: i64) -> Value {
    Value::Number(n)
}

fn txt(s: &str) -> Value {
    Value::Text(s.to_string())
}

fn obj(entries: Vec<(&str, Value)>) -> Value {
    Value::Object(entries.into_iter().map(|(k, v)| (k.to_string(), v)).collect())
}

#[test]
fn test_reflexive_nested_value() {
    let v = obj(vec![
        ("name", txt("Alice")),
        ("tags", Value::Array(vec![num(1), num(2), Value::Null])),
        ("inner", obj(vec![("flag", Value::Bool(true))])),
    ]);
    let w = obj(vec![
        ("name", txt("Alice")),
        ("tags", Value::Array(vec![num(1), num(2), Value::Null])),
        ("inner", obj(vec![("flag", Value::Bool(true))])),
    ]);

    assert!(JsonDiff::new().diff(&v, &w).is_empty());
    assert!(JsonDiff::new().ignore_order(true).diff(&v, &w).is_empty());
}

#[test]
fn test_type_mismatch_is_single_modification() {
    let v1 = txt("5");
    let v2 = num(5);

    let diffs = compare_values(&v1, &v2);
    assert_eq!(diffs.len(), 1);
    assert_eq!(format!("{:?}", diffs[0].diff_type), "Modified");
    assert_eq!(diffs[0].path, "");
}

#[test]
fn test_ignore_order_partial_overlap() {
    let v1 = Value::Array(vec![num(1), num(2), num(3)]);
    let v2 = Value::Array(vec![num(3), num(2), num(4)]);

    let diffs = JsonDiff::new().ignore_order(true).diff(&v1, &v2);
    assert_eq!(diffs.len(), 2);
    assert_eq!(diffs[0].path, "[0]");
    assert_eq!(format!("{:?}", diffs[0].diff_type), "Removed");
    assert_eq!(diffs[1].path, "[2]");
    assert_eq!(format!("{:?}", diffs[1].diff_type), "Added");
}

#[test]
fn test_duplicate_keys_compare_against_first() {
    let v = Value::Object(vec![
        ("a".to_string(), num(1)),
        ("a".to_string(), num(2)),
    ]);
    let w = Value::Object(vec![
        ("a".to_string(), num(1)),
        ("a".to_string(), num(2)),
    ]);

    let diffs = compare_values(&v, &w);
    assert_eq!(diffs.len(), 1);
    assert_eq!(diffs[0].path, "a");
    assert_eq!(format!("{:?}", diffs[0].diff_type), "Modified");
}

#[test]
fn test_compact_exact_output() {
    let v1 = obj(vec![("name", txt("Alice"))]);
    let v2 = obj(vec![("name", txt("Bob"))]);

    let diffs = compare_values(&v1, &v2);
    let output = DiffFormatter::new().format_compact(&diffs);
    assert_eq!(
        output,
        "Found 1 difference(s):\n1. Modified at 'name': \"Alice\" -> \"Bob\"\n"
    );
}

#[test]
fn test_compact_empty_sentence() {
    let diffs = compare_values(&Value::Null, &Value::Null);
    let output = DiffFormatter::new().format_compact(&diffs);
    assert_eq!(output, "No differences found");
}

#[test]
fn test_verbose_exact_output() {
    let v1 = obj(vec![("name", txt("Alice"))]);
    let v2 = obj(vec![("name", txt("Bob"))]);

    let diffs = compare_values(&v1, &v2);
    let output = DiffFormatter::new().format(&diffs);
    assert_eq!(output, "~ name: \"Alice\" -> \"Bob\"\n");
}

#[test]
fn test_verbose_without_values() {
    let v1 = obj(vec![("name", txt("Alice"))]);
    let v2 = obj(vec![("name", txt("Bob"))]);

    let diffs = compare_values(&v1, &v2);
    let output = DiffFormatter::new().show_values(false).format(&diffs);
    assert_eq!(output, "~ name: \n");
}

#[test]
fn test_colored_exact_output() {
    let v1 = Value::Array(vec![num(1)]);
    let v2 = Value::Array(vec![num(1), num(7)]);

    let diffs = compare_values(&v1, &v2);
    let output = DiffFormatter::new().format_colored(&diffs);
    assert_eq!(output, "+ [green]: [1] 7\n");
}

#[test]
fn test_negative_number_rendering() {
    let v1 = num(1);
    let v2 = num(-2);

    let diffs = compare_values(&v1, &v2);
    let output = DiffFormatter::new().format(&diffs);
    assert_eq!(output, "~ : 1 -> -2\n");
}

#[test]
fn test_json_summary_counts() {
    let v1 = obj(vec![("a", num(1)), ("b", num(2)), ("c", num(3))]);
    let v2 = obj(vec![("a", num(9)), ("b", num(2)), ("d", num(4))]);

    let diffs = compare_values(&v1, &v2);
    let output = DiffFormatter::new().format_json(&diffs);

    let parsed: serde_json::Value = serde_json::from_str(&output).unwrap();
    let total = parsed["summary"]["total"].as_i64().unwrap();
    let added = parsed["summary"]["added"].as_i64().unwrap();
    let removed = parsed["summary"]["removed"].as_i64().unwrap();
    let modified = parsed["summary"]["modified"].as_i64().unwrap();
    let moved = parsed["summary"]["moved"].as_i64().unwrap();

    assert_eq!(total, diffs.len() as i64);
    assert_eq!(total, added + removed + modified + moved);
    assert_eq!(parsed["diffs"].as_array().unwrap().len() as i64, total);
    assert_eq!(modified, 1);
    assert_eq!(removed, 1);
    assert_eq!(added, 1);
    assert_eq!(moved, 0);
}

#[test]
fn test_json_record_fields() {
    let v1 = obj(vec![("name", txt("Alice"))]);
    let v2 = obj(vec![("name", txt("Bob"))]);

    let diffs = compare_values(&v1, &v2);
    let output = DiffFormatter::new().format_json(&diffs);

    let parsed: serde_json::Value = serde_json::from_str(&output).unwrap();
    let rec = &parsed["diffs"][0];
    assert_eq!(rec["path"].as_str().unwrap(), "name");
    assert_eq!(rec["type"].as_str().unwrap(), "Modified");
    assert_eq!(rec["old_value"].as_str().unwrap(), "Alice");
    assert_eq!(rec["new_value"].as_str().unwrap(), "Bob");
}

#[test]
fn test_display_sentences() {
    let v1 = obj(vec![("a", num(1)), ("b", num(2))]);
    let v2 = obj(vec![("a", num(1))]);

    let diffs = compare_values(&v1, &v2);
    assert_eq!(diffs.len(), 1);
    assert_eq!(diffs[0].display(), "Removed from 'b': 2");
}

#[test]
fn test_parse_error_on_first_document() {
    let result = compare_json("not json", r#"{"a": 1}"#);
    assert!(result.is_err());
}

#[test]
fn test_deeply_indexed_paths() {
    let v1 = obj(vec![("items", Value::Array(vec![num(1), obj(vec![("x", num(2))])]))]);
    let v2 = obj(vec![("items", Value::Array(vec![num(1), obj(vec![("x", num(5))])]))]);

    let diffs = compare_values(&v1, &v2);
    assert_eq!(diffs.len(), 1);
    assert_eq!(diffs[0].path, "items[1].x");
}

#[test]
fn test_builder_configuration() {
    let formatter = DiffFormatter::new().indent("    ").show_values(true);
    let diffs = compare_values(&Value::Bool(true), &Value::Bool(true));
    assert_eq!(formatter.format_compact(&diffs), "No differences found");
}
