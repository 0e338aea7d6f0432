use json_diff::{compare_json, compare_values, DiffFormatter, JsonDiff, Value};

fn num(n: i64) -> Value {
    Value::Number(n)
}

fn txt(s: &str) -> Value {
    Value::Text(s.to_string())
}

fn obj(entries: Vec<(&str, Value)>) -> Value {
    Value::Object(entries.into_iter().map(|(k, v)| (k.to_string(), v)).collect())
}

#[test]
fn test_identical_objects() {
    let json1 = r#"{"name": "Alice", "age": 30}"#;
    let json2 = r#"{"name": "Alice", "age": 30}"#;

    let diffs = compare_json(json1, json2).unwrap();
    assert!(diffs.is_empty());
}

#[test]
fn test_added_field() {
    let json1 = r#"{"name": "Alice"}"#;
    let json2 = r#"{"name": "Alice", "age": 30}"#;

    let diffs = compare_json(json1, json2).unwrap();
    assert_eq!(diffs.len(), 1);
    assert_eq!(diffs[0].path, "age");
    assert_eq!(format!("{:?}", diffs[0].diff_type), "Added");
}

#[test]
fn test_removed_field() {
    let json1 = r#"{"name": "Alice", "age": 30}"#;
    let json2 = r#"{"name": "Alice"}"#;

    let diffs = compare_json(json1, json2).unwrap();
    assert_eq!(diffs.len(), 1);
    assert_eq!(diffs[0].path, "age");
    assert_eq!(format!("{:?}", diffs[0].diff_type), "Removed");
}

#[test]
fn test_modified_field() {
    let json1 = r#"{"name": "Alice", "age": 30}"#;
    let json2 = r#"{"name": "Alice", "age": 31}"#;

    let diffs = compare_json(json1, json2).unwrap();
    assert_eq!(diffs.len(), 1);
    assert_eq!(diffs[0].path, "age");
    assert_eq!(format!("{:?}", diffs[0].diff_type), "Modified");
}

#[test]
fn test_nested_objects() {
    let json1 = r#"{"user": {"name": "Alice", "age": 30}}"#;
    let json2 = r#"{"user": {"name": "Alice", "age": 31}}"#;

    let diffs = compare_json(json1, json2).unwrap();
    assert_eq!(diffs.len(), 1);
    assert_eq!(diffs[0].path, "user.age");
}

#[test]
fn test_arrays() {
    let v1 = Value::Array(vec![num(1), num(2), num(3)]);
    let v2 = Value::Array(vec![num(1), num(2), num(4)]);

    let diffs = compare_values(&v1, &v2);
    assert_eq!(diffs.len(), 1);
    assert_eq!(diffs[0].path, "[2]");
}

#[test]
fn test_array_added_element() {
    let v1 = Value::Array(vec![num(1), num(2), num(3)]);
    let v2 = Value::Array(vec![num(1), num(2), num(3), num(4)]);

    let diffs = compare_values(&v1, &v2);
    assert_eq!(diffs.len(), 1);
    assert_eq!(diffs[0].path, "[3]");
    assert_eq!(format!("{:?}", diffs[0].diff_type), "Added");
}

#[test]
fn test_array_removed_element() {
    let v1 = Value::Array(vec![num(1), num(2), num(3), num(4)]);
    let v2 = Value::Array(vec![num(1), num(2), num(3)]);

    let diffs = compare_values(&v1, &v2);
    assert_eq!(diffs.len(), 1);
    assert_eq!(diffs[0].path, "[3]");
    assert_eq!(format!("{:?}", diffs[0].diff_type), "Removed");
}

#[test]
fn test_arrays_ignore_order() {
    let v1 = Value::Array(vec![num(1), num(2), num(3)]);
    let v2 = Value::Array(vec![num(3), num(2), num(1)]);

    let differ = JsonDiff::new().ignore_order(true);
    let diffs = differ.diff(&v1, &v2);
    assert!(diffs.is_empty());
}

#[test]
fn test_arrays_preserve_order() {
    let v1 = Value::Array(vec![num(1), num(2), num(3)]);
    let v2 = Value::Array(vec![num(3), num(2), num(1)]);

    let differ = JsonDiff::new().ignore_order(false);
    let diffs = differ.diff(&v1, &v2);
    assert!(!diffs.is_empty());
}

#[test]
fn test_complex_json() {
    let json1 = r#"{
            "name": "Alice",
            "age": 30,
            "address": {
                "street": "123 Main St",
                "city": "New York"
            },
            "hobbies": ["reading", "swimming"]
        }"#;

    let json2 = r#"{
            "name": "Alice",
            "age": 31,
            "address": {
                "street": "456 Oak Ave",
                "city": "Boston"
            },
            "hobbies": ["reading", "coding"]
        }"#;

    let diffs = compare_json(json1, json2).unwrap();
    assert!(diffs.len() >= 3);
}

#[test]
fn test_formatter_format() {
    let v1 = obj(vec![("name", txt("Alice")), ("age", num(30))]);
    let v2 = obj(vec![("name", txt("Bob")), ("age", num(31))]);

    let diffs = compare_values(&v1, &v2);
    let formatter = DiffFormatter::new();
    let output = formatter.format(&diffs);

    assert!(output.contains("name"));
    assert!(output.contains("age"));
}

#[test]
fn test_formatter_compact() {
    let v1 = obj(vec![("name", txt("Alice"))]);
    let v2 = obj(vec![("name", txt("Bob"))]);

    let diffs = compare_values(&v1, &v2);
    let formatter = DiffFormatter::new();
    let output = formatter.format_compact(&diffs);

    assert!(output.contains("Found 1 difference"));
}

#[test]
fn test_formatter_json() {
    let v1 = obj(vec![("name", txt("Alice"))]);
    let v2 = obj(vec![("name", txt("Bob"))]);

    let diffs = compare_values(&v1, &v2);
    let formatter = DiffFormatter::new();
    let output = formatter.format_json(&diffs);

    assert!(output.contains("diffs"));
    assert!(output.contains("summary"));
}

#[test]
fn test_null_values() {
    let v1 = Value::Null;
    let v2 = Value::Null;

    let diffs = compare_values(&v1, &v2);
    assert!(diffs.is_empty());
}

#[test]
fn test_boolean_values() {
    let v1 = Value::Bool(true);
    let v2 = Value::Bool(false);

    let diffs = compare_values(&v1, &v2);
    assert_eq!(diffs.len(), 1);
    assert_eq!(format!("{:?}", diffs[0].diff_type), "Modified");
}

#[test]
fn test_empty_objects() {
    let v1 = obj(vec![]);
    let v2 = obj(vec![]);

    let diffs = compare_values(&v1, &v2);
    assert!(diffs.is_empty());
}

#[test]
fn test_empty_arrays() {
    let v1 = Value::Array(vec![]);
    let v2 = Value::Array(vec![]);

    let diffs = compare_values(&v1, &v2);
    assert!(diffs.is_empty());
}

#[test]
fn test_invalid_json() {
    let json1 = r#"{"name": "Alice"}"#;
    let json2 = r#"invalid json"#;

    let result = compare_json(json1, json2);
    assert!(result.is_err());
}
