use velotype::json::{
    deep_copy, object_without_empty_values,    filter_json_by_schema, is_empty_json_value, merge_non_empty_json_values,
    prune_empty_json_values, JsonValue,
};

fn s(v: &str) -> JsonValue {
    JsonValue::Str(v.to_string())
}

fn n(v: &str) -> JsonValue {
    JsonValue::Number(v.to_string())
}

fn obj(entries: Vec<(&str, JsonValue)>) -> JsonValue {
    JsonValue::Object(entries.into_iter().map(|(k, v)| (k.to_string(), v)).collect())
}

#[test]
fn empty_values_are_pruned_recursively() {
    let mut value = obj(vec![
        ("name", s("")),
        ("colors", obj(vec![("text_default", JsonValue::Null), ("selection", s("#fff"))])),
        ("items", JsonValue::Array(vec![s(""), JsonValue::Null])),
    ]);
    assert!(!prune_empty_json_values(&mut value));
    assert_eq!(value, obj(vec![("colors", obj(vec![("selection", s("#fff"))]))]));
}

#[test]
fn pruning_reports_emptiness() {
    let mut value = JsonValue::Array(vec![s("  "), obj(vec![("a", JsonValue::Null)])]);
    assert!(prune_empty_json_values(&mut value));
    assert_eq!(value, JsonValue::Array(vec![]));
    let mut value = n("0");
    assert!(!prune_empty_json_values(&mut value));
    assert!(is_empty_json_value(&obj(vec![("a", s(" "))])));
    assert!(!is_empty_json_value(&JsonValue::Bool(false)));
}

#[test]
fn merge_overlays_non_empty_values() {
    let mut base = obj(vec![("a", n("1")), ("b", obj(vec![("c", n("2")), ("d", n("3"))]))]);
    let patch = obj(vec![
        ("a", JsonValue::Null),
        ("b", obj(vec![("c", n("9"))])),
        ("e", s("new")),
    ]);
    merge_non_empty_json_values(&mut base, &patch);
    assert_eq!(
        base,
        obj(vec![
            ("a", n("1")),
            ("b", obj(vec![("c", n("9")), ("d", n("3"))])),
            ("e", s("new")),
        ])
    );
    let before = deep_copy(&base);
    merge_non_empty_json_values(&mut base, &obj(vec![("x", JsonValue::Null)]));
    assert_eq!(base, before);
    merge_non_empty_json_values(&mut base, &n("5"));
    assert_eq!(base, n("5"));
}

#[test]
fn filter_keeps_only_schema_keys() {
    let schema = obj(vec![("a", obj(vec![("b", n("0"))])), ("c", n("0"))]);
    let value = obj(vec![
        ("a", obj(vec![("b", n("1")), ("z", n("2"))])),
        ("y", n("3")),
        ("c", obj(vec![("deep", n("4"))])),
    ]);
    assert_eq!(
        filter_json_by_schema(&value, &schema),
        obj(vec![("a", obj(vec![("b", n("1"))])), ("c", obj(vec![("deep", n("4"))]))])
    );
    assert_eq!(filter_json_by_schema(&n("7"), &schema), n("7"));
}

#[test]
fn pruning_twice_changes_nothing() {
    let mut value = obj(vec![
        ("a", JsonValue::Array(vec![s(" "), obj(vec![("b", s("x")), ("c", JsonValue::Null)])])),
        ("d", s("")),
    ]);
    let first_empty = prune_empty_json_values(&mut value);
    let once = deep_copy(&value);
    let second_empty = prune_empty_json_values(&mut value);
    assert_eq!(value, once);
    assert_eq!(first_empty, second_empty);
    assert_eq!(first_empty, is_empty_json_value(&value));
}

#[test]
fn object_entries_without_empty_values() {
    let entries = vec![
        ("a".to_string(), s(" ")),
        ("b".to_string(), obj(vec![("c", JsonValue::Null), ("d", n("1"))])),
    ];
    assert_eq!(
        object_without_empty_values(entries),
        vec![("b".to_string(), obj(vec![("d", n("1"))]))]
    );
}
