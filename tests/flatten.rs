use fblog::flatten::{flatten_json, push_decimal, FlatRecord};
use fblog::json::{get_field, JsonValue};
use fblog::log::{get_string_value, get_string_value_or_default};

fn text(s: &str) -> JsonValue {
    JsonValue::Str(s.to_string())
}

fn pairs(r: &FlatRecord) -> Vec<(String, String)> {
    r.entries().clone()
}

fn owned(v: &[(&str, &str)]) -> Vec<(String, String)> {
    v.iter().map(|(a, b)| (a.to_string(), b.to_string())).collect()
}

#[test]
fn flat_object_stays_as_it_is() {
    let obj = vec![("a".to_string(), text("1"))];
    assert_eq!(pairs(&flatten_json(&obj, "")), owned(&[("a", "1")]));
}

#[test]
fn array_indices_start_at_one() {
    let obj = vec![("arr".to_string(), JsonValue::Array(vec![text("a"), text("b")]))];
    assert_eq!(pairs(&flatten_json(&obj, "")), owned(&[("arr[1]", "a"), ("arr[2]", "b")]));
}

#[test]
fn null_gives_no_entry() {
    let obj = vec![("a".to_string(), JsonValue::Null)];
    assert_eq!(flatten_json(&obj, "").len(), 0);
    let obj = vec![("a".to_string(), JsonValue::Array(vec![JsonValue::Null, text("x")]))];
    assert_eq!(pairs(&flatten_json(&obj, "")), owned(&[("a[2]", "x")]));
}

#[test]
fn empty_object_flattens_to_nothing() {
    let obj: Vec<(String, JsonValue)> = vec![];
    assert_eq!(flatten_json(&obj, "").len(), 0);
}

#[test]
fn nested_values_get_path_keys_in_sorted_order() {
    let obj = vec![
        ("z".to_string(), JsonValue::Bool(false)),
        (
            "o".to_string(),
            JsonValue::Object(vec![
                ("n".to_string(), JsonValue::Number("1.5".to_string())),
                ("deep".to_string(), JsonValue::Object(vec![("x".to_string(), JsonValue::Bool(true))])),
            ]),
        ),
        (
            "m".to_string(),
            JsonValue::Array(vec![
                JsonValue::Array(vec![text("p"), text("q")]),
                JsonValue::Object(vec![("k".to_string(), text("v"))]),
            ]),
        ),
    ];
    assert_eq!(
        pairs(&flatten_json(&obj, "")),
        owned(&[
            ("m[1][1]", "p"),
            ("m[1][2]", "q"),
            ("m[2] > k", "v"),
            ("o > deep > x", "true"),
            ("o > n", "1.5"),
            ("z", "false"),
        ])
    );
}

#[test]
fn prefix_is_written_before_each_key() {
    let obj = vec![("a".to_string(), text("1"))];
    assert_eq!(pairs(&flatten_json(&obj, "p.")), owned(&[("p.a", "1")]));
}

#[test]
fn colliding_paths_keep_the_later_value() {
    let obj = vec![
        ("a".to_string(), JsonValue::Object(vec![("b".to_string(), text("nested"))])),
        ("a > b".to_string(), text("literal")),
    ];
    assert_eq!(pairs(&flatten_json(&obj, "")), owned(&[("a > b", "literal")]));
}

#[test]
fn tenth_array_element_has_two_digits() {
    let items: Vec<JsonValue> = (0..10).map(|i| JsonValue::Number(i.to_string())).collect();
    let obj = vec![("a".to_string(), JsonValue::Array(items))];
    let flat = flatten_json(&obj, "");
    assert_eq!(flat.get("a[10]"), Some("9".to_string()));
    assert_eq!(flat.get("a[1]"), Some("0".to_string()));
}

#[test]
fn insert_replaces_and_keeps_order() {
    let mut r = FlatRecord::new();
    r.insert("b".to_string(), "1".to_string());
    r.insert("a".to_string(), "2".to_string());
    r.insert("b".to_string(), "3".to_string());
    assert_eq!(pairs(&r), owned(&[("a", "2"), ("b", "3")]));
    assert_eq!(r.get("b"), Some("3".to_string()));
    assert_eq!(r.get("c"), None);
}

#[test]
fn decimal_text() {
    let mut s = String::new();
    push_decimal(&mut s, 0);
    s.push(' ');
    push_decimal(&mut s, 1203);
    assert_eq!(s, "0 1203");
}

#[test]
fn first_present_key_is_resolved() {
    let obj = vec![("msg".to_string(), text("x")), ("message".to_string(), text("y"))];
    let flat = flatten_json(&obj, "");
    let keys = vec!["msg".to_string(), "message".to_string()];
    assert_eq!(get_string_value(&flat, &keys), Some("x".to_string()));
    let keys = vec!["nope".to_string(), "message".to_string()];
    assert_eq!(get_string_value(&flat, &keys), Some("y".to_string()));
    let keys = vec!["nope".to_string()];
    assert_eq!(get_string_value(&flat, &keys), None);
    assert_eq!(get_string_value_or_default(&flat, &keys, "unknown"), "unknown");
}

#[test]
fn field_lookup_takes_first_match() {
    let obj = vec![("a".to_string(), text("1")), ("b".to_string(), text("2"))];
    assert!(matches!(get_field(&obj, "b"), Some(JsonValue::Str(s)) if s == "2"));
    assert!(get_field(&obj, "c").is_none());
}
