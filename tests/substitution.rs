use fblog::json::JsonValue;
use fblog::substitution::{Error, Substitution};
use regex::Regex;

fn without_style(styled: &str) -> String {
    let regex = Regex::new("\u{001B}\\[[\\d;]*[^\\d;]").expect("Regex should be valid");
    regex.replace_all(styled, "").into_owned()
}

fn entry_context(subst: &Substitution, context: JsonValue) -> Vec<(String, JsonValue)> {
    vec![(subst.context_key.clone(), context)]
}

fn text(s: &str) -> JsonValue {
    JsonValue::Str(s.to_string())
}

fn test_placeholder_format(placeholder: &str) {
    let subst = Substitution::new(None, Some(placeholder.to_string()), false).unwrap();
    let msg = format!("Tapping fingers as a way to {placeholder}");
    let context = JsonValue::Object(vec![("key".to_string(), text("speak"))]);
    let result = subst.apply(&msg, &entry_context(&subst, context)).unwrap_or(msg);
    assert_eq!(
        "Tapping fingers as a way to speak",
        without_style(&result),
        "Failed to substitute with placeholder format {}",
        placeholder
    );
}

#[test]
fn common_placeholder_formats() {
    test_placeholder_format("{key}");
    test_placeholder_format("[key]");
    test_placeholder_format("%key%");
    test_placeholder_format("${key}");
}

#[test]
fn placeholder_not_in_context() {
    let subst = Substitution::default();
    let msg = "substituted: {subst}, ignored: {ignored}";
    let context = JsonValue::Object(vec![("subst".to_string(), text("no brackets!"))]);
    let result = subst.apply(msg, &entry_context(&subst, context)).unwrap_or(msg.to_owned());
    assert_eq!("substituted: no brackets!, ignored: {ignored}", without_style(&result));
}

#[test]
fn array_context() {
    let subst = Substitution::default();
    let msg = "text: {0}, number: {1}, bool: {2}, ignored: {3}";
    let context = JsonValue::Array(vec![text("better than sleeping"), JsonValue::Number("9".to_string()), JsonValue::Bool(true)]);
    let result = subst.apply(msg, &entry_context(&subst, context)).unwrap_or(msg.to_owned());
    assert_eq!("text: better than sleeping, number: 9, bool: true, ignored: {3}", without_style(&result));
}

#[test]
fn array_context_is_zero_based() {
    let subst = Substitution::new(None, None, true).unwrap();
    let context = JsonValue::Array(vec![text("a"), text("b"), text("c")]);
    let entry = entry_context(&subst, context);
    assert_eq!(subst.apply("{0}-{1}-{2}", &entry).unwrap(), "a-b-c");
    assert_eq!(subst.apply("{3}", &entry).unwrap(), "{3}");
    assert_eq!(subst.apply("{00}", &entry).unwrap(), "a");
}

#[test]
fn no_context_field_gives_none() {
    let subst = Substitution::default();
    let entry = vec![("other".to_string(), text("x"))];
    assert_eq!(subst.apply("{a}", &entry), None);
}

#[test]
fn format_without_key_is_refused() {
    assert_eq!(Substitution::new(None, Some("{id}".to_string()), false).err(), Some(Error::MissingIdentifier));
    assert_eq!(Substitution::new(None, Some("{key}key".to_string()), false).err(), Some(Error::MissingIdentifier));
    assert!(Substitution::new(Some("ctx".to_string()), Some("<<key>>".to_string()), false).is_ok());
}

#[test]
fn custom_context_key() {
    let subst = Substitution::new(Some("ctx".to_string()), Some("<key>".to_string()), true).unwrap();
    assert_eq!(subst.context_key, "ctx");
    let entry = vec![("ctx".to_string(), JsonValue::Object(vec![("who".to_string(), text("me"))]))];
    assert_eq!(subst.apply("hi <who>, <nobody>", &entry).unwrap(), "hi me, <nobody>");
}

#[test]
fn values_are_rendered_by_type() {
    let subst = Substitution::new(None, None, true).unwrap();
    let context = JsonValue::Object(vec![
        ("n".to_string(), JsonValue::Null),
        ("f".to_string(), JsonValue::Bool(false)),
        ("a".to_string(), JsonValue::Array(vec![JsonValue::Number("1".to_string()), text("x")])),
        ("o".to_string(), JsonValue::Object(vec![("k".to_string(), text("v")), ("j".to_string(), JsonValue::Array(vec![]))])),
    ]);
    let entry = entry_context(&subst, context);
    assert_eq!(subst.apply("{n} {f} {a} {o}", &entry).unwrap(), "null false [1, x] {k: v, j: []}");
}

#[test]
fn colored_value_keeps_text_between_codes() {
    let subst = Substitution::default();
    let entry = entry_context(&subst, JsonValue::Object(vec![("k".to_string(), text("v"))]));
    let out = subst.apply("{k}", &entry).unwrap();
    assert_ne!(out, "v");
    assert_eq!(without_style(&out), "v");
}

#[test]
fn text_without_placeholders_is_unchanged() {
    let subst = Substitution::new(None, None, true).unwrap();
    let entry = entry_context(&subst, JsonValue::Object(vec![("k".to_string(), text("v"))]));
    let once = subst.apply("plain {} text {k", &entry).unwrap();
    assert_eq!(once, "plain {} text {k");
    assert_eq!(subst.apply(&once, &entry).unwrap(), once);
}

#[test]
fn greedy_identifier_with_identifier_suffix() {
    let subst = Substitution::new(None, Some("key_end".to_string()), true).unwrap();
    let entry = entry_context(&subst, JsonValue::Object(vec![("foo".to_string(), text("X")), ("foo_end_bar".to_string(), text("Y"))]));
    assert_eq!(subst.apply("foo_end_bar_end", &entry).unwrap(), "Y");
}
