use fblog::json::JsonValue;
use fblog::message_template::{FormatError, MessageTemplate};

fn text(s: &str) -> JsonValue {
    JsonValue::Str(s.to_string())
}

#[test]
fn template_lays_out_objects_with_spaces() {
    let t = MessageTemplate::new("ctx".to_string(), true);
    let entry = vec![(
        "ctx".to_string(),
        JsonValue::Object(vec![
            ("o".to_string(), JsonValue::Object(vec![("a".to_string(), text("1")), ("b".to_string(), JsonValue::Bool(true))])),
            ("l".to_string(), JsonValue::Array(vec![JsonValue::Number("1".to_string()), JsonValue::Number("2".to_string())])),
        ]),
    )];
    assert_eq!(t.apply("{o} {l} {x}", &entry).unwrap(), "{ a: 1, b: true } [1, 2] {x}");
}

#[test]
fn key_format_can_be_changed() {
    let t = MessageTemplate::default().with_key_format("<<key>>").unwrap();
    assert_eq!(t.context, "context");
    let entry = vec![("context".to_string(), JsonValue::Array(vec![text("zero")]))];
    assert!(t.apply("<<0>> <0>", &entry).unwrap().contains("zero"));
}

#[test]
fn bad_key_format_is_refused_and_keeps_the_old_one() {
    let mut t = MessageTemplate::new("context".to_string(), true);
    assert_eq!(t.set_key_format("[id]"), Err(FormatError::MissingIdentifier));
    let entry = vec![("context".to_string(), JsonValue::Object(vec![("id".to_string(), text("v"))]))];
    assert_eq!(t.apply("{id} [id]", &entry).unwrap(), "v [id]");
    assert_eq!(t.set_key_format("[key]"), Ok(()));
    assert_eq!(t.apply("{id} [id]", &entry).unwrap(), "{id} v");
    assert!(MessageTemplate::default().with_key_format("nothing").is_err());
}

#[test]
fn template_without_context_field_gives_none() {
    let t = MessageTemplate::default();
    let entry = vec![("other".to_string(), text("x"))];
    assert_eq!(t.apply("{a}", &entry), None);
}
