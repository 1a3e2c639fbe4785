use fblog::filter::{escape_lua_string, filter_chunk, filter_verdict, object_to_record, show_log_entry, FilterError};
use fblog::json::JsonValue;

fn text(s: &str) -> JsonValue {
    JsonValue::Str(s.to_string())
}

fn test_log_entry() -> Vec<(String, JsonValue)> {
    vec![
        ("message".to_string(), text("something happend")),
        ("time".to_string(), text("2017-07-06T15:21:16")),
        ("process".to_string(), text("rust")),
        ("fu".to_string(), text("bower")),
        ("level".to_string(), text("info")),
        ("nested".to_string(), JsonValue::Object(vec![("log.level".to_string(), text("debug"))])),
        (
            "nested_with_array".to_string(),
            JsonValue::Object(vec![("array".to_string(), JsonValue::Array(vec![text("a"), text("b"), text("c")]))]),
        ),
    ]
}

#[test]
fn allow_all() {
    let log_entry = test_log_entry();
    assert_eq!(true, show_log_entry(&log_entry, "true", true).unwrap());
}

#[test]
fn deny_all() {
    let log_entry = test_log_entry();
    assert_eq!(false, show_log_entry(&log_entry, "false", true).unwrap());
}

#[test]
fn filter_process() {
    let log_entry = test_log_entry();
    assert_eq!(true, show_log_entry(&log_entry, r#"process == "rust""#, true).unwrap());
    assert_eq!(false, show_log_entry(&log_entry, r#"process == "meep""#, true).unwrap());
}

#[test]
fn filter_logical_operators() {
    let log_entry = test_log_entry();
    assert_eq!(true, show_log_entry(&log_entry, r#"process == "rust" and fu == "bower""#, true).unwrap());
    assert_eq!(true, show_log_entry(&log_entry, r#"process == "rust" or fu == "bauer""#, true).unwrap());
}

#[test]
fn filter_contains() {
    let log_entry = test_log_entry();
    assert_eq!(true, show_log_entry(&log_entry, r#"string.find(message, "something") ~= nil"#, true).unwrap());
    assert_eq!(false, show_log_entry(&log_entry, r#"string.find(message, "bla") ~= nil"#, true).unwrap());
}

#[test]
fn filter_regex() {
    let log_entry = test_log_entry();
    assert_eq!(true, show_log_entry(&log_entry, r#"string.find(fu, "bow.*") ~= nil"#, true).unwrap());
    assert_eq!(false, show_log_entry(&log_entry, r#"string.find(fu, "bow.*sd") ~= nil"#, true).unwrap());
}

#[test]
fn unknown_variable() {
    let log_entry = test_log_entry();
    assert_eq!(
        false,
        show_log_entry(&log_entry, r#"sdkfjsdfjsf ~= nil and string.find(sdkfjsdfjsf, "bow.*") ~= nil"#, true).unwrap()
    );
}

#[test]
fn no_implicit_return() {
    let log_entry = test_log_entry();
    assert!(show_log_entry(&log_entry, r#"if 3 > 2 then return true else return false end"#, false).unwrap());
    assert!(!show_log_entry(&log_entry, r#"if 1 > 2 then return true else return false end"#, false).unwrap());
}

#[test]
fn neted() {
    let log_entry = test_log_entry();
    assert!(show_log_entry(&log_entry, r#"nested.log_level == "debug""#, true).unwrap());
}

#[test]
fn nested_with_array() {
    let log_entry = test_log_entry();
    assert!(show_log_entry(&log_entry, r#"nested_with_array.array[2] == "b""#, true).unwrap());
}

#[test]
fn non_boolean_result_is_an_error() {
    let log_entry = test_log_entry();
    assert_eq!(show_log_entry(&log_entry, r#"process"#, true), Err(FilterError::NotBoolean));
}

#[test]
fn syntax_error_is_reported() {
    let log_entry = test_log_entry();
    assert!(matches!(show_log_entry(&log_entry, "process ==", true), Err(FilterError::Script(_))));
}

#[test]
fn escapes_lua_string_specials() {
    assert_eq!(escape_lua_string("a\nb\r\t\"'\\z"), "a\\nb\\r\\t\\\"\\'\\\\z");
    assert_eq!(escape_lua_string(""), "");
}

#[test]
fn bootstrap_script_binds_fields() {
    let entry = vec![
        ("log.level".to_string(), text("de\"bug")),
        ("n".to_string(), JsonValue::Number("3".to_string())),
        ("b".to_string(), JsonValue::Bool(true)),
        ("z".to_string(), JsonValue::Null),
        (
            "arr".to_string(),
            JsonValue::Array(vec![text("x"), JsonValue::Number("1".to_string()), JsonValue::Null]),
        ),
        ("o".to_string(), JsonValue::Object(vec![("k".to_string(), text("v")), ("m".to_string(), JsonValue::Bool(false))])),
    ];
    assert_eq!(
        object_to_record(&entry, false),
        "log_level = \"de\\\"bug\"\nn = 3\nb = true\nz = \"unsupported\"\narr = {\"x\",1,\"unsupported\"}\no = {k = \"v\",m = false}"
    );
}

#[test]
fn chunk_wraps_implicit_return() {
    assert_eq!(filter_chunk("a == 1", true), "return a == 1;");
    assert_eq!(filter_chunk("return true", false), "return true");
}

#[test]
fn verdict_of_evaluation() {
    assert_eq!(filter_verdict(Ok(Some(true))), Ok(true));
    assert_eq!(filter_verdict(Ok(None)), Err(FilterError::NotBoolean));
    assert_eq!(filter_verdict(Err("boom".to_string())), Err(FilterError::Script("boom".to_string())));
}
