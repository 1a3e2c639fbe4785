use std::collections::BTreeMap;

use fblog::json::JsonValue;
use fblog::log::{prepare_log_line, LogLine};
use fblog::settings::{LogSettings, DEFAULT_ADDITIONAL_VALUE_FORMAT, DEFAULT_MAIN_LINE_FORMAT};
use fblog::style::{fixed_size, level_style, min_size, style, Color, Style, Weight};
use handlebars::{Context, Handlebars, Helper, HelperResult, Output, RenderContext};
use regex::Regex;

fn without_style(styled: &str) -> String {
    let regex = Regex::new("\u{001B}\\[[\\d;]*[^\\d;]").expect("Regex should be valid");
    regex.replace_all(styled, "").into_owned()
}

fn text_arg(args: &[serde_json::Value], i: usize) -> String {
    args.get(i).and_then(|v| v.as_str()).unwrap_or("").to_string()
}

fn number_arg(args: &[serde_json::Value], i: usize) -> u64 {
    args.get(i).and_then(|v| v.as_u64()).unwrap_or(0)
}

fn register(reg: &mut Handlebars<'static>, name: &str, f: fn(&[serde_json::Value]) -> String) {
    reg.register_helper(
        name,
        Box::new(
            move |h: &Helper, _: &Handlebars, _: &Context, _: &mut RenderContext, out: &mut dyn Output| -> HelperResult {
                let args: Vec<serde_json::Value> = h.params().iter().map(|p| p.value().clone()).collect();
                out.write(&f(&args))?;
                Ok(())
            },
        ),
    );
}

fn registry() -> Handlebars<'static> {
    let mut reg = Handlebars::new();
    reg.register_escape_fn(handlebars::no_escape);
    register(&mut reg, "bold", |a| style(Style { color: Color::Primary, weight: Weight::Bold }, &text_arg(a, 0), false));
    register(&mut reg, "cyan", |a| style(Style { color: Color::Cyan, weight: Weight::Normal }, &text_arg(a, 0), false));
    register(&mut reg, "uppercase", |a| text_arg(a, 0).to_uppercase());
    register(&mut reg, "level_style", |a| level_style(&text_arg(a, 0), false));
    register(&mut reg, "fixed_size", |a| fixed_size(number_arg(a, 0) as usize, &text_arg(a, 1)));
    register(&mut reg, "min_size", |a| min_size(number_arg(a, 0) as usize, &text_arg(a, 1)));
    register(&mut reg, "color_rgb", |a| {
        let c = Color::Rgb(number_arg(a, 0) as u8, number_arg(a, 1) as u8, number_arg(a, 2) as u8);
        style(Style { color: c, weight: Weight::Normal }, &text_arg(a, 3), false)
    });
    reg.register_template_string("main_line", DEFAULT_MAIN_LINE_FORMAT).unwrap();
    reg.register_template_string("additional_value", DEFAULT_ADDITIONAL_VALUE_FORMAT).unwrap();
    reg
}

fn to_serde(v: &JsonValue) -> serde_json::Value {
    match v {
        JsonValue::Null => serde_json::Value::Null,
        JsonValue::Bool(b) => serde_json::Value::Bool(*b),
        JsonValue::Number(n) => serde_json::from_str(n).unwrap(),
        JsonValue::Str(s) => serde_json::Value::String(s.clone()),
        JsonValue::Array(items) => serde_json::Value::Array(items.iter().map(to_serde).collect()),
        JsonValue::Object(fields) => serde_json::Value::Object(fields.iter().map(|(k, v)| (k.clone(), to_serde(v))).collect()),
    }
}

fn render(entry: &[(String, JsonValue)], line: &LogLine) -> String {
    let reg = registry();
    let mut data: serde_json::Map<String, serde_json::Value> = entry.iter().map(|(k, v)| (k.clone(), to_serde(v))).collect();
    data.insert("fblog_timestamp".to_string(), serde_json::Value::String(line.timestamp.clone()));
    data.insert("fblog_level".to_string(), serde_json::Value::String(line.level.clone()));
    data.insert("fblog_message".to_string(), serde_json::Value::String(line.message.clone()));
    data.insert("fblog_prefix".to_string(), serde_json::Value::String(line.prefix.clone()));
    let mut out = reg.render("main_line", &data).unwrap();
    out.push('\n');
    for (key, value) in &line.additional_values {
        let mut variables: BTreeMap<String, String> = BTreeMap::new();
        variables.insert("key".to_string(), key.clone());
        variables.insert("value".to_string(), value.clone());
        out.push_str(&reg.render("additional_value", &variables).unwrap());
        out.push('\n');
    }
    without_style(&out)
}

fn print_log_line(maybe_prefix: Option<&str>, entry: &Vec<(String, JsonValue)>, settings: &LogSettings) -> String {
    let line = prepare_log_line(maybe_prefix, entry, settings);
    render(entry, &line)
}

fn field(key: &str, value: &str) -> (String, JsonValue) {
    (key.to_string(), JsonValue::Str(value.to_string()))
}

#[test]
fn write_log_entry() {
    let log_settings = LogSettings::new_default_settings();
    let log_entry = vec![
        field("message", "something happend"),
        field("time", "2017-07-06T15:21:16"),
        field("process", "rust"),
        field("level", "info"),
    ];
    assert_eq!(print_log_line(None, &log_entry, &log_settings), "2017-07-06T15:21:16  INFO: something happend\n");
}

#[test]
fn write_log_entry_with_mapped_level() {
    let mut log_settings = LogSettings::new_default_settings();
    log_settings.level_map = vec![("30".to_string(), "info".to_string())];
    let log_entry = vec![
        field("message", "something happend"),
        field("time", "2017-07-06T15:21:16"),
        field("process", "rust"),
        field("level", "30"),
    ];
    assert_eq!(print_log_line(None, &log_entry, &log_settings), "2017-07-06T15:21:16  INFO: something happend\n");
}

#[test]
fn write_log_entry_with_prefix() {
    let log_settings = LogSettings::new_default_settings();
    let log_entry = vec![
        field("message", "something happend"),
        field("time", "2017-07-06T15:21:16"),
        field("process", "rust"),
        field("level", "info"),
    ];
    assert_eq!(
        print_log_line(Some("abc"), &log_entry, &log_settings),
        "2017-07-06T15:21:16  INFO: abc something happend\n"
    );
}

#[test]
fn write_log_entry_with_additional_field() {
    let log_entry = vec![
        field("message", "something happend"),
        field("time", "2017-07-06T15:21:16"),
        field("process", "rust"),
        field("fu", "bower"),
        field("level", "info"),
    ];
    let mut log_settings = LogSettings::new_default_settings();
    log_settings.add_additional_values(vec!["process".to_string(), "fu".to_string()]);
    assert_eq!(
        print_log_line(None, &log_entry, &log_settings),
        "\
2017-07-06T15:21:16  INFO: something happend
                  process: rust
                       fu: bower
"
    );
}

#[test]
fn write_log_entry_with_additional_field_and_prefix() {
    let log_entry = vec![
        field("message", "something happend"),
        field("time", "2017-07-06T15:21:16"),
        field("process", "rust"),
        field("fu", "bower"),
        field("level", "info"),
    ];
    let mut log_settings = LogSettings::new_default_settings();
    log_settings.add_additional_values(vec!["process".to_string(), "fu".to_string()]);
    assert_eq!(
        print_log_line(Some("abc"), &log_entry, &log_settings),
        "\
2017-07-06T15:21:16  INFO: abc something happend
                  process: rust
                       fu: bower
"
    );
}

#[test]
fn write_log_entry_dump_all() {
    let log_entry = vec![
        field("message", "something happend"),
        field("time", "2017-07-06T15:21:16"),
        field("process", "rust"),
        field("fu", "bower"),
        field("level", "info"),
    ];
    let mut log_settings = LogSettings::new_default_settings();
    log_settings.dump_all = true;
    assert_eq!(
        print_log_line(None, &log_entry, &log_settings),
        "\
2017-07-06T15:21:16  INFO: something happend
                       fu: bower
                    level: info
                  message: something happend
                  process: rust
                     time: 2017-07-06T15:21:16
"
    );
}

#[test]
fn write_log_entry_with_exotic_fields() {
    let mut log_settings = LogSettings::new_default_settings();
    let log_entry = vec![
        field("message", "something happend"),
        field("time", "2017-07-06T15:21:16"),
        field("process", "rust"),
        field("moep", "moep"),
        field("hugo", "hugo"),
        field("level", "info"),
    ];
    log_settings.add_message_keys(vec!["process".to_string()]);
    log_settings.add_time_keys(vec!["moep".to_string()]);
    log_settings.add_level_keys(vec!["hugo".to_string()]);
    assert_eq!(print_log_line(None, &log_entry, &log_settings), "               moep  HUGO: rust\n");
}

#[test]
fn end_to_end_default_line() {
    let log_settings = LogSettings::new_default_settings();
    let log_entry = vec![
        field("message", "something happened"),
        field("time", "2017-07-06T15:21:16"),
        field("level", "info"),
    ];
    assert_eq!(print_log_line(None, &log_entry, &log_settings), "2017-07-06T15:21:16  INFO: something happened\n");
}

#[test]
fn end_to_end_with_additional_level() {
    let mut log_settings = LogSettings::new_default_settings();
    log_settings.add_additional_values(vec!["level".to_string()]);
    let log_entry = vec![
        field("message", "something happened"),
        field("time", "2017-07-06T15:21:16"),
        field("level", "info"),
    ];
    assert_eq!(
        print_log_line(None, &log_entry, &log_settings),
        "2017-07-06T15:21:16  INFO: something happened\n                    level: info\n"
    );
}

#[test]
fn dump_all_is_sorted_and_skips_excluded() {
    let mut log_settings = LogSettings::new_default_settings();
    log_settings.dump_all = true;
    log_settings.add_excluded_values(vec!["message".to_string(), "time".to_string()]);
    let log_entry = vec![
        field("zeta", "z"),
        field("message", "m"),
        field("alpha", "a"),
        field("time", "t"),
        ("nested".to_string(), JsonValue::Object(vec![field("b", "2"), field("a", "1")])),
    ];
    let line = prepare_log_line(None, &log_entry, &log_settings);
    let keys: Vec<&str> = line.additional_values.iter().map(|(k, _)| k.as_str()).collect();
    assert_eq!(keys, vec!["alpha", "nested > a", "nested > b", "zeta"]);
}

#[test]
fn additional_value_selects_a_subtree() {
    let mut log_settings = LogSettings::new_default_settings();
    log_settings.add_additional_values(vec!["nested".to_string()]);
    let log_entry = vec![
        field("message", "m"),
        ("nested".to_string(), JsonValue::Object(vec![field("b", "2"), field("a", "1")])),
        field("nestedx", "no"),
    ];
    let line = prepare_log_line(None, &log_entry, &log_settings);
    assert_eq!(
        line.additional_values,
        vec![("nested > a".to_string(), "1".to_string()), ("nested > b".to_string(), "2".to_string())]
    );
}

#[test]
fn missing_fields_fall_back_to_defaults() {
    let log_settings = LogSettings::new_default_settings();
    let log_entry: Vec<(String, JsonValue)> = vec![];
    let line = prepare_log_line(Some("  pre  "), &log_entry, &log_settings);
    assert_eq!(line.level, "unknown");
    assert_eq!(line.message, "");
    assert_eq!(line.timestamp, "");
    assert_eq!(line.prefix, "pre");
    assert!(line.additional_values.is_empty());
}

#[test]
fn first_listed_message_key_wins() {
    let mut log_settings = LogSettings::new_default_settings();
    log_settings.message_keys = vec!["msg".to_string(), "message".to_string()];
    let log_entry = vec![field("message", "y"), field("msg", "x")];
    let line = prepare_log_line(None, &log_entry, &log_settings);
    assert_eq!(line.message, "x");
}

#[test]
fn level_is_mapped_through_alias_table() {
    let mut log_settings = LogSettings::new_default_settings();
    log_settings.add_level_map(vec![("30".to_string(), "info".to_string())]);
    let log_entry = vec![field("level", "30")];
    assert_eq!(prepare_log_line(None, &log_entry, &log_settings).level, "info");
    let log_entry = vec![field("level", "40")];
    assert_eq!(prepare_log_line(None, &log_entry, &log_settings).level, "40");
}

#[test]
fn later_level_alias_replaces_earlier() {
    let mut log_settings = LogSettings::new_default_settings();
    log_settings.add_level_map(vec![("30".to_string(), "info".to_string())]);
    log_settings.add_level_map(vec![("30".to_string(), "notice".to_string())]);
    let log_entry = vec![field("level", "30")];
    assert_eq!(prepare_log_line(None, &log_entry, &log_settings).level, "notice");
}

#[test]
fn epoch_time_field_is_converted() {
    let log_settings = LogSettings::new_default_settings();
    let log_entry = vec![("time".to_string(), JsonValue::Number("1716292213381".to_string()))];
    assert_eq!(prepare_log_line(None, &log_entry, &log_settings).timestamp, "2024-05-21T11:50:13.381Z");
}
