use fblog::settings::{level_map_get, Config, LogSettings, DEFAULT_MAIN_LINE_FORMAT};
use fblog::substitution::Substitution;

#[test]
fn default_config_values() {
    let c = Config::new();
    assert_eq!(c.message_keys, vec!["short_message", "msg", "message"]);
    assert_eq!(c.time_keys, vec!["timestamp", "time", "@timestamp"]);
    assert_eq!(c.level_keys, vec!["level", "severity", "log.level", "loglevel"]);
    assert!(c.level_map.is_empty());
    assert!(c.dump_all_exclude.is_empty());
    assert!(c.always_print_fields.is_empty());
    assert_eq!(c.main_line_format, DEFAULT_MAIN_LINE_FORMAT);
}

#[test]
fn loaded_config_wins() {
    let mut loaded = Config::new();
    loaded.message_keys = vec!["m".to_string()];
    assert_eq!(Config::get(Some(loaded)).message_keys, vec!["m"]);
    assert_eq!(Config::get(None).message_keys, vec!["short_message", "msg", "message"]);
}

#[test]
fn settings_builders() {
    let mut s = LogSettings::new_default_settings();
    s.add_message_keys(vec!["a".to_string()]);
    assert_eq!(s.message_keys, vec!["a", "short_message", "msg", "message"]);
    s.add_time_keys(vec!["t".to_string()]);
    assert_eq!(s.time_keys[0], "t");
    s.add_level_keys(vec!["l".to_string()]);
    assert_eq!(s.level_keys[0], "l");
    s.add_additional_values(vec!["x".to_string()]);
    s.add_additional_values(vec!["y".to_string()]);
    assert_eq!(s.additional_values, vec!["x", "y"]);
    s.add_excluded_values(vec!["e".to_string()]);
    assert_eq!(s.excluded_values, vec!["e"]);
    s.add_level_map(vec![("10".to_string(), "trace".to_string())]);
    assert_eq!(level_map_get(&s.level_map, "10"), Some("trace".to_string()));
    assert_eq!(level_map_get(&s.level_map, "20"), None);
    s.add_substitution(Substitution::default());
    assert!(s.substitution.is_some());
}

#[test]
fn from_config_copies_lists() {
    let mut c = Config::new();
    c.always_print_fields = vec!["p".to_string()];
    c.dump_all_exclude = vec!["q".to_string()];
    c.level_map = vec![("30".to_string(), "info".to_string())];
    let s = LogSettings::from_config(&c);
    assert_eq!(s.additional_values, vec!["p"]);
    assert_eq!(s.excluded_values, vec!["q"]);
    assert_eq!(s.level_map, vec![("30".to_string(), "info".to_string())]);
    assert!(!s.dump_all && !s.with_prefix && !s.print_lua && !s.no_color);
}
