use fblog::process::{failed_line_text, failed_value_text, line_step, raw_line_text, unparseable_line_text, LineStep};
use fblog::style::Color;

#[test]
fn object_line_is_an_entry() {
    assert!(matches!(line_step("{\"a\":1}", true, false, true), LineStep::Entry));
}

#[test]
fn unparseable_line_is_shown_as_it_came() {
    assert!(matches!(line_step("not json", false, false, false), LineStep::Unparseable));
    assert!(matches!(line_step("no brace here", false, false, true), LineStep::Unparseable));
    assert!(matches!(line_step("abc {\"a\":1}", false, true, true), LineStep::Unparseable));
    assert_eq!(unparseable_line_text("not json", true), "??? > not json");
    let colored = unparseable_line_text("not json", false);
    assert!(colored.ends_with(" not json"));
    assert_ne!(colored, "??? > not json");
}

#[test]
fn prefix_is_split_at_first_brace() {
    match line_step("abc {\"a\":{}}", false, false, true) {
        LineStep::Retry { prefix, rest } => {
            assert_eq!(prefix, "abc ");
            assert_eq!(rest, "{\"a\":{}}");
        }
        _ => panic!("expected a retry"),
    }
}

#[test]
fn marker_lines() {
    assert_eq!(raw_line_text("Could not read line: x", Color::Red, true), "??? > Could not read line: x");
    assert_eq!(failed_line_text("bad", true), "??? > Failed to process line: bad");
    assert_eq!(failed_value_text("bad", true), "   ??? > Failed to process additional value: bad");
}
