use fblog::flatten::FlatRecord;
use fblog::inspect::InspectLogger;

fn record(pairs: &[(&str, &str)]) -> FlatRecord {
    let mut r = FlatRecord::new();
    for (k, v) in pairs {
        r.insert(k.to_string(), v.to_string());
    }
    r
}

#[test]
fn inspect_log_entry() {
    let mut inpect_logger = InspectLogger::new();
    let mut log_entry = record(&[
        ("message", "something happend"),
        ("time", "2017-07-06T15:21:16"),
        ("process", "rust"),
        ("fu", "bower"),
        ("level", "info"),
    ]);
    let result = inpect_logger.print_unknown_keys(&log_entry);
    assert_eq!(result, "fu\nlevel\nmessage\nprocess\ntime\n");

    let result = inpect_logger.print_unknown_keys(&log_entry);
    assert_eq!(result, "");

    log_entry.insert("sxoe".to_string(), "kuci".to_string());
    let result = inpect_logger.print_unknown_keys(&log_entry);
    assert_eq!(result, "sxoe\n");

    log_entry.insert("fkbr".to_string(), "kuci".to_string());
    log_entry.insert("blubb".to_string(), "kuci".to_string());
    let result = inpect_logger.print_unknown_keys(&log_entry);
    assert_eq!(result, "blubb\nfkbr\n");
}
