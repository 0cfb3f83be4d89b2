use astradb::engine::Engine;
use astradb::wal::{format_record, parse_record, replay_line, LogRecord};

#[test]
fn format_set_record() {
    assert_eq!(
        format_record(1700000000000, "SET", "k", Some("v")),
        "1700000000000|SET|k|v\n"
    );
    assert_eq!(format_record(0, "DEL", "key", None), "0|DEL|key\n");
    assert_eq!(format_record(-42, "SETEX", "a", Some("b")), "-42|SETEX|a|b\n");
    assert_eq!(
        format_record(i64::MIN, "DEL", "k", None),
        format!("{}|DEL|k\n", i64::MIN)
    );
}

#[test]
fn parse_records() {
    match parse_record("1|SET|k|v") {
        LogRecord::Write { key, value } => {
            assert_eq!(key, "k");
            assert_eq!(value, "v");
        }
        _ => panic!("expected a write"),
    }
    match parse_record("1|DEL|k") {
        LogRecord::Remove { key } => assert_eq!(key, "k"),
        _ => panic!("expected a delete"),
    }
    match parse_record("1|DEL|k|extra") {
        LogRecord::Remove { key } => assert_eq!(key, "k"),
        _ => panic!("expected a delete"),
    }
    match parse_record("1|SET||") {
        LogRecord::Write { key, value } => {
            assert_eq!(key, "");
            assert_eq!(value, "");
        }
        _ => panic!("expected a write"),
    }
    assert!(matches!(parse_record("1|SET|k"), LogRecord::Ignored));
    assert!(matches!(parse_record("1|SET|k|v|w"), LogRecord::Ignored));
    assert!(matches!(parse_record("1|SETEX|k|v"), LogRecord::Ignored));
    assert!(matches!(parse_record("1|set|k|v"), LogRecord::Ignored));
    assert!(matches!(parse_record("1|DEL"), LogRecord::Ignored));
    assert!(matches!(parse_record(""), LogRecord::Ignored));
}

#[test]
fn replay_reproduces_writes() {
    let mut live = Engine::new();
    let mut log: Vec<String> = Vec::new();
    let ops: Vec<(&str, &str, Option<&str>)> = vec![
        ("SET", "a", Some("1")),
        ("SET", "b", Some("2")),
        ("DEL", "a", None),
        ("SET", "b", Some("3")),
        ("SET", "c", Some("4")),
    ];
    for (i, (op, key, value)) in ops.iter().enumerate() {
        log.push(format_record(i as i64, op, key, *value));
        match *op {
            "SET" => live.set(key.to_string(), value.unwrap().to_string()),
            _ => {
                live.delete(key);
            }
        }
    }
    let mut recovered = Engine::new();
    for line in log.iter() {
        replay_line(&mut recovered, line.trim_end_matches('\n'));
    }
    assert_eq!(recovered.len(), live.len());
    for key in ["a", "b", "c"].iter() {
        assert_eq!(recovered.get(key), live.get(key));
    }
}

#[test]
fn setex_is_not_replayed() {
    let mut e = Engine::new();
    let line = format_record(5, "SETEX", "k", Some("v"));
    replay_line(&mut e, line.trim_end());
    assert_eq!(e.get("k"), None);
    assert_eq!(e.len(), 0);
}
