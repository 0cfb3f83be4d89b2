use astradb::protocol::{command_from_words, parse, Command};
use astradb::text::{is_whitespace, parse_bounded, split_words, trim_text};

#[test]
fn parse_ping_any_case() {
    assert!(matches!(parse("PING"), Command::Ping));
    assert!(matches!(parse("ping"), Command::Ping));
    assert!(matches!(parse("  PiNg  "), Command::Ping));
    assert!(matches!(parse("PING extra words"), Command::Ping));
}

#[test]
fn parse_set() {
    match parse("  set  alpha   beta \r\n") {
        Command::SetKey { key, value } => {
            assert_eq!(key, "alpha");
            assert_eq!(value, "beta");
        }
        other => panic!("unexpected {:?}", other),
    }
    assert!(matches!(parse("SET alpha"), Command::Unknown));
    assert!(matches!(parse("SET a b c"), Command::Unknown));
}

#[test]
fn parse_setex() {
    match parse("SETEX k v 10") {
        Command::SetEx { key, value, ttl } => {
            assert_eq!(key, "k");
            assert_eq!(value, "v");
            assert_eq!(ttl, 10);
        }
        other => panic!("unexpected {:?}", other),
    }
    match parse("setex k v +5") {
        Command::SetEx { ttl, .. } => assert_eq!(ttl, 5),
        other => panic!("unexpected {:?}", other),
    }
    match parse("SETEX k v 18446744073709551615") {
        Command::SetEx { ttl, .. } => assert_eq!(ttl, u64::MAX),
        other => panic!("unexpected {:?}", other),
    }
    assert!(matches!(parse("SETEX k v 18446744073709551616"), Command::Unknown));
    assert!(matches!(parse("SETEX k v -1"), Command::Unknown));
    assert!(matches!(parse("SETEX k v ten"), Command::Unknown));
    assert!(matches!(parse("SETEX k v"), Command::Unknown));
}

#[test]
fn parse_get_del_metrics_unknown() {
    match parse("GET key1") {
        Command::Get { key } => assert_eq!(key, "key1"),
        other => panic!("unexpected {:?}", other),
    }
    match parse("del key1") {
        Command::Delete { key } => assert_eq!(key, "key1"),
        other => panic!("unexpected {:?}", other),
    }
    assert!(matches!(parse("GET"), Command::Unknown));
    assert!(matches!(parse("DEL a b"), Command::Unknown));
    assert!(matches!(parse("metrics"), Command::Metrics));
    assert!(matches!(parse(""), Command::Unknown));
    assert!(matches!(parse("   \t "), Command::Unknown));
    assert!(matches!(parse("FOO bar"), Command::Unknown));
}

#[test]
fn parse_uses_unicode_upper_case() {
    // U+0131 (dotless i) upper-cases to I, U+017F (long s) to S.
    assert!(matches!(parse("p\u{131}ng"), Command::Ping));
    assert!(matches!(parse("\u{17f}et k v"), Command::SetKey { .. }));
}

#[test]
fn command_from_words_takes_the_upper_case_head() {
    let words = vec!["get".to_string(), "k".to_string()];
    match command_from_words("GET", &words) {
        Command::Get { key } => assert_eq!(key, "k"),
        other => panic!("unexpected {:?}", other),
    }
    assert!(matches!(command_from_words("get", &words), Command::Unknown));
}

#[test]
fn whitespace_matches_std_for_every_char() {
    for u in 0u32..=0x10FFFF {
        if let Some(c) = char::from_u32(u) {
            assert_eq!(is_whitespace(c), c.is_whitespace(), "char {:#x}", u);
        }
    }
}

#[test]
fn split_and_trim_match_std() {
    let samples = [
        "",
        " ",
        "a",
        "  a  b\tc\n",
        "\u{3000}x\u{2028}y\u{85}",
        "one two  three",
        "\r\n",
    ];
    for s in samples.iter() {
        let expected: Vec<String> = s.split_whitespace().map(|w| w.to_string()).collect();
        assert_eq!(split_words(s), expected);
        assert_eq!(trim_text(s), s.trim());
    }
}

#[test]
fn parse_bounded_matches_std() {
    let samples = [
        "0", "7878", "+1", "+", "", "-1", "65535", "65536", "12a", " 1", "1 ",
        "18446744073709551615", "18446744073709551616", "00042", "\u{661}",
    ];
    for s in samples.iter() {
        assert_eq!(parse_bounded(s, u64::MAX), s.parse::<u64>().ok(), "u64 {:?}", s);
        assert_eq!(
            parse_bounded(s, u16::MAX as u64),
            s.parse::<u16>().ok().map(|v| v as u64),
            "u16 {:?}",
            s
        );
    }
}
