use astradb::engine::{Engine, SnapshotData, NANOS_PER_SEC};

#[test]
fn set_then_get() {
    let mut e = Engine::new();
    e.set("a".to_string(), "1".to_string());
    assert_eq!(e.get("a"), Some("1".to_string()));
    assert_eq!(e.get("b"), None);
    e.set("a".to_string(), "2".to_string());
    assert_eq!(e.get("a"), Some("2".to_string()));
    assert_eq!(e.len(), 1);
}

#[test]
fn delete_reports_presence() {
    let mut e = Engine::new();
    e.set("a".to_string(), "1".to_string());
    assert!(e.delete("a"));
    assert!(!e.delete("a"));
    assert_eq!(e.get("a"), None);
    assert_eq!(e.len(), 0);
}

#[test]
fn ttl_expires_after_deadline() {
    let mut e = Engine::new();
    e.set_with_ttl_at("k".to_string(), "v".to_string(), 2, 100);
    let deadline = 100 + 2 * NANOS_PER_SEC;
    assert_eq!(e.get_at("k", deadline), Some("v".to_string()));
    assert_eq!(e.len(), 1);
    assert_eq!(e.get_at("k", deadline + 1), None);
    // the expired read deleted the key
    assert_eq!(e.len(), 0);
    assert_eq!(e.get_at("k", 0), None);
}

#[test]
fn set_keeps_an_earlier_deadline() {
    let mut e = Engine::new();
    e.set_with_ttl_at("k".to_string(), "v".to_string(), 1, 0);
    e.set("k".to_string(), "w".to_string());
    assert_eq!(e.get_at("k", NANOS_PER_SEC), Some("w".to_string()));
    assert_eq!(e.get_at("k", NANOS_PER_SEC + 1), None);
}

#[test]
fn huge_ttl_saturates() {
    let mut e = Engine::new();
    e.set_with_ttl_at("k".to_string(), "v".to_string(), u64::MAX, u128::MAX - 5);
    assert_eq!(e.get_at("k", u128::MAX), Some("v".to_string()));
}

#[test]
fn ttl_in_real_time() {
    let mut e = Engine::new();
    e.set_with_ttl("k".to_string(), "v".to_string(), 3600);
    assert_eq!(e.get("k"), Some("v".to_string()));
    e.cleanup_expired();
    assert_eq!(e.len(), 1);
}

#[test]
fn cleanup_takes_out_expired_keys_only() {
    let mut e = Engine::new();
    e.set_with_ttl_at("short".to_string(), "1".to_string(), 1, 0);
    e.set_with_ttl_at("long".to_string(), "2".to_string(), 100, 0);
    e.set("plain".to_string(), "3".to_string());
    e.cleanup_expired_at(5 * NANOS_PER_SEC);
    assert_eq!(e.len(), 2);
    assert_eq!(e.get_at("short", 0), None);
    assert_eq!(e.get_at("long", 0), Some("2".to_string()));
    assert_eq!(e.get_at("plain", u128::MAX), Some("3".to_string()));
}

#[test]
fn many_keys_across_shards() {
    let mut e = Engine::new();
    for i in 0..200 {
        e.set(format!("key{}", i), format!("value{}", i));
    }
    assert_eq!(e.len(), 200);
    for i in 0..200 {
        assert_eq!(e.get(&format!("key{}", i)), Some(format!("value{}", i)));
    }
}

#[test]
fn snapshot_round_trip() {
    let mut e = Engine::new();
    for i in 0..50 {
        e.set(format!("k{}", i), format!("v{}", i));
    }
    let snap = e.snapshot();
    assert_eq!(snap.data.len(), 50);
    let mut keys: Vec<&String> = snap.data.iter().map(|p| &p.0).collect();
    keys.sort();
    keys.dedup();
    assert_eq!(keys.len(), 50);
    let mut f = Engine::new();
    f.load_snapshot(snap);
    assert_eq!(f.len(), 50);
    for i in 0..50 {
        assert_eq!(f.get(&format!("k{}", i)), Some(format!("v{}", i)));
    }
}

#[test]
fn load_snapshot_last_pair_wins_and_keeps_existing() {
    let mut e = Engine::new();
    e.set("old".to_string(), "x".to_string());
    let snap = SnapshotData {
        data: vec![
            ("a".to_string(), "1".to_string()),
            ("a".to_string(), "2".to_string()),
        ],
    };
    e.load_snapshot(snap);
    assert_eq!(e.get("a"), Some("2".to_string()));
    assert_eq!(e.get("old"), Some("x".to_string()));
    assert_eq!(e.len(), 2);
}

#[test]
fn recover_set_and_delete() {
    let mut e = Engine::new();
    e.recover_set("a".to_string(), "1".to_string());
    e.recover_set("b".to_string(), "2".to_string());
    e.recover_delete("a");
    assert_eq!(e.get("a"), None);
    assert_eq!(e.get("b"), Some("2".to_string()));
}
