use astradb::benchmark::benchmark_command;
use astradb::config::Config;
use astradb::engine::{Engine, NANOS_PER_SEC};
use astradb::metrics::{Metrics, MetricsData};
use astradb::network::{accept_line, complete_command_at, complete_command, finish_command_at, prepare_command, LineOutcome, Step, PIPELINE_BATCH_SIZE};
use astradb::protocol::{parse, Command};
use astradb::replication::{ReplicationBus, ReplicationEvent};
use astradb::wal::{format_record, replay_line};

#[test]
fn metrics_counters() {
    let mut m = Metrics::new();
    m.connection_opened();
    m.connection_opened();
    m.connection_closed();
    m.connection_closed();
    m.connection_closed();
    m.command_executed();
    m.read_operation();
    m.write_operation();
    m.write_operation();
    let d = m.snapshot();
    assert_eq!(d.total_connections, 2);
    assert_eq!(d.active_connections, 0);
    assert_eq!(d.total_commands, 1);
    assert_eq!(d.total_reads, 1);
    assert_eq!(d.total_writes, 2);
    let z = MetricsData::default();
    assert_eq!(z.total_connections + z.active_connections + z.total_commands + z.total_reads + z.total_writes, 0);
}

#[test]
fn config_defaults_and_values() {
    let c = Config::from_settings(None, None, None);
    assert_eq!(c.host, "127.0.0.1");
    assert_eq!(c.port, 7878);
    assert_eq!(c.snapshot_interval_secs, 30);
    assert_eq!(c.address(), "127.0.0.1:7878");
    let c = Config::from_settings(
        Some("0.0.0.0".to_string()),
        Some("9000".to_string()),
        Some("5".to_string()),
    );
    assert_eq!(c.address(), "0.0.0.0:9000");
    assert_eq!(c.snapshot_interval_secs, 5);
    let c = Config::from_settings(None, Some("70000".to_string()), Some("x".to_string()));
    assert_eq!(c.port, 7878);
    assert_eq!(c.snapshot_interval_secs, 30);
    let c = Config::from_settings(None, Some("0".to_string()), None);
    assert_eq!(c.address(), "127.0.0.1:0");
}

#[test]
fn batching_lines() {
    let mut m = Metrics::new();
    m.connection_opened();
    let mut batch: Vec<String> = Vec::new();
    assert_eq!(accept_line(&mut m, &mut batch, "PING\n", 5), LineOutcome::MoreLines);
    assert_eq!(accept_line(&mut m, &mut batch, "  GET a \r\n", 10), LineOutcome::MoreLines);
    assert_eq!(batch, vec!["PING".to_string(), "GET a".to_string()]);
    assert_eq!(accept_line(&mut m, &mut batch, "\n", 1), LineOutcome::EndOfBatch);
    assert_eq!(batch.len(), 2);
    assert_eq!(accept_line(&mut m, &mut batch, "X", 1), LineOutcome::EndOfBatch);
    assert_eq!(batch.len(), 3);
    assert_eq!(m.snapshot().active_connections, 1);
    assert_eq!(accept_line(&mut m, &mut batch, "", 0), LineOutcome::Disconnected);
    assert_eq!(batch.len(), 3);
    assert_eq!(m.snapshot().active_connections, 0);
}

#[test]
fn batch_is_full_at_limit() {
    let mut m = Metrics::new();
    let mut batch: Vec<String> = Vec::new();
    for i in 0..PIPELINE_BATCH_SIZE - 1 {
        assert_eq!(accept_line(&mut m, &mut batch, &format!("GET k{}\n", i), 8), LineOutcome::MoreLines);
    }
    assert_eq!(accept_line(&mut m, &mut batch, "PING\n", 5), LineOutcome::EndOfBatch);
    assert_eq!(batch.len(), PIPELINE_BATCH_SIZE);
}

fn run(engine: &mut Engine, metrics: &mut Metrics, raw: &str, now: u128) -> (String, Option<ReplicationEvent>, Option<(String, String, Option<String>)>) {
    let p = prepare_command(metrics, raw);
    let wal = p.wal_entry.map(|w| (w.operation, w.key, w.value));
    let r = complete_command_at(engine, metrics, p.command, now);
    (r.text, r.event, wal)
}

#[test]
fn command_replies() {
    let mut e = Engine::new();
    let mut m = Metrics::new();
    let (t, ev, wal) = run(&mut e, &mut m, "PING", 0);
    assert_eq!(t, "PONG\n");
    assert!(ev.is_none() && wal.is_none());
    let (t, ev, wal) = run(&mut e, &mut m, "SET a 1", 0);
    assert_eq!(t, "OK\n");
    let ev = ev.unwrap();
    assert_eq!((ev.operation.as_str(), ev.key.as_str(), ev.value.as_deref()), ("SET", "a", Some("1")));
    assert_eq!(wal, Some(("SET".to_string(), "a".to_string(), Some("1".to_string()))));
    let (t, ev, wal) = run(&mut e, &mut m, "GET a", 0);
    assert_eq!(t, "1\n");
    assert!(ev.is_none() && wal.is_none());
    let (t, _, _) = run(&mut e, &mut m, "GET zz", 0);
    assert_eq!(t, "NULL\n");
    let (t, ev, wal) = run(&mut e, &mut m, "DEL a", 0);
    assert_eq!(t, "OK\n");
    assert_eq!(ev.unwrap().operation, "DEL");
    assert_eq!(wal, Some(("DEL".to_string(), "a".to_string(), None)));
    let (t, ev, _) = run(&mut e, &mut m, "DEL a", 0);
    assert_eq!(t, "NULL\n");
    assert!(ev.is_some());
    let (t, ev, wal) = run(&mut e, &mut m, "SETEX s v 1", 0);
    assert_eq!(t, "OK\n");
    assert_eq!(ev.unwrap().operation, "SETEX");
    assert_eq!(wal.unwrap().0, "SETEX");
    let (t, _, _) = run(&mut e, &mut m, "GET s", NANOS_PER_SEC);
    assert_eq!(t, "v\n");
    let (t, _, _) = run(&mut e, &mut m, "GET s", NANOS_PER_SEC + 1);
    assert_eq!(t, "NULL\n");
    let (t, _, _) = run(&mut e, &mut m, "BOGUS", 0);
    assert_eq!(t, "ERR unknown command\n");
    let (t, _, _) = run(&mut e, &mut m, "METRICS", 0);
    assert_eq!(
        t,
        "total_connections=0\nactive_connections=0\ntotal_commands=11\ntotal_reads=4\ntotal_writes=4\n"
    );
}

#[test]
fn complete_command_uses_the_clock() {
    let mut e = Engine::new();
    let m = Metrics::new();
    let r = complete_command(&mut e, &m, parse("SET k v"));
    assert_eq!(r.text, "OK\n");
    let r = complete_command(&mut e, &m, parse("GET k"));
    assert_eq!(r.text, "v\n");
    let r = complete_command(&mut e, &m, Command::Ping);
    assert_eq!(r.text, "PONG\n");
}

#[test]
fn benchmark_commands() {
    assert_eq!(benchmark_command(0), "SET key0 value0\n");
    assert_eq!(benchmark_command(999), "SET key999 value999\n");
    assert!(matches!(parse(&benchmark_command(7)), Command::SetKey { .. }));
}

#[test]
fn replication_delivers_events() {
    let mut bus = ReplicationBus::new();
    let mut rx = bus.subscribe();
    bus.publish(ReplicationEvent { operation: "SET".to_string(), key: "k".to_string(), value: Some("v".to_string()) });
    let got = rx.try_recv().unwrap();
    assert_eq!(got.operation, "SET");
    assert_eq!(got.key, "k");
    assert_eq!(got.value, Some("v".to_string()));
    // publishing with no subscriber does not fail
    let mut lonely = ReplicationBus::new();
    lonely.publish(ReplicationEvent { operation: "DEL".to_string(), key: "k".to_string(), value: None });
}

#[test]
fn logged_commands_replay_to_the_same_store() {
    let mut live = Engine::new();
    let mut recovered = Engine::new();
    let mut m = Metrics::new();
    for raw in ["SET a 1", "SET b 2", "DEL a", "GET b", "SET b 3", "DEL zz"].iter() {
        let p = prepare_command(&mut m, raw);
        if let Some(w) = &p.wal_entry {
            let line = format_record(1, &w.operation, &w.key, w.value.as_deref());
            replay_line(&mut recovered, line.trim_end_matches('\n'));
        }
        complete_command_at(&mut live, &m, p.command, 0);
    }
    assert_eq!(live.len(), recovered.len());
    for k in ["a", "b", "zz"].iter() {
        assert_eq!(live.get(k), recovered.get(k));
    }
}

#[test]
fn unlogged_write_is_not_run() {
    let mut e = Engine::new();
    let mut m = Metrics::new();
    let p = prepare_command(&mut m, "SET a 1");
    assert!(matches!(finish_command_at(&mut e, &m, p, false, 0), Step::Stop));
    assert_eq!(e.len(), 0);
    let p = prepare_command(&mut m, "SET a 1");
    match finish_command_at(&mut e, &m, p, true, 0) {
        Step::Done(r) => assert_eq!(r.text, "OK\n"),
        Step::Stop => panic!("a logged write runs"),
    }
    assert_eq!(e.get("a"), Some("1".to_string()));
    // a read has no log record, so a failed append does not stop it
    let p = prepare_command(&mut m, "GET a");
    match finish_command_at(&mut e, &m, p, false, 0) {
        Step::Done(r) => assert_eq!(r.text, "1\n"),
        Step::Stop => panic!("a read is not stopped"),
    }
}

#[test]
fn subscriber_receives_in_order_only_later_events() {
    let mut bus = ReplicationBus::new();
    bus.publish(ReplicationEvent { operation: "SET".to_string(), key: "early".to_string(), value: None });
    let mut rx = bus.subscribe();
    for k in ["a", "b", "c"].iter() {
        bus.publish(ReplicationEvent { operation: "DEL".to_string(), key: k.to_string(), value: None });
    }
    for k in ["a", "b", "c"].iter() {
        assert_eq!(rx.try_recv().unwrap().key, *k);
    }
    assert!(rx.try_recv().is_err());
}
