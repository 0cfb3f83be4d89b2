//! What a client connection does with the lines it reads: gathers them into
//! batches of commands, and for each command counts it, names the log
//! record to write before the store changes, changes the store, and gives
//! the reply and the announcement.
use vstd::prelude::*;
use crate::engine::{Engine, EngineView};
use crate::metrics::{Metrics, MetricsData};
use crate::protocol::{parse, parse_spec, Command, CommandView};
use crate::replication::{EventView, ReplicationEvent};
use crate::wal::{bar_free, law_records_replay, op_del, op_set, op_setex, record_line, record_of_line, replay};
use crate::text::{views, chars_of, decimal, push_decimal, push_str, string_from, string_of, trim, trim_chars};

verus! {

broadcast use vstd::string::group_string_axioms;

/// The most commands read before they are run.
pub const PIPELINE_BATCH_SIZE: usize = 32;

/// What to do after a line was read.
#[derive(Debug, PartialEq, Eq)]
pub enum LineOutcome {
    /// The client closed the connection; the batch is dropped.
    Disconnected,
    /// Run the batch and send the replies.
    EndOfBatch,
    /// Read another line.
    MoreLines,
}

/// The decision on one line read into a batch of `batch` (see
/// `accept_line`), and the batch after it.
pub open spec fn line_step(batch: Seq<Seq<char>>, line: Seq<char>, bytes_read: usize) -> (
    LineOutcome,
    Seq<Seq<char>>,
) {
    if bytes_read == 0 {
        (LineOutcome::Disconnected, batch)
    } else if trim(line).len() == 0 {
        (LineOutcome::EndOfBatch, batch)
    } else {
        let b = batch.push(trim(line));
        (
            if bytes_read < 2 || b.len() == PIPELINE_BATCH_SIZE {
                LineOutcome::EndOfBatch
            } else {
                LineOutcome::MoreLines
            },
            b,
        )
    }
}

/// The decision after reading the lines (each with the byte count its read
/// reported) into an empty batch, one after the other, stopping at the
/// first line after which no more lines are read; and the batch then.
pub open spec fn read_lines(lines: Seq<(Seq<char>, usize)>) -> (LineOutcome, Seq<Seq<char>>)
    decreases lines.len(),
{
    if lines.len() == 0 {
        (LineOutcome::MoreLines, Seq::empty())
    } else {
        let (o, b) = read_lines(lines.drop_last());
        if o == LineOutcome::MoreLines {
            line_step(b, lines.last().0, lines.last().1)
        } else {
            (o, b)
        }
    }
}

/// A line that adds a command to the batch and asks for more: it is read
/// with at least two bytes and is not blank.
pub open spec fn full_line(l: (Seq<char>, usize)) -> bool {
    l.1 >= 2 && trim(l.0).len() != 0
}

/// While fewer than `PIPELINE_BATCH_SIZE` non-blank lines of two bytes or
/// more have been read, the batch is not run: more lines are read, and the
/// batch holds those lines, trimmed, in order. The next such line fills the
/// batch and runs it; a blank line instead runs it as it is, with no command
/// of its own; an end of input drops it.
pub proof fn law_batch(lines: Seq<(Seq<char>, usize)>, next: (Seq<char>, usize))
    requires
        lines.len() < PIPELINE_BATCH_SIZE,
        forall|i: int| 0 <= i < lines.len() ==> full_line(#[trigger] lines[i]),
    ensures
        read_lines(lines) == (LineOutcome::MoreLines, lines.map_values(
            |l: (Seq<char>, usize)| trim(l.0),
        )),
        lines.len() == PIPELINE_BATCH_SIZE - 1 && full_line(next) ==> read_lines(lines.push(next))
            == (LineOutcome::EndOfBatch, lines.push(next).map_values(
            |l: (Seq<char>, usize)| trim(l.0),
        )),
        next.1 != 0 && trim(next.0).len() == 0 ==> read_lines(lines.push(next)) == (
            LineOutcome::EndOfBatch,
            lines.map_values(|l: (Seq<char>, usize)| trim(l.0)),
        ),
        next.1 == 0 ==> read_lines(lines.push(next)).0 == LineOutcome::Disconnected,
    decreases lines.len(),
{
    let trims = lines.map_values(|l: (Seq<char>, usize)| trim(l.0));
    if lines.len() > 0 {
        let t = lines.drop_last();
        law_batch(t, lines.last());
        assert(t.map_values(|l: (Seq<char>, usize)| trim(l.0)).push(trim(lines.last().0)) =~= trims);
        assert(full_line(lines[lines.len() - 1]));
    } else {
        assert(trims =~= Seq::<Seq<char>>::empty());
    }
    assert(read_lines(lines) == (LineOutcome::MoreLines, trims));
    assert(lines.push(next).drop_last() =~= lines);
    assert(lines.push(next).last() == next);
    assert(read_lines(lines.push(next)) == line_step(trims, next.0, next.1));
    assert(trims.push(trim(next.0)) =~= lines.push(next).map_values(
        |l: (Seq<char>, usize)| trim(l.0),
    ));
}

/// Takes one line read from a client into the batch. `bytes_read` is what
/// the read reported, line break included; zero means the client closed the
/// connection, which is counted. A blank line ends the batch; so does a read
/// of fewer than two bytes, and a full batch.
pub fn accept_line(metrics: &mut Metrics, batch: &mut Vec<String>, line: &str, bytes_read: usize) -> (out:
    LineOutcome)
    requires
        old(batch)@.len() < PIPELINE_BATCH_SIZE,
    ensures
        (out, views(final(batch)@)) == line_step(views(old(batch)@), line@, bytes_read),
        bytes_read == 0 ==> out == LineOutcome::Disconnected && final(batch)@ == old(batch)@
            && final(metrics)@ == old(metrics)@.closed(),
        bytes_read != 0 ==> final(metrics)@ == old(metrics)@,
        bytes_read != 0 && trim(line@).len() == 0 ==> out == LineOutcome::EndOfBatch
            && final(batch)@ == old(batch)@,
        bytes_read != 0 && trim(line@).len() != 0 ==> {
            &&& final(batch)@.len() == old(batch)@.len() + 1
            &&& final(batch)@.drop_last() == old(batch)@
            &&& final(batch)@.last()@ == trim(line@)
            &&& out == (if bytes_read < 2 || final(batch)@.len() == PIPELINE_BATCH_SIZE {
                LineOutcome::EndOfBatch
            } else {
                LineOutcome::MoreLines
            })
        },
{
    if bytes_read == 0 {
        metrics.connection_closed();
        return LineOutcome::Disconnected;
    }
    let chars = chars_of(line);
    let trimmed = trim_chars(&chars);
    if trimmed.len() == 0 {
        return LineOutcome::EndOfBatch;
    }
    batch.push(string_of(&trimmed));
    assert(batch@.drop_last() =~= old(batch)@);
    assert(views(batch@) =~= views(old(batch)@).push(trim(line@)));
    if bytes_read < 2 || batch.len() == PIPELINE_BATCH_SIZE {
        LineOutcome::EndOfBatch
    } else {
        LineOutcome::MoreLines
    }
}

/// A record to append to the write-ahead log.
pub struct WalEntry {
    pub operation: String,
    pub key: String,
    pub value: Option<String>,
}

/// A command read from a client, and the log record to write before it is
/// run.
pub struct Prepared {
    pub command: Command,
    pub wal_entry: Option<WalEntry>,
}

/// The characters of an optional string.
pub open spec fn opt_chars(value: Option<String>) -> Option<Seq<char>> {
    match value {
        Some(v) => Some(v@),
        None => None,
    }
}

/// The log record of a command, as operation, key and value: writes and
/// deletes have one, other commands none.
pub open spec fn wal_entry_for(c: CommandView) -> Option<(Seq<char>, Seq<char>, Option<Seq<char>>)> {
    match c {
        CommandView::SetKey { key, value } => Some(("SET"@, key, Some(value))),
        CommandView::SetEx { key, value, ttl } => Some(("SETEX"@, key, Some(value))),
        CommandView::Delete { key } => Some(("DEL"@, key, None)),
        _ => None,
    }
}

/// The counters after a command is read: it is counted, and so is the read
/// or write it makes.
pub open spec fn count_command(m: MetricsData, c: CommandView) -> MetricsData {
    let m1 = m.executed();
    match c {
        CommandView::SetKey { .. } => m1.written(),
        CommandView::SetEx { .. } => m1.written(),
        CommandView::Delete { .. } => m1.written(),
        CommandView::Get { .. } => m1.read(),
        _ => m1,
    }
}

/// Reads a command, counts it, and names the log record to write before it
/// is run.
pub fn prepare_command(metrics: &mut Metrics, raw: &str) -> (p: Prepared)
    requires
        old(metrics)@.total_commands < usize::MAX,
        old(metrics)@.total_reads < usize::MAX,
        old(metrics)@.total_writes < usize::MAX,
    ensures
        p.command@ == parse_spec(raw@),
        final(metrics)@ == count_command(old(metrics)@, p.command@),
        (match (p.wal_entry, wal_entry_for(p.command@)) {
            (Some(e), Some(w)) => e.operation@ == w.0 && e.key@ == w.1 && opt_chars(e.value) == w.2,
            (None, None) => true,
            _ => false,
        }),
{
    metrics.command_executed();
    let command = parse(raw);
    let wal_entry = match &command {
        Command::SetKey { key, value } => {
            metrics.write_operation();
            Some(WalEntry { operation: string_from("SET"), key: key.clone(), value: Some(value.clone()) })
        },
        Command::SetEx { key, value, ttl } => {
            metrics.write_operation();
            Some(WalEntry { operation: string_from("SETEX"), key: key.clone(), value: Some(value.clone()) })
        },
        Command::Delete { key } => {
            metrics.write_operation();
            Some(WalEntry { operation: string_from("DEL"), key: key.clone(), value: None })
        },
        Command::Get { .. } => {
            metrics.read_operation();
            None
        },
        _ => None,
    };
    Prepared { command, wal_entry }
}

/// The reply to a command and the announcement it makes.
pub struct Reply {
    pub text: String,
    pub event: Option<ReplicationEvent>,
}

/// The text of the `METRICS` reply.
pub open spec fn metrics_report(m: MetricsData) -> Seq<char> {
    "total_connections="@ + decimal(m.total_connections as nat) + "\n"@
        + "active_connections="@ + decimal(m.active_connections as nat) + "\n"@
        + "total_commands="@ + decimal(m.total_commands as nat) + "\n"@
        + "total_reads="@ + decimal(m.total_reads as nat) + "\n"@
        + "total_writes="@ + decimal(m.total_writes as nat) + "\n"@
}

/// The store after a command run at `now`.
pub open spec fn store_after(v: EngineView, c: CommandView, now: u128) -> EngineView {
    match c {
        CommandView::SetKey { key, value } => v.set(key, value),
        CommandView::SetEx { key, value, ttl } => v.set_with_ttl(key, value, ttl, now),
        CommandView::Get { key } => v.after_get(key, now),
        CommandView::Delete { key } => v.delete(key),
        _ => v,
    }
}

/// The reply to a command run at `now`.
pub open spec fn reply_text(v: EngineView, m: MetricsData, c: CommandView, now: u128) -> Seq<char> {
    match c {
        CommandView::Ping => "PONG\n"@,
        CommandView::SetKey { .. } => "OK\n"@,
        CommandView::SetEx { .. } => "OK\n"@,
        CommandView::Get { key } => match v.get_result(key, now) {
            Some(value) => value + "\n"@,
            None => "NULL\n"@,
        },
        CommandView::Delete { key } => if v.data.contains_key(key) {
            "OK\n"@
        } else {
            "NULL\n"@
        },
        CommandView::Metrics => metrics_report(m),
        CommandView::Unknown => "ERR unknown command\n"@,
    }
}

/// The announcement a command makes: every write and delete is announced,
/// a delete of a missing key too.
pub open spec fn event_for(c: CommandView) -> Option<EventView> {
    match c {
        CommandView::SetKey { key, value } => Some(EventView { operation: "SET"@, key, value: Some(value) }),
        CommandView::SetEx { key, value, ttl } => Some(EventView { operation: "SETEX"@, key, value: Some(value) }),
        CommandView::Delete { key } => Some(EventView { operation: "DEL"@, key, value: None }),
        _ => None,
    }
}

/// The announcement of an optional event.
pub open spec fn opt_event(e: Option<ReplicationEvent>) -> Option<EventView> {
    match e {
        Some(e) => Some(e@),
        None => None,
    }
}

/// Appends the `METRICS` reply for the counters to `s`.
fn push_metrics_report(s: &mut String, m: MetricsData)
    ensures
        final(s)@ == old(s)@ + metrics_report(m),
{
    push_str(s, "total_connections=");
    push_decimal(s, m.total_connections as u64);
    push_str(s, "\n");
    push_str(s, "active_connections=");
    push_decimal(s, m.active_connections as u64);
    push_str(s, "\n");
    push_str(s, "total_commands=");
    push_decimal(s, m.total_commands as u64);
    push_str(s, "\n");
    push_str(s, "total_reads=");
    push_decimal(s, m.total_reads as u64);
    push_str(s, "\n");
    push_str(s, "total_writes=");
    push_decimal(s, m.total_writes as u64);
    push_str(s, "\n");
    assert(s@ =~= old(s)@ + metrics_report(m));
}

/// Runs a command at the time `now` (on the store's clock) and gives its
/// reply and announcement.
pub fn complete_command_at(engine: &mut Engine, metrics: &Metrics, command: Command, now: u128) -> (r: Reply)
    requires
        old(engine).wf(),
    ensures
        final(engine).wf(),
        final(engine).clock() == old(engine).clock(),
        final(engine)@ == store_after(old(engine)@, command@, now),
        r.text@ == reply_text(old(engine)@, metrics@, command@, now),
        opt_event(r.event) == event_for(command@),
{
    match command {
        Command::Ping => Reply { text: string_from("PONG\n"), event: None },
        Command::SetKey { key, value } => {
            let event = ReplicationEvent {
                operation: string_from("SET"),
                key: key.clone(),
                value: Some(value.clone()),
            };
            engine.set(key, value);
            Reply { text: string_from("OK\n"), event: Some(event) }
        },
        Command::SetEx { key, value, ttl } => {
            let event = ReplicationEvent {
                operation: string_from("SETEX"),
                key: key.clone(),
                value: Some(value.clone()),
            };
            engine.set_with_ttl_at(key, value, ttl, now);
            Reply { text: string_from("OK\n"), event: Some(event) }
        },
        Command::Get { key } => {
            match engine.get_at(key.as_str(), now) {
                Some(value) => {
                    let mut text = value;
                    push_str(&mut text, "\n");
                    Reply { text, event: None }
                },
                None => Reply { text: string_from("NULL\n"), event: None },
            }
        },
        Command::Delete { key } => {
            let deleted = engine.delete(key.as_str());
            let event = ReplicationEvent { operation: string_from("DEL"), key, value: None };
            if deleted {
                Reply { text: string_from("OK\n"), event: Some(event) }
            } else {
                Reply { text: string_from("NULL\n"), event: Some(event) }
            }
        },
        Command::Metrics => {
            let mut text = String::new();
            push_metrics_report(&mut text, metrics.snapshot());
            assert(text@ =~= metrics_report(metrics@));
            Reply { text, event: None }
        },
        Command::Unknown => Reply { text: string_from("ERR unknown command\n"), event: None },
    }
}

/// Whether a command names a log record that must be written before it is
/// run.
fn needs_log(c: &Command) -> (b: bool)
    ensures
        b == wal_entry_for(c@) is Some,
{
    match c {
        Command::SetKey { .. } => true,
        Command::SetEx { .. } => true,
        Command::Delete { .. } => true,
        _ => false,
    }
}

/// The store after one more command of a batch, and whether the batch has
/// stopped: once stopped, nothing more is run; a command with a log record
/// whose append did not succeed (`logged` false) stops the batch without
/// changing the store; any other command is run.
pub open spec fn batch_step(state: (EngineView, bool), c: CommandView, logged: bool, now: u128) -> (
    EngineView,
    bool,
) {
    if state.1 {
        state
    } else if wal_entry_for(c) is Some && !logged {
        (state.0, true)
    } else {
        (store_after(state.0, c, now), false)
    }
}

/// The store after a batch of commands, `logged[i]` telling whether the log
/// record of the `i`-th was appended, and whether the batch stopped.
pub open spec fn run_batch(v: EngineView, cs: Seq<CommandView>, logged: Seq<bool>, now: u128) -> (
    EngineView,
    bool,
)
    decreases cs.len(),
{
    if cs.len() == 0 || logged.len() != cs.len() {
        (v, false)
    } else {
        batch_step(run_batch(v, cs.drop_last(), logged.drop_last(), now), cs.last(), logged.last(), now)
    }
}

/// The store after running the commands one after the other.
pub open spec fn apply_commands(v: EngineView, cs: Seq<CommandView>, now: u128) -> EngineView
    decreases cs.len(),
{
    if cs.len() == 0 {
        v
    } else {
        store_after(apply_commands(v, cs.drop_last(), now), cs.last(), now)
    }
}

/// What running a prepared command gives.
pub enum Step {
    /// The command ran; its reply and announcement.
    Done(Reply),
    /// Its log record was not written: the command did not run, and the
    /// batch stops.
    Stop,
}

/// Runs a prepared command at the time `now`, once the append of its log
/// record (if it has one) is known: `logged` tells whether it succeeded. A
/// command whose record was not appended is not run.
pub fn finish_command_at(
    engine: &mut Engine,
    metrics: &Metrics,
    prepared: Prepared,
    logged: bool,
    now: u128,
) -> (s: Step)
    requires
        old(engine).wf(),
    ensures
        final(engine).wf(),
        final(engine).clock() == old(engine).clock(),
        final(engine)@ == batch_step((old(engine)@, false), prepared.command@, logged, now).0,
        (s is Stop) == batch_step((old(engine)@, false), prepared.command@, logged, now).1,
        (match s {
            Step::Done(r) => r.text@ == reply_text(old(engine)@, metrics@, prepared.command@, now)
                && opt_event(r.event) == event_for(prepared.command@),
            Step::Stop => true,
        }),
{
    if needs_log(&prepared.command) && !logged {
        return Step::Stop;
    }
    Step::Done(complete_command_at(engine, metrics, prepared.command, now))
}

/// Runs a prepared command now, once the append of its log record (if it
/// has one) is known.
pub fn finish_command(engine: &mut Engine, metrics: &Metrics, prepared: Prepared, logged: bool) -> (s:
    Step)
    requires
        old(engine).wf(),
    ensures
        final(engine).wf(),
        exists|now: u128|
            {
                &&& now >= old(engine).clock()
                &&& final(engine).clock() == now
                &&& final(engine)@ == batch_step((old(engine)@, false), prepared.command@, logged, now).0
                &&& (s is Stop) == batch_step((old(engine)@, false), prepared.command@, logged, now).1
                &&& (match s {
                    Step::Done(r) => r.text@ == reply_text(old(engine)@, metrics@, prepared.command@, now),
                    Step::Stop => true,
                })
            },
{
    let now = engine.advance_clock();
    finish_command_at(engine, metrics, prepared, logged, now)
}

/// Write-ahead: in a batch, the store changes by a command with a log
/// record only once that record was appended. While every record was
/// appended, the batch gives the store that running its commands gives; at
/// the first command whose record was not appended the batch stops, with
/// the store as the commands before it left it, and no later command runs.
pub proof fn law_write_ahead(
    v: EngineView,
    cs: Seq<CommandView>,
    logged: Seq<bool>,
    now: u128,
    i: int,
)
    requires
        logged.len() == cs.len(),
        0 <= i <= cs.len(),
        forall|j: int| 0 <= j < i ==> (wal_entry_for(#[trigger] cs[j]) is Some ==> logged[j]),
        i < cs.len() ==> wal_entry_for(cs[i]) is Some && !logged[i],
    ensures
        i == cs.len() ==> run_batch(v, cs, logged, now) == (apply_commands(v, cs, now), false),
        i < cs.len() ==> run_batch(v, cs, logged, now) == (apply_commands(v, cs.take(i), now), true),
    decreases cs.len(),
{
    if cs.len() > 0 {
        let n = cs.len() - 1;
        if i == cs.len() {
            assert forall|j: int| 0 <= j < n implies (wal_entry_for(#[trigger] cs.drop_last()[j]) is Some
                ==> logged.drop_last()[j]) by {
                assert(cs.drop_last()[j] == cs[j]);
            }
            law_write_ahead(v, cs.drop_last(), logged.drop_last(), now, n);
        } else if i == n {
            assert forall|j: int| 0 <= j < n implies (wal_entry_for(#[trigger] cs.drop_last()[j]) is Some
                ==> logged.drop_last()[j]) by {
                assert(cs.drop_last()[j] == cs[j]);
            }
            law_write_ahead(v, cs.drop_last(), logged.drop_last(), now, n);
            assert(cs.take(i) =~= cs.drop_last());
        } else {
            assert forall|j: int| 0 <= j < i implies (wal_entry_for(#[trigger] cs.drop_last()[j]) is Some
                ==> logged.drop_last()[j]) by {
                assert(cs.drop_last()[j] == cs[j]);
            }
            assert(cs.drop_last()[i] == cs[i]);
            law_write_ahead(v, cs.drop_last(), logged.drop_last(), now, i);
            assert(cs.drop_last().take(i) =~= cs.take(i));
        }
    }
}

/// Runs a command now and gives its reply and announcement.
pub fn complete_command(engine: &mut Engine, metrics: &Metrics, command: Command) -> (r: Reply)
    requires
        old(engine).wf(),
    ensures
        final(engine).wf(),
        exists|now: u128|
            {
                &&& now >= old(engine).clock()
                &&& final(engine).clock() == now
                &&& final(engine)@ == store_after(old(engine)@, command@, now)
                &&& r.text@ == reply_text(old(engine)@, metrics@, command@, now)
            },
        opt_event(r.event) == event_for(command@),
{
    let now = engine.advance_clock();
    complete_command_at(engine, metrics, command, now)
}

/// The log record that a `SET` or `DEL` command names, once replayed, has
/// the effect the command had on the store (for keys and values without
/// `|`). A `SETEX` record is not replayed.
pub proof fn law_logged_command_replays(
    v: EngineView,
    c: CommandView,
    timestamp: i64,
    now: u128,
)
    requires
        wal_entry_for(c) is Some,
        c matches CommandView::SetKey { key, value } ==> bar_free(key) && bar_free(value),
        c matches CommandView::Delete { key } ==> bar_free(key),
        !(c is SetEx),
    ensures
        ({
            let e = wal_entry_for(c)->0;
            replay(v, record_of_line(record_line(timestamp, e.0, e.1, e.2))) == store_after(
                v,
                c,
                now,
            )
        }),
{
    reveal_strlit("SET");
    reveal_strlit("DEL");
    assert("SET"@ =~= op_set());
    assert("DEL"@ =~= op_del());
    match c {
        CommandView::SetKey { key, value } => {
            law_records_replay(v, timestamp, key, value);
        },
        CommandView::Delete { key } => {
            law_records_replay(v, timestamp, key, Seq::empty());
        },
        _ => {},
    }
}

/// Whatever the store holds, a `SETEX` record is not replayed: after a
/// restart the key keeps neither the value nor the deadline it was given.
pub proof fn law_setex_not_replayed(
    v: EngineView,
    key: Seq<char>,
    value: Seq<char>,
    timestamp: i64,
)
    requires
        bar_free(key),
        bar_free(value),
    ensures
        replay(v, record_of_line(record_line(timestamp, "SETEX"@, key, Some(value)))) == v,
{
    reveal_strlit("SETEX");
    assert("SETEX"@ =~= op_setex());
    law_records_replay(v, timestamp, key, value);
}

/// A `SETEX` run at time `written`, then a `GET` of its key run later (at
/// `read`, no earlier, as the engine's clock never goes back): the `GET`
/// replies with the value while `read` is not past `written` plus the time
/// to live, and with `NULL` once it is past.
pub proof fn law_setex_then_get(
    v: EngineView,
    m: MetricsData,
    key: Seq<char>,
    value: Seq<char>,
    ttl: u64,
    written: u128,
    read: u128,
)
    requires
        read >= written,
    ensures
        ({
            let after = store_after(v, CommandView::SetEx { key, value, ttl }, written);
            let reply = reply_text(after, m, CommandView::Get { key }, read);
            &&& read <= written + ttl * crate::engine::NANOS_PER_SEC ==> reply == value + "\n"@
            &&& read > written + ttl * crate::engine::NANOS_PER_SEC ==> reply == "NULL\n"@
        }),
{
}

/// The `METRICS` reply gives, in this order and one per line, the number of
/// connections opened, of connections open, of commands, of reads and of
/// writes, each after its own name.
pub proof fn law_metrics_reply_fields(v: EngineView, m: MetricsData, now: u128)
    ensures
        reply_text(v, m, CommandView::Metrics, now) == seq!['t', 'o', 't', 'a', 'l', '_', 'c', 'o', 'n', 'n', 'e', 'c', 't', 'i', 'o', 'n', 's', '=']
            + decimal(m.total_connections as nat) + seq!['\n']
            + seq!['a', 'c', 't', 'i', 'v', 'e', '_', 'c', 'o', 'n', 'n', 'e', 'c', 't', 'i', 'o', 'n', 's', '=']
            + decimal(m.active_connections as nat) + seq!['\n']
            + seq!['t', 'o', 't', 'a', 'l', '_', 'c', 'o', 'm', 'm', 'a', 'n', 'd', 's', '=']
            + decimal(m.total_commands as nat) + seq!['\n']
            + seq!['t', 'o', 't', 'a', 'l', '_', 'r', 'e', 'a', 'd', 's', '=']
            + decimal(m.total_reads as nat) + seq!['\n']
            + seq!['t', 'o', 't', 'a', 'l', '_', 'w', 'r', 'i', 't', 'e', 's', '=']
            + decimal(m.total_writes as nat) + seq!['\n'],
{
    reveal_strlit("total_connections=");
    reveal_strlit("active_connections=");
    reveal_strlit("total_commands=");
    reveal_strlit("total_reads=");
    reveal_strlit("total_writes=");
    reveal_strlit("\n");
    assert("total_connections="@ =~= seq!['t', 'o', 't', 'a', 'l', '_', 'c', 'o', 'n', 'n', 'e', 'c', 't', 'i', 'o', 'n', 's', '=']);
    assert("active_connections="@ =~= seq!['a', 'c', 't', 'i', 'v', 'e', '_', 'c', 'o', 'n', 'n', 'e', 'c', 't', 'i', 'o', 'n', 's', '=']);
    assert("total_commands="@ =~= seq!['t', 'o', 't', 'a', 'l', '_', 'c', 'o', 'm', 'm', 'a', 'n', 'd', 's', '=']);
    assert("total_reads="@ =~= seq!['t', 'o', 't', 'a', 'l', '_', 'r', 'e', 'a', 'd', 's', '=']);
    assert("total_writes="@ =~= seq!['t', 'o', 't', 'a', 'l', '_', 'w', 'r', 'i', 't', 'e', 's', '=']);
    assert("\n"@ =~= seq!['\n']);
}

} // verus!
