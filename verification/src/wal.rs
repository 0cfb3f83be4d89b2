//! The write-ahead log: one line per write, `timestamp|operation|key|value`
//! (no value for a delete), and its replay into a store.
use vstd::prelude::*;
use crate::engine::{Engine, EngineView};
use crate::text::{
    chars_of, decimal, is_digit, push_char, push_signed_decimal, push_str, same_text,
    signed_decimal, string_of,
};

verus! {

broadcast use vstd::string::group_string_axioms;

// ---------------------------------------------------------------------------
// Writing records
// ---------------------------------------------------------------------------

/// A log line without its line break: the timestamp, the operation, the key
/// and, where there is one, the value, joined by `|`.
pub open spec fn record_line(
    timestamp: i64,
    operation: Seq<char>,
    key: Seq<char>,
    value: Option<Seq<char>>,
) -> Seq<char> {
    let head = signed_decimal(timestamp as int) + seq!['|'] + operation + seq!['|'] + key;
    match value {
        Some(v) => head + seq!['|'] + v,
        None => head,
    }
}

/// A log record as it is written: its line and a line break.
pub open spec fn record_text(
    timestamp: i64,
    operation: Seq<char>,
    key: Seq<char>,
    value: Option<Seq<char>>,
) -> Seq<char> {
    record_line(timestamp, operation, key, value).push('\n')
}

/// The characters of an optional string.
pub open spec fn opt_view(value: Option<&str>) -> Option<Seq<char>> {
    match value {
        Some(v) => Some(v@),
        None => None,
    }
}

/// The log record of one write made at `timestamp` (milliseconds since the
/// Unix epoch).
pub fn format_record(timestamp: i64, operation: &str, key: &str, value: Option<&str>) -> (r:
    String)
    ensures
        r@ == record_text(timestamp, operation@, key@, opt_view(value)),
{
    let mut s = String::new();
    push_signed_decimal(&mut s, timestamp);
    push_char(&mut s, '|');
    push_str(&mut s, operation);
    push_char(&mut s, '|');
    push_str(&mut s, key);
    match value {
        Some(v) => {
            push_char(&mut s, '|');
            push_str(&mut s, v);
        },
        None => {},
    }
    push_char(&mut s, '\n');
    assert(s@ =~= record_text(timestamp, operation@, key@, opt_view(value)));
    s
}

// ---------------------------------------------------------------------------
// Reading records
// ---------------------------------------------------------------------------

/// The fields of `s` between the `|` characters, as `str::split('|')` gives
/// them: one more field than there are bars, empty fields kept.
pub open spec fn split_bars(s: Seq<char>) -> Seq<Seq<char>>
    decreases s.len(),
{
    if s.len() == 0 {
        seq![Seq::empty()]
    } else {
        let f = split_bars(s.drop_last());
        if s.last() == '|' {
            f.push(Seq::empty())
        } else {
            f.update(f.len() - 1, f.last().push(s.last()))
        }
    }
}

/// What a log line asks of a replay.
pub enum LogRecord {
    /// Write a value for a key.
    Write { key: String, value: String },
    /// Delete a key.
    Remove { key: String },
    /// Nothing: the line is too short, malformed, or of an operation that
    /// is not replayed.
    Ignored,
}

/// What a log line asks of a replay, with its strings taken as character
/// sequences.
pub enum LogRecordView {
    Write { key: Seq<char>, value: Seq<char> },
    Remove { key: Seq<char> },
    Ignored,
}

impl View for LogRecord {
    type V = LogRecordView;

    open spec fn view(&self) -> LogRecordView {
        match self {
            LogRecord::Write { key, value } => LogRecordView::Write { key: key@, value: value@ },
            LogRecord::Remove { key } => LogRecordView::Remove { key: key@ },
            LogRecord::Ignored => LogRecordView::Ignored,
        }
    }
}

pub open spec fn op_set() -> Seq<char> {
    seq!['S', 'E', 'T']
}

pub open spec fn op_setex() -> Seq<char> {
    seq!['S', 'E', 'T', 'E', 'X']
}

pub open spec fn op_del() -> Seq<char> {
    seq!['D', 'E', 'L']
}

/// What a log line asks of a replay: with fewer than three fields, nothing;
/// `SET` with exactly four fields writes the fourth as the value of the
/// third; `DEL` deletes the third; any other operation is not replayed.
pub open spec fn record_of_line(line: Seq<char>) -> LogRecordView {
    let f = split_bars(line);
    if f.len() < 3 {
        LogRecordView::Ignored
    } else if f[1] == op_set() {
        if f.len() != 4 {
            LogRecordView::Ignored
        } else {
            LogRecordView::Write { key: f[2], value: f[3] }
        }
    } else if f[1] == op_del() {
        LogRecordView::Remove { key: f[2] }
    } else {
        LogRecordView::Ignored
    }
}

proof fn lemma_split_bars_nonempty(s: Seq<char>)
    ensures
        split_bars(s).len() >= 1,
    decreases s.len(),
{
    if s.len() > 0 {
        lemma_split_bars_nonempty(s.drop_last());
    }
}

/// Splits a line at its `|` characters.
fn split_fields(line: &str) -> (out: Vec<String>)
    ensures
        crate::text::views(out@) == split_bars(line@),
{
    let cs = chars_of(line);
    let mut done: Vec<String> = Vec::new();
    let mut cur: Vec<char> = Vec::new();
    let mut i: usize = 0;
    assert(cs@.take(0) =~= Seq::<char>::empty());
    while i < cs.len()
        invariant
            cs@ == line@,
            i <= cs@.len(),
            crate::text::views(done@).push(cur@) == split_bars(cs@.take(i as int)),
        decreases cs@.len() - i,
    {
        let c = cs[i];
        let ghost prev = cs@.take(i as int);
        assert(cs@.take(i + 1).drop_last() =~= prev);
        proof {
            lemma_split_bars_nonempty(prev);
        }
        if c == '|' {
            let ghost before = done@;
            let w = string_of(&cur);
            done.push(w);
            cur = Vec::new();
            assert(crate::text::views(done@).push(cur@) =~= crate::text::views(before).push(
                w@,
            ).push(Seq::empty()));
        } else {
            let ghost old_cur = cur@;
            cur.push(c);
            assert(crate::text::views(done@).push(cur@) =~= crate::text::views(done@).push(
                old_cur,
            ).update(done@.len() as int, old_cur.push(c)));
        }
        i = i + 1;
    }
    assert(cs@.take(cs@.len() as int) =~= cs@);
    let ghost before = done@;
    let w = string_of(&cur);
    done.push(w);
    assert(crate::text::views(done@) =~= crate::text::views(before).push(cur@));
    done
}

/// Reads what a log line (without its line break) asks of a replay.
pub fn parse_record(line: &str) -> (r: LogRecord)
    ensures
        r@ == record_of_line(line@),
{
    proof {
        reveal_strlit("SET");
        reveal_strlit("DEL");
        assert("SET"@ =~= op_set());
        assert("DEL"@ =~= op_del());
    }
    let f = split_fields(line);
    if f.len() < 3 {
        return LogRecord::Ignored;
    }
    if same_text(f[1].as_str(), "SET") {
        if f.len() != 4 {
            return LogRecord::Ignored;
        }
        LogRecord::Write { key: f[2].clone(), value: f[3].clone() }
    } else if same_text(f[1].as_str(), "DEL") {
        LogRecord::Remove { key: f[2].clone() }
    } else {
        LogRecord::Ignored
    }
}

/// The store after a replay of a record.
pub open spec fn replay(v: EngineView, r: LogRecordView) -> EngineView {
    match r {
        LogRecordView::Write { key, value } => v.set(key, value),
        LogRecordView::Remove { key } => v.delete(key),
        LogRecordView::Ignored => v,
    }
}

/// Replays one log line (without its line break) into the store.
pub fn replay_line(engine: &mut Engine, line: &str)
    requires
        old(engine).wf(),
    ensures
        final(engine).wf(),
        final(engine)@ == replay(old(engine)@, record_of_line(line@)),
{
    match parse_record(line) {
        LogRecord::Write { key, value } => engine.recover_set(key, value),
        LogRecord::Remove { key } => engine.recover_delete(key.as_str()),
        LogRecord::Ignored => {},
    }
}

// ---------------------------------------------------------------------------
// Laws
// ---------------------------------------------------------------------------

/// `s` holds no `|`.
pub open spec fn bar_free(s: Seq<char>) -> bool {
    forall|i: int| 0 <= i < s.len() ==> s[i] != '|'
}

proof fn lemma_split_bars_plain(x: Seq<char>)
    requires
        bar_free(x),
    ensures
        split_bars(x) == seq![x],
    decreases x.len(),
{
    if x.len() > 0 {
        lemma_split_bars_plain(x.drop_last());
        assert(x.drop_last().push(x.last()) =~= x);
    } else {
        assert(x =~= Seq::<char>::empty());
    }
}

proof fn lemma_split_bars_concat(x: Seq<char>, y: Seq<char>)
    ensures
        split_bars(x + seq!['|'] + y) == split_bars(x) + split_bars(y),
    decreases y.len(),
{
    lemma_split_bars_nonempty(x);
    if y.len() == 0 {
        assert(x + seq!['|'] + y =~= x.push('|'));
        assert((x + seq!['|'] + y).drop_last() =~= x);
        assert(split_bars(x) + split_bars(y) =~= split_bars(x).push(Seq::empty()));
    } else {
        let y0 = y.drop_last();
        lemma_split_bars_concat(x, y0);
        lemma_split_bars_nonempty(y0);
        let whole = x + seq!['|'] + y;
        assert(whole.drop_last() =~= x + seq!['|'] + y0);
        assert(whole.last() == y.last());
        if y.last() == '|' {
            assert(split_bars(whole) =~= split_bars(x) + split_bars(y));
        } else {
            let f = split_bars(y0);
            assert((split_bars(x) + f).update(
                split_bars(x).len() + f.len() - 1,
                f.last().push(y.last()),
            ) =~= split_bars(x) + f.update(f.len() - 1, f.last().push(y.last())));
        }
    }
}

proof fn lemma_decimal_digits(n: nat)
    ensures
        forall|i: int| 0 <= i < decimal(n).len() ==> is_digit(#[trigger] decimal(n)[i]),
    decreases n,
{
    let c = crate::text::digit_char(n % 10);
    assert(c as u32 == (n % 10) + 0x30);
    if n >= 10 {
        lemma_decimal_digits(n / 10);
        let d = decimal(n / 10);
        assert forall|i: int| 0 <= i < decimal(n).len() implies is_digit(#[trigger] decimal(n)[i]) by {
            if i < d.len() {
                assert(decimal(n)[i] == d[i]);
            }
        }
    }
}

proof fn lemma_timestamp_bar_free(t: i64)
    ensures
        bar_free(signed_decimal(t as int)),
{
    if t < 0 {
        lemma_decimal_digits((-t) as nat);
        let d = decimal((-t) as nat);
        assert forall|i: int| 0 <= i < signed_decimal(t as int).len() implies signed_decimal(
            t as int,
        )[i] != '|' by {
            if i > 0 {
                assert(signed_decimal(t as int)[i] == d[i - 1]);
            }
        }
    } else {
        lemma_decimal_digits(t as nat);
    }
}

/// The fields of a record line whose operation, key and value hold no `|`
/// are those four (or three, without a value).
pub proof fn law_record_fields(
    timestamp: i64,
    operation: Seq<char>,
    key: Seq<char>,
    value: Option<Seq<char>>,
)
    requires
        bar_free(operation),
        bar_free(key),
        value matches Some(v) ==> bar_free(v),
    ensures
        split_bars(record_line(timestamp, operation, key, value)) == (match value {
            Some(v) => seq![signed_decimal(timestamp as int), operation, key, v],
            None => seq![signed_decimal(timestamp as int), operation, key],
        }),
{
    let ts = signed_decimal(timestamp as int);
    lemma_timestamp_bar_free(timestamp);
    lemma_split_bars_plain(ts);
    lemma_split_bars_plain(operation);
    lemma_split_bars_plain(key);
    let a = ts + seq!['|'] + operation;
    lemma_split_bars_concat(ts, operation);
    let b = a + seq!['|'] + key;
    lemma_split_bars_concat(a, key);
    match value {
        Some(v) => {
            lemma_split_bars_plain(v);
            lemma_split_bars_concat(b, v);
            assert(split_bars(b + seq!['|'] + v) =~= seq![ts, operation, key, v]);
        },
        None => {
            assert(split_bars(b) =~= seq![ts, operation, key]);
        },
    }
}

/// A logged `SET` of a key and value without `|` is replayed as that write;
/// a logged `DEL` as that delete; a logged `SETEX` is not replayed.
pub proof fn law_records_replay(
    v: EngineView,
    timestamp: i64,
    key: Seq<char>,
    value: Seq<char>,
)
    requires
        bar_free(key),
        bar_free(value),
    ensures
        record_of_line(record_line(timestamp, op_set(), key, Some(value)))
            == (LogRecordView::Write { key, value }),
        replay(v, record_of_line(record_line(timestamp, op_set(), key, Some(value)))) == v.set(
            key,
            value,
        ),
        record_of_line(record_line(timestamp, op_del(), key, None)) == (LogRecordView::Remove {
            key,
        }),
        replay(v, record_of_line(record_line(timestamp, op_del(), key, None))) == v.delete(key),
        record_of_line(record_line(timestamp, op_setex(), key, Some(value)))
            == LogRecordView::Ignored,
{
    law_record_fields(timestamp, op_set(), key, Some(value));
    law_record_fields(timestamp, op_del(), key, None);
    law_record_fields(timestamp, op_setex(), key, Some(value));
    assert(op_setex() != op_set());
    assert(op_setex() != op_del());
    assert(op_set() != op_del());
}

/// The log line of a write or a delete.
pub open spec fn line_of(timestamp: i64, r: LogRecordView) -> Seq<char> {
    match r {
        LogRecordView::Write { key, value } => record_line(timestamp, op_set(), key, Some(value)),
        LogRecordView::Remove { key } => record_line(timestamp, op_del(), key, None),
        LogRecordView::Ignored => Seq::empty(),
    }
}

/// The store after replaying the lines one after the other.
pub open spec fn replay_lines(v: EngineView, lines: Seq<Seq<char>>) -> EngineView
    decreases lines.len(),
{
    if lines.len() == 0 {
        v
    } else {
        replay(replay_lines(v, lines.drop_last()), record_of_line(lines.last()))
    }
}

/// The store after applying the writes and deletes one after the other.
pub open spec fn apply_all(v: EngineView, rs: Seq<LogRecordView>) -> EngineView
    decreases rs.len(),
{
    if rs.len() == 0 {
        v
    } else {
        replay(apply_all(v, rs.drop_last()), rs.last())
    }
}

/// A write or a delete whose key and value hold no `|`.
pub open spec fn loggable(r: LogRecordView) -> bool {
    match r {
        LogRecordView::Write { key, value } => bar_free(key) && bar_free(value),
        LogRecordView::Remove { key } => bar_free(key),
        LogRecordView::Ignored => false,
    }
}

/// Replaying the log of a run of writes and deletes gives the store that
/// the run gave.
pub proof fn law_replay_log(v: EngineView, rs: Seq<LogRecordView>, timestamps: Seq<i64>)
    requires
        timestamps.len() == rs.len(),
        forall|i: int| 0 <= i < rs.len() ==> loggable(#[trigger] rs[i]),
    ensures
        replay_lines(v, Seq::new(rs.len(), |i: int| line_of(timestamps[i], rs[i]))) == apply_all(
            v,
            rs,
        ),
    decreases rs.len(),
{
    let lines = Seq::new(rs.len(), |i: int| line_of(timestamps[i], rs[i]));
    if rs.len() > 0 {
        let n = rs.len() - 1;
        law_replay_log(v, rs.drop_last(), timestamps.drop_last());
        assert(lines.drop_last() =~= Seq::new(
            rs.drop_last().len(),
            |i: int| line_of(timestamps.drop_last()[i], rs.drop_last()[i]),
        ));
        let r = rs[n];
        assert(loggable(r));
        let w = apply_all(v, rs.drop_last());
        match r {
            LogRecordView::Write { key, value } => {
                law_records_replay(w, timestamps[n], key, value);
            },
            LogRecordView::Remove { key } => {
                law_records_replay(w, timestamps[n], key, Seq::empty());
            },
            LogRecordView::Ignored => {},
        }
    }
}

} // verus!
