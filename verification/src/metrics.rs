//! Counters of connections and commands.
use vstd::prelude::*;

verus! {

/// The counters.
#[derive(Clone, Copy, Debug)]
pub struct MetricsData {
    pub total_connections: usize,
    pub active_connections: usize,
    pub total_commands: usize,
    pub total_reads: usize,
    pub total_writes: usize,
}

impl Default for MetricsData {
    fn default() -> (d: MetricsData)
        ensures
            d == MetricsData::zero(),
    {
        MetricsData {
            total_connections: 0,
            active_connections: 0,
            total_commands: 0,
            total_reads: 0,
            total_writes: 0,
        }
    }
}

impl MetricsData {
    /// All counters at zero.
    pub open spec fn zero() -> MetricsData {
        MetricsData {
            total_connections: 0,
            active_connections: 0,
            total_commands: 0,
            total_reads: 0,
            total_writes: 0,
        }
    }

    /// No more connections are open than were ever opened.
    pub open spec fn consistent(self) -> bool {
        self.active_connections <= self.total_connections
    }

    /// A connection was opened.
    pub open spec fn opened(self) -> MetricsData {
        MetricsData {
            total_connections: (self.total_connections + 1) as usize,
            active_connections: (self.active_connections + 1) as usize,
            ..self
        }
    }

    /// A connection was closed; the count of open ones stays at zero if it
    /// is there.
    pub open spec fn closed(self) -> MetricsData {
        MetricsData {
            active_connections: if self.active_connections > 0 {
                (self.active_connections - 1) as usize
            } else {
                0
            },
            ..self
        }
    }

    /// A command was run.
    pub open spec fn executed(self) -> MetricsData {
        MetricsData { total_commands: (self.total_commands + 1) as usize, ..self }
    }

    /// A read was made.
    pub open spec fn read(self) -> MetricsData {
        MetricsData { total_reads: (self.total_reads + 1) as usize, ..self }
    }

    /// A write was made.
    pub open spec fn written(self) -> MetricsData {
        MetricsData { total_writes: (self.total_writes + 1) as usize, ..self }
    }
}

/// The counters of a server.
pub struct Metrics {
    inner: MetricsData,
}

impl View for Metrics {
    type V = MetricsData;

    closed spec fn view(&self) -> MetricsData {
        self.inner
    }
}

impl Metrics {
    /// All counters at zero.
    pub fn new() -> (m: Metrics)
        ensures
            m@ == MetricsData::zero(),
            m@.consistent(),
    {
        Metrics { inner: MetricsData::default() }
    }

    /// Counts a connection that was opened.
    pub fn connection_opened(&mut self)
        requires
            old(self)@.total_connections < usize::MAX,
            old(self)@.active_connections < usize::MAX,
        ensures
            final(self)@ == old(self)@.opened(),
    {
        self.inner.total_connections += 1;
        self.inner.active_connections += 1;
    }

    /// Counts a connection that was closed.
    pub fn connection_closed(&mut self)
        ensures
            final(self)@ == old(self)@.closed(),
    {
        if self.inner.active_connections > 0 {
            self.inner.active_connections -= 1;
        }
    }

    /// Counts a command.
    pub fn command_executed(&mut self)
        requires
            old(self)@.total_commands < usize::MAX,
        ensures
            final(self)@ == old(self)@.executed(),
    {
        self.inner.total_commands += 1;
    }

    /// Counts a read.
    pub fn read_operation(&mut self)
        requires
            old(self)@.total_reads < usize::MAX,
        ensures
            final(self)@ == old(self)@.read(),
    {
        self.inner.total_reads += 1;
    }

    /// Counts a write.
    pub fn write_operation(&mut self)
        requires
            old(self)@.total_writes < usize::MAX,
        ensures
            final(self)@ == old(self)@.written(),
    {
        self.inner.total_writes += 1;
    }

    /// The counters as they are now.
    pub fn snapshot(&self) -> (d: MetricsData)
        ensures
            d == self@,
    {
        MetricsData {
            total_connections: self.inner.total_connections,
            active_connections: self.inner.active_connections,
            total_commands: self.inner.total_commands,
            total_reads: self.inner.total_reads,
            total_writes: self.inner.total_writes,
        }
    }
}

/// Every counter update keeps the number of open connections at most the
/// number ever opened.
pub proof fn law_active_within_total(d: MetricsData)
    requires
        d.consistent(),
    ensures
        d.total_connections < usize::MAX ==> d.opened().consistent(),
        d.closed().consistent(),
        d.total_commands < usize::MAX ==> d.executed().consistent(),
        d.total_reads < usize::MAX ==> d.read().consistent(),
        d.total_writes < usize::MAX ==> d.written().consistent(),
        MetricsData::zero().consistent(),
{
}

/// Closing a connection never takes the count of open ones below zero, and
/// a close after an open gives the count back.
pub proof fn law_close_undoes_open(d: MetricsData)
    requires
        d.total_connections < usize::MAX,
        d.active_connections < usize::MAX,
    ensures
        d.opened().closed().active_connections == d.active_connections,
        MetricsData::zero().closed() == MetricsData::zero(),
{
}

/// One update of the counters.
#[derive(PartialEq, Eq, Clone, Copy, Debug)]
pub enum CounterEvent {
    Opened,
    Closed,
    Executed,
    Read,
    Written,
}

/// The counters after one update.
pub open spec fn apply_event(d: MetricsData, e: CounterEvent) -> MetricsData {
    match e {
        CounterEvent::Opened => d.opened(),
        CounterEvent::Closed => d.closed(),
        CounterEvent::Executed => d.executed(),
        CounterEvent::Read => d.read(),
        CounterEvent::Written => d.written(),
    }
}

/// The counters after the updates, one after the other.
pub open spec fn apply_events(d: MetricsData, evs: Seq<CounterEvent>) -> MetricsData
    decreases evs.len(),
{
    if evs.len() == 0 {
        d
    } else {
        apply_event(apply_events(d, evs.drop_last()), evs.last())
    }
}

/// How many of the updates are `e`.
pub open spec fn count_of(evs: Seq<CounterEvent>, e: CounterEvent) -> nat
    decreases evs.len(),
{
    if evs.len() == 0 {
        0
    } else {
        count_of(evs.drop_last(), e) + if evs.last() == e {
            1nat
        } else {
            0nat
        }
    }
}

/// Starting from zero, each total counts the updates of its kind, and no
/// more connections are open than were opened (as long as no total passes
/// `usize::MAX`).
pub proof fn law_counters_count(evs: Seq<CounterEvent>)
    requires
        count_of(evs, CounterEvent::Opened) <= usize::MAX,
        count_of(evs, CounterEvent::Executed) <= usize::MAX,
        count_of(evs, CounterEvent::Read) <= usize::MAX,
        count_of(evs, CounterEvent::Written) <= usize::MAX,
    ensures
        apply_events(MetricsData::zero(), evs).total_connections == count_of(
            evs,
            CounterEvent::Opened,
        ),
        apply_events(MetricsData::zero(), evs).total_commands == count_of(
            evs,
            CounterEvent::Executed,
        ),
        apply_events(MetricsData::zero(), evs).total_reads == count_of(evs, CounterEvent::Read),
        apply_events(MetricsData::zero(), evs).total_writes == count_of(
            evs,
            CounterEvent::Written,
        ),
        apply_events(MetricsData::zero(), evs).consistent(),
    decreases evs.len(),
{
    if evs.len() > 0 {
        law_counters_count(evs.drop_last());
    }
}

} // verus!
