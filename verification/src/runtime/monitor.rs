//! Execution metrics and a bounded history of telemetry snapshots.
use vstd::prelude::*;
use crate::core_types::id::NodeId;
use crate::core_types::time::LogicalTime;

verus! {

#[verifier::external_type_specification]
#[verifier::external_body]
pub struct ExInstant(std::time::Instant);

/// A copy of a duration.
///
/// `Duration` is `Copy`, and its `clone` returns the same value.
pub assume_specification[<std::time::Duration as std::clone::Clone>::clone](d: &std::time::Duration) -> (r: std::time::Duration)
    ensures
        r == *d,
;

/// The current instant of the monotonic clock.
///
/// Calls `Instant::now`; the value depends on the clock and nothing is
/// stated of it.
#[verifier::external_body]
pub(crate) fn instant_now() -> (i: std::time::Instant) {
    std::time::Instant::now()
}

/// The time since `start`.
///
/// Calls `Instant::elapsed`; the value depends on the clock and nothing is
/// stated of it.
#[verifier::external_body]
pub(crate) fn elapsed_since(start: &std::time::Instant) -> (d: std::time::Duration) {
    start.elapsed()
}

/// Counters of an execution.
#[derive(Debug, Clone, Copy, PartialEq, Eq, Structural)]
pub struct Metrics {
    pub nodes_executed: u64,
    pub nodes_completed: u64,
    pub nodes_failed: u64,
    pub nodes_skipped: u64,
    /// Logical ticks elapsed.
    pub total_ticks: u64,
    pub events_generated: u64,
}

/// All counters at zero.
pub open spec fn zero_metrics() -> Metrics {
    Metrics {
        nodes_executed: 0,
        nodes_completed: 0,
        nodes_failed: 0,
        nodes_skipped: 0,
        total_ticks: 0,
        events_generated: 0,
    }
}

impl Metrics {
    /// All counters at zero.
    pub fn new() -> (m: Self)
        ensures
            m == zero_metrics(),
    {
        Metrics {
            nodes_executed: 0,
            nodes_completed: 0,
            nodes_failed: 0,
            nodes_skipped: 0,
            total_ticks: 0,
            events_generated: 0,
        }
    }

    /// Counts an executed node.
    pub fn record_execution(&mut self)
        requires
            old(self).nodes_executed < u64::MAX,
        ensures
            *final(self) == (Metrics { nodes_executed: (old(self).nodes_executed + 1) as u64, ..*old(self) }),
    {
        self.nodes_executed = self.nodes_executed + 1;
    }

    /// Counts a completed node.
    pub fn record_completion(&mut self)
        requires
            old(self).nodes_completed < u64::MAX,
        ensures
            *final(self) == (Metrics { nodes_completed: (old(self).nodes_completed + 1) as u64, ..*old(self) }),
    {
        self.nodes_completed = self.nodes_completed + 1;
    }

    /// Counts a failed node.
    pub fn record_failure(&mut self)
        requires
            old(self).nodes_failed < u64::MAX,
        ensures
            *final(self) == (Metrics { nodes_failed: (old(self).nodes_failed + 1) as u64, ..*old(self) }),
    {
        self.nodes_failed = self.nodes_failed + 1;
    }

    /// Counts a skipped node.
    pub fn record_skip(&mut self)
        requires
            old(self).nodes_skipped < u64::MAX,
        ensures
            *final(self) == (Metrics { nodes_skipped: (old(self).nodes_skipped + 1) as u64, ..*old(self) }),
    {
        self.nodes_skipped = self.nodes_skipped + 1;
    }

    /// Counts a tick.
    pub fn record_tick(&mut self)
        requires
            old(self).total_ticks < u64::MAX,
        ensures
            *final(self) == (Metrics { total_ticks: (old(self).total_ticks + 1) as u64, ..*old(self) }),
    {
        self.total_ticks = self.total_ticks + 1;
    }

    /// Counts an event.
    pub fn record_event(&mut self)
        requires
            old(self).events_generated < u64::MAX,
        ensures
            *final(self) == (Metrics { events_generated: (old(self).events_generated + 1) as u64, ..*old(self) }),
    {
        self.events_generated = self.events_generated + 1;
    }

    /// Sets every counter back to zero.
    pub fn reset(&mut self)
        ensures
            *final(self) == zero_metrics(),
    {
        *self = Metrics::new();
    }
}

impl Default for Metrics {
    fn default() -> (m: Self)
        ensures
            m == zero_metrics(),
    {
        Metrics::new()
    }
}

/// A snapshot of an execution.
#[derive(Debug, Clone)]
pub struct Telemetry {
    /// Wall-clock time since the monitor started.
    pub timestamp: std::time::Duration,
    pub logical_time: LogicalTime,
    pub metrics: Metrics,
    pub executing_nodes: Vec<NodeId>,
    pub backpressure_active: bool,
}

impl Telemetry {
    /// A snapshot from its parts.
    pub fn new(
        timestamp: std::time::Duration,
        logical_time: LogicalTime,
        metrics: Metrics,
        executing_nodes: Vec<NodeId>,
        backpressure_active: bool,
    ) -> (t: Self)
        ensures
            t.timestamp == timestamp,
            t.logical_time == logical_time,
            t.metrics == metrics,
            t.executing_nodes == executing_nodes,
            t.backpressure_active == backpressure_active,
    {
        Telemetry { timestamp, logical_time, metrics, executing_nodes, backpressure_active }
    }

    /// A copy of the snapshot.
    fn duplicate(&self) -> (t: Self)
        ensures
            t.timestamp == self.timestamp,
            t.logical_time == self.logical_time,
            t.metrics == self.metrics,
            t.executing_nodes@ == self.executing_nodes@,
            t.backpressure_active == self.backpressure_active,
    {
        let mut nodes: Vec<NodeId> = Vec::new();
        let mut i: usize = 0;
        while i < self.executing_nodes.len()
            invariant
                i <= self.executing_nodes@.len(),
                nodes@ == self.executing_nodes@.take(i as int),
            decreases self.executing_nodes@.len() - i,
        {
            nodes.push(self.executing_nodes[i]);
            i = i + 1;
            assert(nodes@ =~= self.executing_nodes@.take(i as int));
        }
        assert(self.executing_nodes@.take(self.executing_nodes@.len() as int) =~= self.executing_nodes@);
        Telemetry {
            timestamp: self.timestamp,
            logical_time: self.logical_time,
            metrics: self.metrics,
            executing_nodes: nodes,
            backpressure_active: self.backpressure_active,
        }
    }
}

/// Metrics and the most recent telemetry snapshots, at most `max_history`.
pub struct ExecutionMonitor {
    metrics: Metrics,
    start_time: std::time::Instant,
    telemetry_history: Vec<Telemetry>,
    max_history: usize,
}

impl ExecutionMonitor {
    /// The snapshots kept, oldest first.
    pub closed spec fn kept(&self) -> Seq<Telemetry> {
        self.telemetry_history@
    }

    /// The current metrics.
    pub closed spec fn spec_metrics(&self) -> Metrics {
        self.metrics
    }

    /// The most snapshots kept.
    pub closed spec fn bound(&self) -> usize {
        self.max_history
    }

    /// The most snapshots kept.
    pub fn max_history(&self) -> (n: usize)
        ensures
            n == self.bound(),
    {
        self.max_history
    }

    /// A monitor started now, with zero metrics and no snapshots.
    pub fn new(max_history: usize) -> (m: Self)
        ensures
            m.bound() == max_history,
            m.spec_metrics() == zero_metrics(),
            m.kept().len() == 0,
    {
        ExecutionMonitor {
            metrics: Metrics::new(),
            start_time: instant_now(),
            telemetry_history: Vec::new(),
            max_history,
        }
    }

    /// The current metrics.
    pub fn metrics(&self) -> (m: &Metrics)
        ensures
            *m == self.spec_metrics(),
    {
        &self.metrics
    }

    /// The current metrics, for updating.
    pub fn metrics_mut(&mut self) -> (m: &mut Metrics)
        ensures
            *m == old(self).spec_metrics(),
            final(self).spec_metrics() == *final(m),
            final(self).kept() == old(self).kept(),
            final(self).bound() == old(self).bound(),
    {
        &mut self.metrics
    }

    /// Takes a snapshot of the current metrics at `logical_time`, keeps it
    /// in the history, and returns it.
    pub fn capture_telemetry(
        &mut self,
        logical_time: LogicalTime,
        executing_nodes: Vec<NodeId>,
        backpressure: bool,
    ) -> (t: Telemetry)
        ensures
            t.logical_time == logical_time,
            t.metrics == old(self).spec_metrics(),
            t.executing_nodes == executing_nodes,
            t.backpressure_active == backpressure,
            final(self).spec_metrics() == old(self).spec_metrics(),
            final(self).bound() == old(self).bound(),
            final(self).kept() == spec_bounded_push(old(self).kept(), final(self).kept().last(), old(self).bound()),
            final(self).kept().len() > 0 ==> final(self).kept().last().logical_time == logical_time,
    {
        let telemetry = Telemetry::new(
            elapsed_since(&self.start_time),
            logical_time,
            self.metrics,
            executing_nodes,
            backpressure,
        );
        let copy = telemetry.duplicate();
        self.add_telemetry(copy);
        telemetry
    }

    /// Appends a snapshot, dropping the oldest when the history is over its bound.
    fn add_telemetry(&mut self, telemetry: Telemetry)
        ensures
            final(self).kept() == spec_bounded_push(old(self).kept(), telemetry, old(self).bound()),
            final(self).spec_metrics() == old(self).spec_metrics(),
            final(self).bound() == old(self).bound(),
    {
        self.telemetry_history.push(telemetry);
        if self.telemetry_history.len() > self.max_history {
            self.telemetry_history.remove(0);
        }
    }

    /// The snapshots kept, oldest first.
    pub fn history(&self) -> (h: &[Telemetry])
        ensures
            h@ == self.kept(),
    {
        self.telemetry_history.as_slice()
    }

    /// Zero metrics, a restarted clock and no snapshots.
    pub fn reset(&mut self)
        ensures
            final(self).spec_metrics() == zero_metrics(),
            final(self).kept().len() == 0,
            final(self).bound() == old(self).bound(),
    {
        self.metrics.reset();
        self.start_time = instant_now();
        self.telemetry_history.clear();
    }
}

/// The history after appending `t` and dropping the oldest snapshot when
/// the history is then longer than `max`.
pub open spec fn spec_bounded_push(h: Seq<Telemetry>, t: Telemetry, max: usize) -> Seq<Telemetry> {
    let h2 = h.push(t);
    if h2.len() > max {
        h2.remove(0)
    } else {
        h2
    }
}

/// A history that starts within its bound stays within it.
pub proof fn lemma_history_bounded(h: Seq<Telemetry>, t: Telemetry, max: usize)
    requires
        h.len() <= max,
    ensures
        spec_bounded_push(h, t, max).len() <= max,
{
}

impl Default for ExecutionMonitor {
    fn default() -> (m: Self)
        ensures
            m.bound() == 1000,
            m.spec_metrics() == zero_metrics(),
            m.kept().len() == 0,
    {
        ExecutionMonitor::new(1000)
    }
}

} // verus!
