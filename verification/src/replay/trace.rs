//! Traces: the recorded events of a run, read back in order.
use vstd::prelude::*;
use std::collections::VecDeque;
use crate::core_types::error::CoreError;
use crate::core_types::id::{EventId, NodeId};
use crate::core_types::time::LogicalTime;

verus! {

/// What a trace event records.
#[derive(Debug, Clone, PartialEq, Eq)]
pub enum TraceEventKind {
    NodeStarted,
    NodeCompleted,
    NodeFailed { exit_code: i32 },
    OutputProduced,
    SideEffect { effect: String },
    CapabilityCheck { capability: String, allowed: bool },
    Snapshot,
}

/// One event of a trace.
#[derive(Debug, Clone, PartialEq, Eq)]
pub struct TraceEvent {
    pub id: EventId,
    pub time: LogicalTime,
    pub node_id: NodeId,
    pub kind: TraceEventKind,
    pub data: Vec<u8>,
    pub parent_id: Option<EventId>,
}

/// The error when a trace has no event left.
pub open spec fn is_trace_exhausted(e: CoreError) -> bool {
    e matches CoreError::Validation { field, reason } && field@ == "trace"@ && reason@ == "No more events in trace"@
}

/// A reader over the events of a trace.
pub struct TraceReader {
    buffer: VecDeque<TraceEvent>,
    position: usize,
    total: usize,
    time: LogicalTime,
}

impl TraceReader {
    /// The events not yet read, in order.
    pub closed spec fn buffer_spec(&self) -> Seq<TraceEvent> {
        self.buffer@
    }

    /// The position counter.
    pub closed spec fn position_spec(&self) -> usize {
        self.position
    }

    /// The number of events the trace started with.
    pub closed spec fn total_spec(&self) -> usize {
        self.total
    }

    /// A reader with no events.
    pub fn new() -> (r: Self)
        ensures
            r.buffer_spec().len() == 0,
            r.position_spec() == 0,
            r.total_spec() == 0,
    {
        TraceReader { buffer: VecDeque::new(), position: 0, total: 0, time: LogicalTime::zero() }
    }

    /// A reader at the first of `events`.
    pub fn from_events(events: Vec<TraceEvent>) -> (r: Self)
        ensures
            r.buffer_spec() == events@,
            r.position_spec() == 0,
            r.total_spec() == events@.len(),
    {
        let total = events.len();
        let mut buffer: VecDeque<TraceEvent> = VecDeque::new();
        let mut events = events;
        let ghost all = events@;
        while events.len() > 0
            invariant
                buffer@ + events@ == all,
            decreases events@.len(),
        {
            let ghost before = events@;
            let e = events.remove(0);
            buffer.push_back(e);
            assert(buffer@ + events@ =~= all) by {
                assert(before =~= seq![e] + events@);
            }
        }
        proof {
            assert(buffer@ =~= all);
        }
        TraceReader { buffer, position: 0, total, time: LogicalTime::zero() }
    }

    /// Takes the next event; with none left, the error says so.
    pub fn next_event(&mut self) -> (r: Result<TraceEvent, CoreError>)
        ensures
            old(self).buffer_spec().len() == 0 ==> (r matches Err(e) && is_trace_exhausted(e)
                && final(self).buffer_spec() == old(self).buffer_spec()),
            old(self).buffer_spec().len() > 0 ==> (r matches Ok(ev) && ev == old(self).buffer_spec()[0]
                && final(self).buffer_spec() == old(self).buffer_spec().drop_first()),
            final(self).position_spec() == old(self).position_spec(),
            final(self).total_spec() == old(self).total_spec(),
    {
        match self.buffer.pop_front() {
            Some(e) => {
                assert(old(self).buffer_spec().subrange(1, old(self).buffer_spec().len() as int)
                    =~= old(self).buffer_spec().drop_first());
                Ok(e)
            },
            None => Err(
                CoreError::Validation { field: "trace".to_owned(), reason: "No more events in trace".to_owned() },
            ),
        }
    }

    /// The next event, left in place; with none left, the error says so.
    pub fn peek_event(&self) -> (r: Result<&TraceEvent, CoreError>)
        ensures
            self.buffer_spec().len() == 0 ==> (r matches Err(e) && is_trace_exhausted(e)),
            self.buffer_spec().len() > 0 ==> r == Ok::<&TraceEvent, CoreError>(&self.buffer_spec()[0]),
    {
        if self.buffer.len() == 0 {
            return Err(
                CoreError::Validation { field: "trace".to_owned(), reason: "No more events in trace".to_owned() },
            );
        }
        Ok(&self.buffer[0])
    }

    /// Whether events remain.
    pub fn has_more(&self) -> (b: bool)
        ensures
            b == (self.buffer_spec().len() > 0),
    {
        self.buffer.len() > 0
    }

    /// The number of events left.
    pub fn remaining(&self) -> (n: usize)
        ensures
            n == self.buffer_spec().len(),
    {
        self.buffer.len()
    }

    /// The position counter.
    pub fn position(&self) -> (p: usize)
        ensures
            p == self.position_spec(),
    {
        self.position
    }

    /// The number of events the trace started with.
    pub fn total(&self) -> (n: usize)
        ensures
            n == self.total_spec(),
    {
        self.total
    }

    /// Sets the position counter and the time back to zero; the events left
    /// stay as they are.
    pub fn reset(&mut self)
        ensures
            final(self).position_spec() == 0,
            final(self).buffer_spec() == old(self).buffer_spec(),
            final(self).total_spec() == old(self).total_spec(),
    {
        self.position = 0;
        self.time = LogicalTime::zero();
    }

    /// Sets the position counter to `pos`, at most the total.
    pub fn seek(&mut self, pos: usize) -> (r: Result<(), CoreError>)
        ensures
            pos > old(self).total_spec() ==> (r matches Err(CoreError::Validation { field, reason }) && field@
                == "position"@ && reason@ == "Position "@ + crate::core_types::text::spec_decimal(pos as nat)
                + " exceeds total "@ + crate::core_types::text::spec_decimal(old(self).total_spec() as nat)
                && final(self).position_spec() == old(self).position_spec()),
            pos <= old(self).total_spec() ==> r is Ok && final(self).position_spec() == pos,
            final(self).buffer_spec() == old(self).buffer_spec(),
            final(self).total_spec() == old(self).total_spec(),
    {
        if pos > self.total {
            let p = crate::core_types::text::usize_to_decimal(pos);
            let t = crate::core_types::text::usize_to_decimal(self.total);
            let a = crate::core_types::error::cat4("Position ", p.as_str(), " exceeds total ", t.as_str());
            return Err(CoreError::Validation { field: "position".to_owned(), reason: a });
        }
        self.position = pos;
        Ok(())
    }

    /// Like an iterator's `next`: the next event, counting the position up,
    /// or nothing at the end.
    pub fn next(&mut self) -> (r: Option<Result<TraceEvent, CoreError>>)
        requires
            old(self).position_spec() < usize::MAX,
        ensures
            old(self).buffer_spec().len() == 0 ==> r is None && final(self).buffer_spec() == old(
                self,
            ).buffer_spec() && final(self).position_spec() == old(self).position_spec(),
            old(self).buffer_spec().len() > 0 ==> (r matches Some(Ok(ev)) && ev == old(self).buffer_spec()[0])
                && final(self).buffer_spec() == old(self).buffer_spec().drop_first() && final(self).position_spec()
                == old(self).position_spec() + 1,
            final(self).total_spec() == old(self).total_spec(),
    {
        if self.has_more() {
            self.position = self.position + 1;
            Some(self.next_event())
        } else {
            None
        }
    }
}

impl Default for TraceReader {
    /// A reader with no events.
    fn default() -> (r: Self)
        ensures
            r.buffer_spec().len() == 0,
    {
        TraceReader::new()
    }
}

} // verus!
