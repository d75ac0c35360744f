//! Recorded runs: the seed, tick budget and event sequence of one execution.
use vstd::prelude::*;
use crate::core_types::id::NodeId;
use crate::core_types::text::str_eq;

verus! {

/// One recorded event: its tick, the node that produced it and a description.
#[derive(Debug, Clone, PartialEq, Eq)]
pub struct RecordedEvent {
    pub tick: u64,
    pub node_id: NodeId,
    pub description: String,
}

/// Plain view of a recorded event.
pub type RecordedEventView = (u64, NodeId, Seq<char>);

impl View for RecordedEvent {
    type V = RecordedEventView;

    open spec fn view(&self) -> RecordedEventView {
        (self.tick, self.node_id, self.description@)
    }
}

/// The record of one run.
#[derive(Debug, Clone, PartialEq, Eq)]
pub struct RunRecord {
    pub seed: u64,
    pub max_ticks: u64,
    pub events: Vec<RecordedEvent>,
}

/// The views of a list of recorded events.
pub open spec fn events_view(evs: Seq<RecordedEvent>) -> Seq<RecordedEventView> {
    evs.map_values(|e: RecordedEvent| e@)
}

impl RunRecord {
    /// An empty record with seed 0 and no tick budget.
    pub fn new() -> (r: Self)
        ensures
            r.seed == 0,
            r.max_ticks == 0,
            r.events@.len() == 0,
    {
        RunRecord { seed: 0, max_ticks: 0, events: Vec::new() }
    }

    /// The record with seed `seed`.
    pub fn with_seed(self, seed: u64) -> (r: Self)
        ensures
            r.seed == seed,
            r.max_ticks == self.max_ticks,
            r.events == self.events,
    {
        RunRecord { seed, ..self }
    }

    /// The record with tick budget `max_ticks`.
    pub fn with_max_ticks(self, max_ticks: u64) -> (r: Self)
        ensures
            r.seed == self.seed,
            r.max_ticks == max_ticks,
            r.events == self.events,
    {
        RunRecord { max_ticks, ..self }
    }

    /// The record with one more event at its end.
    pub fn with_event(self, tick: u64, node_id: NodeId, description: String) -> (r: Self)
        ensures
            r.seed == self.seed,
            r.max_ticks == self.max_ticks,
            r.events@ == self.events@.push(RecordedEvent { tick, node_id, description }),
    {
        let mut r = self;
        r.events.push(RecordedEvent { tick, node_id, description });
        r
    }
}

/// Whether two runs recorded the same event sequence.
pub open spec fn spec_runs_identical(a: RunRecord, b: RunRecord) -> bool {
    events_view(a.events@) == events_view(b.events@)
}

/// Whether two runs recorded the same event sequence.
pub fn runs_identical(a: &RunRecord, b: &RunRecord) -> (r: bool)
    ensures
        r == spec_runs_identical(*a, *b),
{
    let ghost va = events_view(a.events@);
    let ghost vb = events_view(b.events@);
    if a.events.len() != b.events.len() {
        assert(va.len() != vb.len());
        return false;
    }
    let mut i: usize = 0;
    while i < a.events.len()
        invariant
            a.events@.len() == b.events@.len(),
            va == events_view(a.events@),
            vb == events_view(b.events@),
            i <= a.events@.len(),
            forall|j: int| 0 <= j < i ==> #[trigger] va[j] == vb[j],
        decreases a.events@.len() - i,
    {
        let ea = &a.events[i];
        let eb = &b.events[i];
        if ea.tick != eb.tick || ea.node_id != eb.node_id || !str_eq(
            ea.description.as_str(),
            eb.description.as_str(),
        ) {
            assert(va[i as int] != vb[i as int]);
            return false;
        }
        assert(va[i as int] == vb[i as int]);
        i = i + 1;
    }
    assert(va =~= vb);
    true
}

} // verus!
