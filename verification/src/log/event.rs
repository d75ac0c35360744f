//! Events of the log.
use vstd::prelude::*;
use crate::core_types::id::{EventId, RunId, NodeId};
use crate::core_types::hash;
use crate::core_types::hash::{spec_blake3, empty_digest};
use crate::core_types::time::LogicalTime;

verus! {

/// What kind of thing an event records.
#[derive(Debug, Clone, Copy, PartialEq, Eq, Hash, Structural)]
pub enum EventKind {
    RunCreated,
    RunStarted,
    RunCompleted,
    RunFailed,
    NodeScheduled,
    NodeStarted,
    NodeCompleted,
    NodeFailed,
    NodeSkipped,
    ToolInvoked,
    ToolCompleted,
    ToolFailed,
    ToolTimedOut,
    CapabilityCheck,
    PolicyDecision,
    TaskAssigned,
    TaskAccepted,
    TaskRejected,
    SnapshotCreated,
    SnapshotRestored,
    BlobStored,
    Heartbeat,
    Error,
}

/// Whether an event kind ends the run, node or tool call it belongs to.
pub open spec fn spec_is_terminal(k: EventKind) -> bool {
    match k {
        EventKind::RunCompleted | EventKind::RunFailed | EventKind::NodeCompleted
        | EventKind::NodeFailed | EventKind::NodeSkipped | EventKind::ToolCompleted
        | EventKind::ToolFailed | EventKind::ToolTimedOut => true,
        _ => false,
    }
}

/// Whether an event kind records a failure.
pub open spec fn spec_is_error(k: EventKind) -> bool {
    match k {
        EventKind::RunFailed | EventKind::NodeFailed | EventKind::ToolFailed | EventKind::Error => true,
        _ => false,
    }
}

impl EventKind {
    /// Whether this kind ends the run, node or tool call it belongs to.
    pub fn is_terminal(self) -> (b: bool)
        ensures
            b == spec_is_terminal(self),
    {
        match self {
            EventKind::RunCompleted | EventKind::RunFailed | EventKind::NodeCompleted
            | EventKind::NodeFailed | EventKind::NodeSkipped | EventKind::ToolCompleted
            | EventKind::ToolFailed | EventKind::ToolTimedOut => true,
            _ => false,
        }
    }

    /// Whether this kind records a failure.
    pub fn is_error(self) -> (b: bool)
        ensures
            b == spec_is_error(self),
    {
        match self {
            EventKind::RunFailed | EventKind::NodeFailed | EventKind::ToolFailed
            | EventKind::Error => true,
            _ => false,
        }
    }
}

/// An event of a run.
#[derive(Debug, Clone, PartialEq, Eq)]
pub struct Event {
    pub event_id: EventId,
    pub run_id: RunId,
    pub node_id: NodeId,
    pub parent_event_id: Option<EventId>,
    pub logical_time: LogicalTime,
    pub kind: EventKind,
    pub payload: Vec<u8>,
    pub payload_hash: hash::Hash,
    pub prior_state_hash: Option<hash::Hash>,
    pub post_state_hash: Option<hash::Hash>,
}

impl Event {
    /// An event with no payload, no parent and no state hashes.
    pub fn new(
        event_id: EventId,
        run_id: RunId,
        node_id: NodeId,
        logical_time: LogicalTime,
        kind: EventKind,
    ) -> (e: Self)
        ensures
            e.event_id == event_id,
            e.run_id == run_id,
            e.node_id == node_id,
            e.parent_event_id is None,
            e.logical_time == logical_time,
            e.kind == kind,
            e.payload@.len() == 0,
            e.payload_hash@ == empty_digest(),
            e.prior_state_hash is None,
            e.post_state_hash is None,
    {
        Event {
            event_id,
            run_id,
            node_id,
            parent_event_id: None,
            logical_time,
            kind,
            payload: Vec::new(),
            payload_hash: hash::Hash::empty(),
            prior_state_hash: None,
            post_state_hash: None,
        }
    }

    /// The event carrying `payload` and its hash.
    pub fn with_payload(self, payload: Vec<u8>) -> (e: Self)
        ensures
            e.payload@ == payload@,
            e.payload_hash@ == spec_blake3(payload@),
            e.event_id == self.event_id,
            e.run_id == self.run_id,
            e.node_id == self.node_id,
            e.parent_event_id == self.parent_event_id,
            e.logical_time == self.logical_time,
            e.kind == self.kind,
            e.prior_state_hash == self.prior_state_hash,
            e.post_state_hash == self.post_state_hash,
    {
        let mut e = self;
        e.payload_hash = hash::Hash::compute(payload.as_slice());
        e.payload = payload;
        e
    }

    /// The event carrying the state hashes before and after it.
    pub fn with_state_hashes(self, prior: hash::Hash, post: hash::Hash) -> (e: Self)
        ensures
            e.prior_state_hash == Some(prior),
            e.post_state_hash == Some(post),
            e.event_id == self.event_id,
            e.run_id == self.run_id,
            e.node_id == self.node_id,
            e.parent_event_id == self.parent_event_id,
            e.logical_time == self.logical_time,
            e.kind == self.kind,
            e.payload == self.payload,
            e.payload_hash == self.payload_hash,
    {
        let mut e = self;
        e.prior_state_hash = Some(prior);
        e.post_state_hash = Some(post);
        e
    }

    /// The event with `parent` as its parent event.
    pub fn with_parent(self, parent: EventId) -> (e: Self)
        ensures
            e.parent_event_id == Some(parent),
            e.event_id == self.event_id,
            e.run_id == self.run_id,
            e.node_id == self.node_id,
            e.logical_time == self.logical_time,
            e.kind == self.kind,
            e.payload == self.payload,
            e.payload_hash == self.payload_hash,
            e.prior_state_hash == self.prior_state_hash,
            e.post_state_hash == self.post_state_hash,
    {
        let mut e = self;
        e.parent_event_id = Some(parent);
        e
    }

    /// Whether the event's kind is terminal.
    pub fn is_terminal(&self) -> (b: bool)
        ensures
            b == spec_is_terminal(self.kind),
    {
        self.kind.is_terminal()
    }

    /// Whether the event's kind records a failure.
    pub fn is_error(&self) -> (b: bool)
        ensures
            b == spec_is_error(self.kind),
    {
        self.kind.is_error()
    }
}

} // verus!
