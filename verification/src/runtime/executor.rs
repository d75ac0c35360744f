//! Execution of single nodes under capability checks, with the events that
//! record their start and end.
use vstd::prelude::*;
use crate::core_types::capability::{Capability, CapabilitySet, CapView, spec_cap_debug, any_cap, spec_wildcard_covers};
use crate::core_types::error::{CoreError, cat2};
use crate::core_types::hash;
use crate::core_types::hash::empty_digest;
use crate::core_types::id::{EventId, NodeId, RunId};
use crate::core_types::time::LogicalTime;
use crate::log::event::{Event, EventKind};
use crate::plan::dag::{spec_node_debug, node_debug};

verus! {

/// The outcome of running a node.
#[derive(Debug, Clone, PartialEq, Eq)]
pub enum ExecutorResult {
    Success { output: Vec<u8>, output_hash: hash::Hash },
    Failed { error: String },
    /// Not run: the capabilities it lacked.
    Skipped { missing: Vec<Capability> },
}

/// An executor error.
#[derive(Debug, Clone, PartialEq, Eq)]
pub enum ExecutorError {
    NodeNotFound { node_id: NodeId },
    CapabilityDenied { capability: Capability },
    Timeout,
    InvalidInput,
}

/// The message of an executor error.
pub open spec fn spec_executor_error_text(e: ExecutorError) -> Seq<char> {
    match e {
        ExecutorError::NodeNotFound { node_id } => "Node not found: "@ + spec_node_debug(node_id),
        ExecutorError::CapabilityDenied { capability } => "Capability denied: "@ + spec_cap_debug(capability@),
        ExecutorError::Timeout => "Execution timeout"@,
        ExecutorError::InvalidInput => "Invalid input"@,
    }
}

impl ExecutorError {
    /// The error message.
    pub fn to_string(&self) -> (s: String)
        ensures
            s@ == spec_executor_error_text(*self),
    {
        match self {
            ExecutorError::NodeNotFound { node_id } => {
                let d = node_debug(*node_id);
                cat2("Node not found: ", d.as_str())
            },
            ExecutorError::CapabilityDenied { capability } => {
                let d = capability.debug_text();
                cat2("Capability denied: ", d.as_str())
            },
            ExecutorError::Timeout => "Execution timeout".to_owned(),
            ExecutorError::InvalidInput => "Invalid input".to_owned(),
        }
    }
}

/// The value of the last entry for node `k`.
pub open spec fn spec_input(es: Seq<(NodeId, Vec<u8>)>, k: u128) -> Option<Seq<u8>>
    decreases es.len(),
{
    if es.len() == 0 {
        None
    } else if es.last().0.value == k {
        Some(es.last().1@)
    } else {
        spec_input(es.drop_last(), k)
    }
}

/// Whether no node occurs twice among the entries.
pub open spec fn unique_nodes(es: Seq<(NodeId, Vec<u8>)>) -> bool {
    forall|i: int, j: int| 0 <= i < j < es.len() ==> #[trigger] es[i].0.value != #[trigger] es[j].0.value
}

/// The inputs of a node, by the node that produced them.
#[derive(Debug)]
pub struct InputMap {
    entries: Vec<(NodeId, Vec<u8>)>,
}

impl View for InputMap {
    type V = Map<u128, Seq<u8>>;

    closed spec fn view(&self) -> Map<u128, Seq<u8>> {
        Map::new(|k: u128| spec_input(self.entries@, k) is Some, |k: u128| spec_input(self.entries@, k).unwrap())
    }
}

/// A node among the entries has its entry found.
proof fn lemma_input_found(es: Seq<(NodeId, Vec<u8>)>, i: int)
    requires
        unique_nodes(es),
        0 <= i < es.len(),
    ensures
        spec_input(es, es[i].0.value) == Some(es[i].1@),
    decreases es.len(),
{
    if i < es.len() - 1 {
        assert(es.last().0.value != es[i].0.value);
        assert(unique_nodes(es.drop_last()));
        lemma_input_found(es.drop_last(), i);
        assert(es.drop_last()[i] == es[i]);
    }
}

/// A node absent from the entries has none.
proof fn lemma_input_absent(es: Seq<(NodeId, Vec<u8>)>, k: u128)
    requires
        forall|i: int| 0 <= i < es.len() ==> #[trigger] es[i].0.value != k,
    ensures
        spec_input(es, k) is None,
    decreases es.len(),
{
    if es.len() > 0 {
        assert(es.last().0.value != k);
        lemma_input_absent(es.drop_last(), k);
    }
}

impl InputMap {
    #[verifier::type_invariant]
    closed spec fn wf(self) -> bool {
        unique_nodes(self.entries@)
    }

    /// The nodes with an input, in the order they were first added.
    pub closed spec fn nodes(&self) -> Seq<u128> {
        self.entries@.map_values(|e: (NodeId, Vec<u8>)| e.0.value)
    }

    /// No inputs.
    pub fn new() -> (m: Self)
        ensures
            m@ == Map::<u128, Seq<u8>>::empty(),
            m.nodes().len() == 0,
    {
        let m = InputMap { entries: Vec::new() };
        assert(m@ =~= Map::<u128, Seq<u8>>::empty());
        m
    }

    /// Sets the input from `from`, replacing an earlier one.
    pub fn insert(&mut self, from: NodeId, data: Vec<u8>)
        ensures
            final(self)@ == old(self)@.insert(from.value, data@),
            old(self)@.contains_key(from.value) ==> final(self).nodes() == old(self).nodes(),
            !old(self)@.contains_key(from.value) ==> final(self).nodes() == old(self).nodes().push(from.value),
    {
        proof {
            use_type_invariant(&*self);
        }
        let ghost es = self.entries@;
        let mut i: usize = 0;
        while i < self.entries.len()
            invariant
                es == self.entries@,
                unique_nodes(es),
                es == old(self).entries@,
                i <= es.len(),
                forall|j: int| 0 <= j < i ==> #[trigger] es[j].0.value != from.value,
            decreases es.len() - i,
        {
            if self.entries[i].0 == from {
                let mut entries = Vec::new();
                std::mem::swap(&mut entries, &mut self.entries);
                entries.set(i, (from, data));
                self.entries = entries;
                proof {
                    let es2 = self.entries@;
                    assert(unique_nodes(es2)) by {
                        assert forall|a: int, b: int| 0 <= a < b < es2.len() implies #[trigger] es2[a].0.value
                            != #[trigger] es2[b].0.value by {
                            if a != i && b != i {
                                assert(es2[a] == es[a] && es2[b] == es[b]);
                            } else if a == i {
                                assert(es2[b] == es[b]);
                                assert(es[a].0.value == from.value);
                            } else {
                                assert(es2[a] == es[a]);
                                assert(es[b].0.value == from.value);
                            }
                        }
                    }
                    lemma_input_found(es, i as int);
                    assert(self@ =~= old(self)@.insert(from.value, data@)) by {
                        assert forall|k: u128| #[trigger] self@.contains_key(k) <==> old(self)@.insert(
                            from.value,
                            data@,
                        ).contains_key(k) by {
                            lemma_map_agree(es, es2, i as int, k);
                        }
                        assert forall|k: u128| self@.contains_key(k) implies #[trigger] self@[k] == old(self)@.insert(
                            from.value,
                            data@,
                        )[k] by {
                            lemma_map_agree(es, es2, i as int, k);
                        }
                    }
                    assert(self.nodes() =~= old(self).nodes());
                }
                return;
            }
            i = i + 1;
        }
        proof {
            lemma_input_absent(es, from.value);
        }
        let mut entries = Vec::new();
        std::mem::swap(&mut entries, &mut self.entries);
        entries.push((from, data));
        self.entries = entries;
        proof {
            let es2 = self.entries@;
            assert(es2.drop_last() =~= es);
            assert(unique_nodes(es2));
            assert(self@ =~= old(self)@.insert(from.value, data@));
            assert(self.nodes() =~= old(self).nodes().push(from.value));
        }
    }

    /// The input from `from`.
    pub fn get(&self, from: &NodeId) -> (r: Option<&Vec<u8>>)
        ensures
            match r {
                Some(v) => self@.contains_key(from.value) && self@[from.value] == v@,
                None => !self@.contains_key(from.value),
            },
    {
        proof {
            use_type_invariant(self);
        }
        let mut i: usize = 0;
        while i < self.entries.len()
            invariant
                i <= self.entries@.len(),
                unique_nodes(self.entries@),
                forall|j: int| 0 <= j < i ==> #[trigger] self.entries@[j].0.value != from.value,
            decreases self.entries@.len() - i,
        {
            if self.entries[i].0 == *from {
                proof {
                    lemma_input_found(self.entries@, i as int);
                }
                return Some(&self.entries[i].1);
            }
            i = i + 1;
        }
        proof {
            lemma_input_absent(self.entries@, from.value);
        }
        None
    }

    /// The number of nodes with an input.
    pub fn len(&self) -> (n: usize)
        ensures
            n == self.nodes().len(),
    {
        self.entries.len()
    }

    /// Whether there is no input.
    pub fn is_empty(&self) -> (b: bool)
        ensures
            b == (self.nodes().len() == 0),
    {
        self.entries.len() == 0
    }
}

/// Replacing entry `i` by one for the same node with new data changes only
/// that node's input.
proof fn lemma_map_agree(es: Seq<(NodeId, Vec<u8>)>, es2: Seq<(NodeId, Vec<u8>)>, i: int, k: u128)
    requires
        unique_nodes(es),
        unique_nodes(es2),
        es.len() == es2.len(),
        0 <= i < es.len(),
        es2[i].0.value == es[i].0.value,
        forall|j: int| 0 <= j < es.len() && j != i ==> es2[j] == es[j],
    ensures
        k == es[i].0.value ==> spec_input(es2, k) == Some(es2[i].1@),
        k != es[i].0.value ==> spec_input(es2, k) == spec_input(es, k),
    decreases es.len(),
{
    if k == es[i].0.value {
        lemma_input_found(es2, i);
    } else if es.len() > 0 {
        if i == es.len() - 1 {
            assert(es2.drop_last() =~= es.drop_last());
        } else {
            assert(unique_nodes(es.drop_last()));
            assert(unique_nodes(es2.drop_last()));
            lemma_map_agree(es.drop_last(), es2.drop_last(), i, k);
        }
    }
}

/// What a node runs with: its run, identity, time, parent event, granted
/// capabilities and inputs.
pub struct ExecutionContext {
    pub run_id: RunId,
    pub node_id: NodeId,
    pub logical_time: LogicalTime,
    pub parent_event_id: Option<EventId>,
    pub capabilities: CapabilitySet,
    pub inputs: InputMap,
}

impl ExecutionContext {
    /// A context without parent event and without inputs.
    pub fn new(run_id: RunId, node_id: NodeId, logical_time: LogicalTime, capabilities: CapabilitySet) -> (c: Self)
        ensures
            c.run_id == run_id,
            c.node_id == node_id,
            c.logical_time == logical_time,
            c.parent_event_id is None,
            c.capabilities == capabilities,
            c.inputs@ == Map::<u128, Seq<u8>>::empty(),
            c.inputs.nodes().len() == 0,
    {
        ExecutionContext { run_id, node_id, logical_time, parent_event_id: None, capabilities, inputs: InputMap::new() }
    }

    /// The context with `parent` as its parent event.
    pub fn with_parent(self, parent: EventId) -> (c: Self)
        ensures
            c == (ExecutionContext { parent_event_id: Some(parent), ..self }),
    {
        ExecutionContext { parent_event_id: Some(parent), ..self }
    }

    /// Records the input from a dependency.
    pub fn add_input(&mut self, from: NodeId, data: Vec<u8>)
        ensures
            final(self).inputs@ == old(self).inputs@.insert(from.value, data@),
            final(self).run_id == old(self).run_id,
            final(self).node_id == old(self).node_id,
            final(self).logical_time == old(self).logical_time,
            final(self).parent_event_id == old(self).parent_event_id,
            final(self).capabilities == old(self).capabilities,
    {
        self.inputs.insert(from, data);
    }

    /// Whether `capability` is allowed by the granted set.
    pub fn has_capability(&self, capability: &Capability) -> (b: bool)
        ensures
            b == spec_ctx_allows(self.capabilities, capability@),
    {
        self.capabilities.allows(capability)
    }
}

/// Whether a set allows a capability: it holds it, or a wildcard of its kind.
pub open spec fn spec_ctx_allows(set: CapabilitySet, c: CapView) -> bool {
    set.spec_has(c) || any_cap(set.members(), |h: CapView| spec_wildcard_covers(h, c))
}

/// Runs nodes.
pub struct Executor {
    /// The most logical ticks a node may take.
    pub max_ticks: u64,
    /// Whether missing capabilities stop a node.
    pub strict_capabilities: bool,
}

impl Executor {
    /// An executor allowing a million ticks, with strict capability checks.
    pub fn new() -> (e: Self)
        ensures
            e.max_ticks == 1_000_000,
            e.strict_capabilities,
    {
        Executor { max_ticks: 1_000_000, strict_capabilities: true }
    }

    /// The executor with a limit of `max` ticks.
    pub fn with_max_ticks(self, max: u64) -> (e: Self)
        ensures
            e.max_ticks == max,
            e.strict_capabilities == self.strict_capabilities,
    {
        Executor { max_ticks: max, ..self }
    }

    /// The executor with strict checks on or off.
    pub fn with_strict_capabilities(self, strict: bool) -> (e: Self)
        ensures
            e.max_ticks == self.max_ticks,
            e.strict_capabilities == strict,
    {
        Executor { strict_capabilities: strict, ..self }
    }

    /// Runs a node. Nodes carry no work of their own yet: every run succeeds
    /// with empty output and the empty hash.
    pub fn execute(&self, ctx: &ExecutionContext) -> (r: Result<ExecutorResult, CoreError>)
        ensures
            r matches Ok(ExecutorResult::Success { output, output_hash }) && output@.len() == 0
                && output_hash@ == empty_digest(),
    {
        Ok(ExecutorResult::Success { output: Vec::new(), output_hash: hash::Hash::empty() })
    }

    /// Checks the required capabilities in order; with strict checks off,
    /// everything passes.
    pub fn check_capabilities(&self, ctx: &ExecutionContext, required: &[Capability]) -> (r: Result<(), CoreError>)
        ensures
            !self.strict_capabilities ==> r is Ok,
            self.strict_capabilities ==> match r {
                Ok(()) => forall|i: int| 0 <= i < required@.len() ==> #[trigger] spec_ctx_allows(
                    ctx.capabilities,
                    required@[i]@,
                ),
                Err(e) => exists|i: int|
                    0 <= i < required@.len() && (forall|j: int| 0 <= j < i ==> #[trigger] spec_ctx_allows(
                        ctx.capabilities,
                        required@[j]@,
                    )) && !spec_ctx_allows(ctx.capabilities, #[trigger] required@[i]@) && (e matches CoreError::PermissionDenied {
                        operation,
                    } && operation@ == spec_cap_debug(required@[i]@)),
            },
    {
        if !self.strict_capabilities {
            return Ok(());
        }
        let mut i: usize = 0;
        while i < required.len()
            invariant
                i <= required@.len(),
                self.strict_capabilities,
                forall|j: int| 0 <= j < i ==> #[trigger] spec_ctx_allows(ctx.capabilities, required@[j]@),
            decreases required@.len() - i,
        {
            if !ctx.has_capability(&required[i]) {
                let operation = required[i].debug_text();
                return Err(CoreError::PermissionDenied { operation });
            }
            i = i + 1;
        }
        Ok(())
    }

    /// The event recording a node's start, at the context's time, under
    /// the context's parent event or a fresh one.
    pub fn create_start_event(&self, ctx: &ExecutionContext) -> (e: Event)
        ensures
            e.run_id == ctx.run_id,
            e.node_id == ctx.node_id,
            e.logical_time == ctx.logical_time,
            e.kind == EventKind::NodeStarted,
            e.parent_event_id is Some,
            ctx.parent_event_id is Some ==> e.parent_event_id == ctx.parent_event_id,
            e.payload@.len() == 0,
    {
        let parent = match ctx.parent_event_id {
            Some(p) => p,
            None => EventId::new(),
        };
        Event::new(EventId::new(), ctx.run_id, ctx.node_id, ctx.logical_time, EventKind::NodeStarted).with_parent(
            parent,
        )
    }

    /// The event recording a node's end, one tick after the context's time,
    /// of the kind the result calls for.
    pub fn create_complete_event(&self, ctx: &ExecutionContext, result: &ExecutorResult) -> (e: Event)
        ensures
            e.run_id == ctx.run_id,
            e.node_id == ctx.node_id,
            e.logical_time@ == (if ctx.logical_time@ + 1 <= u64::MAX { ctx.logical_time@ + 1 } else { u64::MAX as nat }),
            e.kind == match *result {
                ExecutorResult::Success { .. } => EventKind::NodeCompleted,
                ExecutorResult::Failed { .. } => EventKind::NodeFailed,
                ExecutorResult::Skipped { .. } => EventKind::NodeSkipped,
            },
            e.parent_event_id is None,
    {
        let kind = match result {
            ExecutorResult::Success { .. } => EventKind::NodeCompleted,
            ExecutorResult::Failed { .. } => EventKind::NodeFailed,
            ExecutorResult::Skipped { .. } => EventKind::NodeSkipped,
        };
        Event::new(EventId::new(), ctx.run_id, ctx.node_id, ctx.logical_time.saturating_add(1), kind)
    }

    /// Runs a node and returns its start event, end event and result.
    pub fn execute_with_events(&self, ctx: &ExecutionContext) -> (r: Result<(Event, Event, ExecutorResult), CoreError>)
        ensures
            r matches Ok((start, end, result)) && {
                &&& start.kind == EventKind::NodeStarted
                &&& start.logical_time == ctx.logical_time
                &&& start.node_id == ctx.node_id
                &&& end.kind == EventKind::NodeCompleted
                &&& end.node_id == ctx.node_id
                &&& end.logical_time@ == (if ctx.logical_time@ + 1 <= u64::MAX {
                    ctx.logical_time@ + 1
                } else {
                    u64::MAX as nat
                })
                &&& start.run_id == ctx.run_id
                &&& start.parent_event_id is Some
                &&& ctx.parent_event_id is Some ==> start.parent_event_id == ctx.parent_event_id
                &&& end.run_id == ctx.run_id
                &&& result matches ExecutorResult::Success { output, output_hash } && output@.len() == 0
                    && output_hash@ == empty_digest()
            },
    {
        let start_event = self.create_start_event(ctx);
        let result = match self.execute(ctx) {
            Ok(r) => r,
            Err(e) => {
                return Err(e);
            },
        };
        let end_event = self.create_complete_event(ctx, &result);
        Ok((start_event, end_event, result))
    }
}

impl Default for Executor {
    fn default() -> (e: Self)
        ensures
            e.max_ticks == 1_000_000,
            e.strict_capabilities,
    {
        Executor::new()
    }
}

} // verus!
