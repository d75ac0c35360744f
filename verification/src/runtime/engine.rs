//! The engine that runs a whole DAG: the scheduler picks each node, the
//! executor runs it, and every run leaves a start and an end event.
use vstd::prelude::*;
use indexmap::{IndexMap, IndexSet};
use crate::core_types::capability::{CapabilitySet, CapView};
use crate::core_types::error::{CoreError, cat2};
use crate::core_types::hash;
use crate::core_types::hash::empty_digest;
use crate::core_types::id::{EventId, NodeId, RunId};
use crate::core_types::time::LogicalTime;
use crate::log::event::{Event, EventKind};
use crate::log::stream::{EventStream, StreamEvent};
use crate::plan::collections::{
    output_map_clear, output_map_entries, output_map_get, output_map_insert, output_map_len, output_map_new,
    out_find, out_put,
};
use crate::plan::dag::{node_debug, spec_node_debug};
use crate::runtime::executor::{ExecutionContext, Executor, ExecutorResult};
use crate::runtime::scheduler::{
    ScheduleDecision, Scheduler, SchedulerView, is_least, next_time, released, depends_on,
    spec_add_dependents, spec_put_deps,
};
use crate::plan::collections::id_set_items;

verus! {

/// Settings of an engine.
#[derive(Debug)]
pub struct EngineConfig {
    pub max_ticks: u64,
    pub capabilities: CapabilitySet,
    pub enable_backpressure: bool,
}

impl Default for EngineConfig {
    /// A million ticks, no capabilities, backpressure on.
    fn default() -> (c: Self)
        ensures
            c.max_ticks == 1_000_000,
            c.capabilities.members().len() == 0,
            c.enable_backpressure,
    {
        EngineConfig { max_ticks: 1_000_000, capabilities: CapabilitySet::new(), enable_backpressure: true }
    }
}

impl EngineConfig {
    /// A copy of the settings.
    pub fn duplicate(&self) -> (c: Self)
        ensures
            c.max_ticks == self.max_ticks,
            c.capabilities.spec_views() == self.capabilities.spec_views(),
            c.enable_backpressure == self.enable_backpressure,
    {
        EngineConfig {
            max_ticks: self.max_ticks,
            capabilities: self.capabilities.duplicate(),
            enable_backpressure: self.enable_backpressure,
        }
    }
}

impl Clone for EngineConfig {
    fn clone(&self) -> (c: Self) {
        self.duplicate()
    }
}

/// An engine error.
#[derive(Debug, Clone, PartialEq, Eq)]
pub enum ExecutionError {
    Timeout,
    CycleDetected,
    NodeFailed { node_id: NodeId, error: String },
    InvalidState,
}

impl ExecutionError {
    /// The error message.
    pub fn to_string(&self) -> (s: String)
        ensures
            s@ == (match *self {
                ExecutionError::Timeout => "Execution timeout"@,
                ExecutionError::CycleDetected => "Cycle detected in DAG"@,
                ExecutionError::NodeFailed { node_id, error } => "Node "@ + spec_node_debug(node_id) + " failed: "@
                    + error@,
                ExecutionError::InvalidState => "Invalid execution state"@,
            }),
    {
        match self {
            ExecutionError::Timeout => "Execution timeout".to_owned(),
            ExecutionError::CycleDetected => "Cycle detected in DAG".to_owned(),
            ExecutionError::NodeFailed { node_id, error } => {
                let d = node_debug(*node_id);
                let a = cat2("Node ", d.as_str());
                let b = cat2(a.as_str(), " failed: ");
                cat2(b.as_str(), error.as_str())
            },
            ExecutionError::InvalidState => "Invalid execution state".to_owned(),
        }
    }
}

/// How a run ended.
#[derive(Debug, Clone, Copy, PartialEq, Eq, Structural)]
pub enum ExecutionStatus {
    Success,
    PartialFailure,
    Timeout,
    CycleDetected,
}

/// The output a node produced.
#[derive(Debug, Clone)]
pub struct NodeOutput {
    pub node_id: NodeId,
    pub output: Vec<u8>,
    pub output_hash: hash::Hash,
}

/// The ready node with the smallest identifier.
pub open spec fn least_ready(v: SchedulerView) -> u128 {
    choose|m: u128| is_least(v.ready, m)
}

/// The scheduler after `n` completed.
pub open spec fn spec_complete(v: SchedulerView, n: u128) -> SchedulerView {
    SchedulerView {
        completed: v.completed.insert(n),
        ready: v.ready.remove(n).union(released(v, n, v.completed.insert(n))),
        time: next_time(v.time),
        ..v
    }
}

/// A run with `ticks` ticks left: while a node is ready and ticks remain,
/// the smallest ready node runs and completes; the result is the final
/// scheduler, the status, and the number of nodes run.
pub open spec fn spec_run(v: SchedulerView, ticks: nat) -> (SchedulerView, ExecutionStatus, nat)
    decreases ticks,
{
    if ticks == 0 {
        (v, ExecutionStatus::Timeout, 0)
    } else if v.ready.len() > 0 {
        let r = spec_run(spec_complete(v, least_ready(v)), (ticks - 1) as nat);
        (r.0, r.1, r.2 + 1)
    } else if v.completed.len() + v.failed.len() < v.nodes.len() {
        (v, if v.failed.len() > 0 { ExecutionStatus::PartialFailure } else { ExecutionStatus::CycleDetected }, 0)
    } else {
        (v, if v.failed.len() > 0 { ExecutionStatus::PartialFailure } else { ExecutionStatus::Success }, 0)
    }
}

/// Whether the two events at `at` record node `n` starting and completing.
pub open spec fn run_events_of(es: Seq<Event>, at: int, n: u128) -> bool {
    &&& es[at].kind == EventKind::NodeStarted
    &&& es[at].node_id.value == n
    &&& es[at + 1].kind == EventKind::NodeCompleted
    &&& es[at + 1].node_id.value == n
}

/// The nodes a run with `ticks` ticks left executes, in order: while a node
/// is ready and ticks remain, the smallest ready node.
pub open spec fn spec_run_nodes(v: SchedulerView, ticks: nat) -> Seq<u128>
    decreases ticks,
{
    if ticks == 0 {
        Seq::empty()
    } else if v.ready.len() > 0 {
        seq![least_ready(v)] + spec_run_nodes(spec_complete(v, least_ready(v)), (ticks - 1) as nat)
    } else {
        Seq::empty()
    }
}

/// A run executes as many nodes as it lists.
proof fn lemma_run_nodes_len(v: SchedulerView, ticks: nat)
    ensures
        spec_run_nodes(v, ticks).len() == spec_run(v, ticks).2,
    decreases ticks,
{
    if ticks > 0 && v.ready.len() > 0 {
        lemma_run_nodes_len(spec_complete(v, least_ready(v)), (ticks - 1) as nat);
    }
}

/// What an engine holds, as plain values.
pub struct EngineView {
    pub scheduler: SchedulerView,
    pub max_ticks: u64,
    pub outputs: Seq<(u128, NodeOutput)>,
    pub events: Seq<Event>,
    pub run_id: RunId,
    pub time: nat,
    pub last_event_id: Option<EventId>,
    /// The capabilities granted to every node run.
    pub capabilities: Seq<CapView>,
    pub enable_backpressure: bool,
    /// The executor's tick limit and whether it stops nodes missing capabilities.
    pub executor_max_ticks: u64,
    pub strict_capabilities: bool,
}

/// Whether two engine states have the same configuration and executor.
pub open spec fn same_setup(a: EngineView, b: EngineView) -> bool {
    &&& a.run_id == b.run_id
    &&& a.max_ticks == b.max_ticks
    &&& a.capabilities == b.capabilities
    &&& a.enable_backpressure == b.enable_backpressure
    &&& a.executor_max_ticks == b.executor_max_ticks
    &&& a.strict_capabilities == b.strict_capabilities
}

/// An engine that runs one DAG.
pub struct ExecutionEngine {
    scheduler: Scheduler,
    executor: Executor,
    config: EngineConfig,
    outputs: IndexMap<NodeId, NodeOutput>,
    events: Vec<Event>,
    run_id: RunId,
    time: LogicalTime,
    last_event_id: Option<EventId>,
}

impl View for ExecutionEngine {
    type V = EngineView;

    closed spec fn view(&self) -> EngineView {
        EngineView {
            scheduler: self.scheduler@,
            max_ticks: self.config.max_ticks,
            outputs: output_map_entries(self.outputs),
            events: self.events@,
            run_id: self.run_id,
            time: self.time@,
            last_event_id: self.last_event_id,
            capabilities: self.config.capabilities.spec_views(),
            enable_backpressure: self.config.enable_backpressure,
            executor_max_ticks: self.executor.max_ticks,
            strict_capabilities: self.executor.strict_capabilities,
        }
    }
}

impl ExecutionEngine {
    /// An engine for `run_id` with an empty plan, at time zero; its executor
    /// checks capabilities strictly within the configured ticks.
    pub fn new(run_id: RunId, config: EngineConfig) -> (e: Self)
        ensures
            e@.scheduler == (SchedulerView {
                nodes: Seq::empty(),
                ready: Set::empty(),
                completed: Set::empty(),
                failed: Set::empty(),
                deps: Seq::empty(),
                dependents: Seq::empty(),
                time: 0,
            }),
            e@.max_ticks == config.max_ticks,
            e@.outputs.len() == 0,
            e@.events.len() == 0,
            e@.run_id == run_id,
            e@.time == 0,
            e@.last_event_id is None,
            e@.capabilities == config.capabilities.spec_views(),
            e@.enable_backpressure == config.enable_backpressure,
            e@.executor_max_ticks == config.max_ticks,
            e@.strict_capabilities,
    {
        let executor = Executor::new().with_max_ticks(config.max_ticks).with_strict_capabilities(true);
        ExecutionEngine {
            scheduler: Scheduler::new(),
            executor,
            config,
            outputs: output_map_new(),
            events: Vec::new(),
            run_id,
            time: LogicalTime::zero(),
            last_event_id: None,
        }
    }

    /// Adds a node to the plan; see `Scheduler::add_node`.
    pub fn add_node(&mut self, node_id: NodeId, deps: IndexSet<NodeId>) -> (r: Result<(), CoreError>)
        ensures
            final(self)@ == (EngineView { scheduler: final(self)@.scheduler, ..old(self)@ }),
            r is Ok <==> !id_set_items(deps).contains(node_id.value) && !(exists|k: int|
                0 <= k < id_set_items(deps).len() && depends_on(
                    old(self)@.scheduler.deps,
                    node_id.value,
                    #[trigger] id_set_items(deps)[k],
                )),
            r is Err ==> final(self)@ == old(self)@,
            r is Ok ==> final(self)@.scheduler == (SchedulerView {
                nodes: if old(self)@.scheduler.nodes.contains(node_id.value) {
                    old(self)@.scheduler.nodes
                } else {
                    old(self)@.scheduler.nodes.push(node_id.value)
                },
                deps: spec_put_deps(old(self)@.scheduler.deps, node_id.value, id_set_items(deps)),
                dependents: spec_add_dependents(old(self)@.scheduler.dependents, id_set_items(deps), node_id.value),
                ready: if id_set_items(deps).len() == 0 && !old(self)@.scheduler.completed.contains(node_id.value) {
                    old(self)@.scheduler.ready.insert(node_id.value)
                } else {
                    old(self)@.scheduler.ready
                },
                ..old(self)@.scheduler
            }),
    {
        self.scheduler.add_node(node_id, deps)
    }

    /// Runs the plan: while ticks remain, the ready node with the smallest
    /// identifier runs; the run ends when none is ready, with success when
    /// every node has finished and none failed.
    pub fn run(&mut self) -> (r: Result<ExecutionStatus, CoreError>)
        ensures
            ({
                let ticks: nat = if old(self)@.time < old(self)@.max_ticks {
                    (old(self)@.max_ticks - old(self)@.time) as nat
                } else {
                    0
                };
                let out = spec_run(old(self)@.scheduler, ticks);
                &&& r == Ok::<ExecutionStatus, CoreError>(out.1)
                &&& final(self)@.scheduler == out.0
                &&& final(self)@.time == old(self)@.time + out.2
                &&& final(self)@.events.len() == old(self)@.events.len() + 2 * out.2
                &&& final(self)@.events.subrange(0, old(self)@.events.len() as int) == old(self)@.events
                &&& spec_run_nodes(old(self)@.scheduler, ticks).len() == out.2
                &&& forall|i: int|
                    0 <= i < out.2 ==> run_events_of(
                        final(self)@.events,
                        old(self)@.events.len() + 2 * i,
                        #[trigger] spec_run_nodes(old(self)@.scheduler, ticks)[i],
                    )
                &&& same_setup(final(self)@, old(self)@)
            }),
    {
        let ghost v0 = old(self)@;
        let ghost t0: nat = if v0.time < v0.max_ticks {
            (v0.max_ticks - v0.time) as nat
        } else {
            0
        };
        let ghost total = spec_run(v0.scheduler, t0);
        let ghost all = spec_run_nodes(v0.scheduler, t0);
        proof {
            lemma_run_nodes_len(v0.scheduler, t0);
        }
        let ghost mut done: nat = 0;
        loop
            invariant
                v0 == old(self)@,
                total == spec_run(v0.scheduler, t0),
                t0 == (if v0.time < v0.max_ticks {
                    (v0.max_ticks - v0.time) as nat
                } else {
                    0
                }),
                same_setup(self@, v0),
                self@.time == v0.time + done,
                self@.events.len() == v0.events.len() + 2 * done,
                self@.events.subrange(0, v0.events.len() as int) == v0.events,
                all == spec_run_nodes(v0.scheduler, t0),
                all.len() == total.2,
                done <= all.len(),
                forall|i: int| 0 <= i < done ==> run_events_of(self@.events, v0.events.len() + 2 * i, #[trigger] all[i]),
                ({
                    let t: nat = if self@.time < self@.max_ticks {
                        (self@.max_ticks - self@.time) as nat
                    } else {
                        0
                    };
                    let rest = spec_run(self@.scheduler, t);
                    &&& total.0 == rest.0
                    &&& total.1 == rest.1
                    &&& total.2 == done + rest.2
                    &&& spec_run_nodes(self@.scheduler, t) == all.skip(done as int)
                }),
            decreases self@.max_ticks - self@.time,
        {
            if self.time.as_u64() >= self.config.max_ticks {
                return Ok(ExecutionStatus::Timeout);
            }
            match self.scheduler.decide() {
                ScheduleDecision::Run(node_id) => {
                    proof {
                        let m = least_ready(self@.scheduler);
                        assert(is_least(self@.scheduler.ready, node_id.value));
                        assert(is_least(self@.scheduler.ready, m));
                        assert(m == node_id.value);
                    }
                    let ghost before = self@;
                    proof {
                        let t: nat = (self@.max_ticks - self@.time) as nat;
                        assert(self@.scheduler.ready.contains(node_id.value));
                        assert(self@.scheduler.ready.len() > 0);
                        let m = least_ready(self@.scheduler);
                        assert(spec_run_nodes(self@.scheduler, t) == seq![m] + spec_run_nodes(
                            spec_complete(self@.scheduler, m),
                            (t - 1) as nat,
                        ));
                        assert(all.skip(done as int)[0] == all[done as int]);
                        assert(all[done as int] == node_id.value);
                        assert(all.skip((done + 1) as int) =~= all.skip(done as int).drop_first());
                    }
                    match self.execute_node(node_id) {
                        Ok(()) => {},
                        Err(e) => {
                            return Err(e);
                        },
                    }
                    proof {
                        let bl = before.events.len() as int;
                        assert forall|k: int| 0 <= k < bl implies self@.events[k] == before.events[k] by {
                            assert(self@.events.subrange(0, bl)[k] == self@.events[k]);
                        }
                        assert(self@.events.subrange(0, v0.events.len() as int) =~= v0.events) by {
                            assert forall|k: int| 0 <= k < v0.events.len() implies self@.events[k] == v0.events[k] by {
                                assert(before.events.subrange(0, v0.events.len() as int)[k] == before.events[k]);
                            }
                        }
                        assert forall|i: int| 0 <= i < done + 1 implies run_events_of(
                            self@.events,
                            v0.events.len() + 2 * i,
                            #[trigger] all[i],
                        ) by {
                            if i < done {
                                assert(run_events_of(before.events, v0.events.len() + 2 * i, all[i]));
                            }
                        }
                        done = done + 1;
                    }
                },
                ScheduleDecision::Wait => {
                    if self.scheduler.has_failures() {
                        return Ok(ExecutionStatus::PartialFailure);
                    }
                    return Ok(ExecutionStatus::CycleDetected);
                },
                ScheduleDecision::Complete => {
                    return Ok(
                        if self.scheduler.has_failures() {
                            ExecutionStatus::PartialFailure
                        } else {
                            ExecutionStatus::Success
                        },
                    );
                },
            }
        }
    }

    /// Runs one node: its start and end events are recorded, the end event
    /// becomes the parent of the next, its output is stored and the node
    /// completes; time advances by one tick.
    fn execute_node(&mut self, node_id: NodeId) -> (r: Result<(), CoreError>)
        requires
            old(self)@.time < u64::MAX,
        ensures
            r is Ok,
            final(self)@.scheduler == spec_complete(old(self)@.scheduler, node_id.value),
            final(self)@.time == old(self)@.time + 1,
            final(self)@.events.len() == old(self)@.events.len() + 2,
            final(self)@.events[old(self)@.events.len() as int].kind == EventKind::NodeStarted,
            final(self)@.events[old(self)@.events.len() + 1int].kind == EventKind::NodeCompleted,
            final(self)@.events[old(self)@.events.len() as int].node_id == node_id,
            final(self)@.events[old(self)@.events.len() + 1int].node_id == node_id,
            final(self)@.events.subrange(0, old(self)@.events.len() as int) == old(self)@.events,
            final(self)@.last_event_id == Some(final(self)@.events.last().event_id),
            final(self)@.events[old(self)@.events.len() as int].parent_event_id is Some,
            old(self)@.last_event_id is Some ==> final(self)@.events[old(self)@.events.len() as int].parent_event_id
                == old(self)@.last_event_id,
            exists|o: NodeOutput|
                o.node_id == node_id && o.output@.len() == 0 && o.output_hash@ == empty_digest() && #[trigger] out_put(
                    old(self)@.outputs,
                    node_id.value,
                    o,
                ) == final(self)@.outputs,
            out_find(final(self)@.outputs, node_id.value) >= 0,
            same_setup(final(self)@, old(self)@),
    {
        let time = self.scheduler.time();
        let mut ctx = ExecutionContext::new(self.run_id, node_id, time, self.config.capabilities.duplicate());
        match self.last_event_id {
            Some(parent_id) => {
                ctx = ctx.with_parent(parent_id);
            },
            None => {},
        }
        let (start_event, end_event, result) = match self.executor.execute_with_events(&ctx) {
            Ok(t) => t,
            Err(e) => {
                return Err(e);
            },
        };
        let end_event_id = end_event.event_id;
        self.events.push(start_event);
        self.events.push(end_event);
        self.last_event_id = Some(end_event_id);
        match result {
            ExecutorResult::Success { output, output_hash } => {
                let no = NodeOutput { node_id, output, output_hash };
                let ghost g = no;
                output_map_insert(&mut self.outputs, node_id, no);
                proof {
                    let es = output_map_entries(self.outputs);
                    assert(out_put(output_map_entries(old(self).outputs), node_id.value, g) == es);
                    lemma_out_put_found(output_map_entries(old(self).outputs), node_id.value, es);
                }
                match self.scheduler.mark_complete(node_id) {
                    Ok(()) => {},
                    Err(e) => {
                        return Err(e);
                    },
                }
                assert(g.node_id == node_id && g.output@.len() == 0 && g.output_hash@ == empty_digest());
                assert(out_put(old(self)@.outputs, node_id.value, g) == self@.outputs);
            },
            ExecutorResult::Failed { error } => {
                match self.scheduler.mark_failed(node_id) {
                    Ok(()) => {},
                    Err(e) => {
                        return Err(e);
                    },
                }
                let d = node_debug(node_id);
                return Err(CoreError::Validation { field: cat2("node ", d.as_str()), reason: error });
            },
            ExecutorResult::Skipped { .. } => {
                match self.scheduler.mark_failed(node_id) {
                    Ok(()) => {},
                    Err(e) => {
                        return Err(e);
                    },
                }
            },
        }
        self.time = self.time.saturating_add(1);
        Ok(())
    }

    /// The events recorded, in order.
    pub fn events(&self) -> (s: &[Event])
        ensures
            s@ == self@.events,
    {
        self.events.as_slice()
    }

    /// A stream of the events' logical times, in order.
    pub fn event_stream(&self) -> (s: EventStream)
        ensures
            s.events().len() == self@.events.len(),
            forall|i: int| 0 <= i < self@.events.len() ==> (#[trigger] s.events()[i]).logical_time
                == self@.events[i].logical_time,
            s.position() == 0,
    {
        let mut v: Vec<StreamEvent> = Vec::new();
        let mut i: usize = 0;
        while i < self.events.len()
            invariant
                i <= self.events@.len(),
                v@.len() == i,
                forall|k: int| 0 <= k < i ==> (#[trigger] v@[k]).logical_time == self.events@[k].logical_time,
            decreases self.events@.len() - i,
        {
            v.push(StreamEvent { logical_time: self.events[i].logical_time });
            i = i + 1;
        }
        EventStream::new(v)
    }

    /// The output of `node_id`.
    pub fn get_output(&self, node_id: NodeId) -> (r: Option<&NodeOutput>)
        ensures
            r == (if out_find(self@.outputs, node_id.value) >= 0 {
                Some(&self@.outputs[out_find(self@.outputs, node_id.value)].1)
            } else {
                None
            }),
    {
        output_map_get(&self.outputs, &node_id)
    }

    /// All outputs, keyed by node.
    pub fn outputs(&self) -> (m: &IndexMap<NodeId, NodeOutput>)
        ensures
            output_map_entries(*m) == self@.outputs,
    {
        &self.outputs
    }

    /// The number of outputs.
    pub fn output_count(&self) -> (n: usize)
        ensures
            n == self@.outputs.len(),
    {
        output_map_len(&self.outputs)
    }

    /// The logical time.
    pub fn time(&self) -> (t: LogicalTime)
        ensures
            t@ == self@.time,
    {
        self.time
    }

    /// The run identifier.
    pub fn run_id(&self) -> (r: RunId)
        ensures
            r == self@.run_id,
    {
        self.run_id
    }

    /// Starts over: the scheduler resets, outputs and events are dropped,
    /// time is zero and no event is the parent of the next.
    pub fn reset(&mut self)
        ensures
            final(self)@.scheduler == (SchedulerView {
                ready: crate::runtime::scheduler::initially_ready(old(self)@.scheduler),
                completed: Set::empty(),
                failed: Set::empty(),
                time: 0,
                ..old(self)@.scheduler
            }),
            final(self)@.outputs.len() == 0,
            final(self)@.events.len() == 0,
            final(self)@.time == 0,
            final(self)@.last_event_id is None,
            same_setup(final(self)@, old(self)@),
    {
        self.scheduler.reset();
        output_map_clear(&mut self.outputs);
        self.events.clear();
        self.time = LogicalTime::zero();
        self.last_event_id = None;
    }
}

/// After setting a key, the key is found.
proof fn lemma_out_put_found(es: Seq<(u128, NodeOutput)>, k: u128, after: Seq<(u128, NodeOutput)>)
    requires
        exists|v: NodeOutput| after == #[trigger] out_put(es, k, v),
    ensures
        out_find(after, k) >= 0,
{
    let v = choose|v: NodeOutput| after == #[trigger] out_put(es, k, v);
    lemma_out_find_bounds(es, k);
    if out_find(es, k) < 0 {
        assert(after.drop_last() =~= es);
    } else {
        lemma_out_find_update(es, k, out_find(es, k), (k, v));
    }
}

/// A found position is within bounds and holds the key.
proof fn lemma_out_find_bounds(es: Seq<(u128, NodeOutput)>, k: u128)
    ensures
        out_find(es, k) < es.len(),
        out_find(es, k) >= 0 ==> es[out_find(es, k)].0 == k,
        out_find(es, k) >= -1,
    decreases es.len(),
{
    if es.len() > 0 {
        lemma_out_find_bounds(es.drop_last(), k);
    }
}

/// Replacing the entry at the found position with one of the same key keeps
/// the key found.
proof fn lemma_out_find_update(es: Seq<(u128, NodeOutput)>, k: u128, i: int, e: (u128, NodeOutput))
    requires
        i == out_find(es, k),
        i >= 0,
        e.0 == k,
    ensures
        out_find(es.update(i, e), k) >= 0,
    decreases es.len(),
{
    lemma_out_find_bounds(es, k);
    if i < es.len() - 1 {
        assert(out_find(es.drop_last(), k) == i);
        lemma_out_find_update(es.drop_last(), k, i, e);
        assert(es.update(i, e).drop_last() =~= es.drop_last().update(i, e));
    } else {
        assert(es.update(i, e).last() == e);
    }
}

} // verus!
