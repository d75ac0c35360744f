//! Replaying a trace: each event in turn updates the rebuilt state.
use vstd::prelude::*;
use crate::core_types::error::{CoreError, cat2};
use crate::core_types::id::NodeId;
use crate::core_types::text::{i32_to_decimal, spec_i32_decimal};
use crate::replay::maps::{key_pos, put_at};
use crate::replay::snapshot::{SnapshotLoader, spec_load};
use crate::replay::state::{
    NodeState, NodeStateView, ReconView, ReconstructedState, ReplayError, ReplayErrorView, bytes_eq, copy_bytes,
    node_get, put_all, text_put_all, text_keys,
};
use crate::replay::maps::{text_get, text_pos};
use crate::replay::trace::{TraceEvent, TraceEventKind, TraceReader, is_trace_exhausted};

verus! {

/// Settings of a replay.
#[derive(Debug, Clone, PartialEq, Eq)]
pub struct ReplayConfig {
    pub stop_on_error: bool,
    pub validate_hash_chain: bool,
    /// The most events to replay; 0 means all.
    pub max_events: usize,
    pub enable_snapshots: bool,
}

impl Default for ReplayConfig {
    /// Stop on the first error, validate the chain, no limit, snapshots on.
    fn default() -> (c: Self)
        ensures
            c == (ReplayConfig { stop_on_error: true, validate_hash_chain: true, max_events: 0, enable_snapshots: true }),
    {
        ReplayConfig { stop_on_error: true, validate_hash_chain: true, max_events: 0, enable_snapshots: true }
    }
}

/// A replay error.
#[derive(Debug, Clone, PartialEq, Eq)]
pub enum ReplayEngineError {
    EmptyTrace,
    EventMismatch { expected: String, actual: String },
    MissingSnapshot { id: String },
    CorruptedTrace { reason: String },
    ValidationFailed { reason: String },
}

/// The message of a replay error.
pub open spec fn spec_replay_error_text(e: ReplayEngineError) -> Seq<char> {
    match e {
        ReplayEngineError::EmptyTrace => "Trace is empty"@,
        ReplayEngineError::EventMismatch { expected, actual } => "Event mismatch: expected "@ + expected@
            + ", got "@ + actual@,
        ReplayEngineError::MissingSnapshot { id } => "Missing snapshot: "@ + id@,
        ReplayEngineError::CorruptedTrace { reason } => "Corrupted trace: "@ + reason@,
        ReplayEngineError::ValidationFailed { reason } => "Validation failed: "@ + reason@,
    }
}

impl ReplayEngineError {
    /// The error message.
    pub fn to_string(&self) -> (s: String)
        ensures
            s@ == spec_replay_error_text(*self),
    {
        match self {
            ReplayEngineError::EmptyTrace => "Trace is empty".to_owned(),
            ReplayEngineError::EventMismatch { expected, actual } => {
                let a = cat2("Event mismatch: expected ", expected.as_str());
                let b = cat2(a.as_str(), ", got ");
                cat2(b.as_str(), actual.as_str())
            },
            ReplayEngineError::MissingSnapshot { id } => cat2("Missing snapshot: ", id.as_str()),
            ReplayEngineError::CorruptedTrace { reason } => cat2("Corrupted trace: ", reason.as_str()),
            ReplayEngineError::ValidationFailed { reason } => cat2("Validation failed: ", reason.as_str()),
        }
    }

    /// The core error it becomes: a validation error of the replay.
    pub fn into_core(self) -> (e: CoreError)
        ensures
            e matches CoreError::Validation { field, reason } && field@ == "replay"@ && reason@
                == spec_replay_error_text(self),
    {
        let reason = self.to_string();
        CoreError::Validation { field: "replay".to_owned(), reason }
    }
}

/// A state with `other` merged in.
pub open spec fn merged(a: ReconView, b: ReconView) -> ReconView {
    ReconView {
        nodes: put_all(a.nodes, b.nodes),
        globals: text_put_all(a.globals, b.globals),
        errors: a.errors + b.errors,
        time: if a.time >= b.time { a.time } else { b.time },
    }
}

/// The node states with the state of `k`, if known, replaced by `s`.
pub open spec fn set_known(ns: Seq<(u128, NodeStateView)>, k: u128, s: NodeStateView) -> Seq<(u128, NodeStateView)> {
    if key_pos(ns, k) >= 0 {
        put_at(ns, k, s)
    } else {
        ns
    }
}

/// What one event does to the rebuilt state, after time advances by one: a
/// started node gets a fresh state; a completed node, if known, is completed
/// with the event's data; a failed node adds an error and, if known, is not
/// completed and holds the exit code; produced output, if the node is known,
/// becomes its output; a side effect, if the node is known, is added; a
/// denied capability adds an error; a snapshot, when one could be loaded
/// from the event's data, is merged in.
pub open spec fn spec_process(v: ReconView, e: TraceEvent, loaded: Option<ReconView>) -> ReconView {
    let t = (v.time + 1) as u64;
    let v1 = ReconView { time: t, ..v };
    let k = e.node_id.value;
    let cur = node_get(v1.nodes, k)->0;
    match e.kind {
        TraceEventKind::NodeStarted => ReconView {
            nodes: put_at(
                v1.nodes,
                k,
                NodeStateView { node: k, completed: false, output: None, error: None, side_effects: Seq::empty() },
            ),
            ..v1
        },
        TraceEventKind::NodeCompleted => ReconView {
            nodes: set_known(v1.nodes, k, NodeStateView { completed: true, output: Some(e.data@), ..cur }),
            ..v1
        },
        TraceEventKind::NodeFailed { exit_code } => ReconView {
            errors: v1.errors.push(
                ReplayErrorView {
                    node: k,
                    message: "Node failed with exit code "@ + spec_i32_decimal(exit_code),
                    time: t,
                },
            ),
            nodes: set_known(
                v1.nodes,
                k,
                NodeStateView {
                    completed: false,
                    error: Some("Exit code "@ + spec_i32_decimal(exit_code)),
                    ..cur
                },
            ),
            ..v1
        },
        TraceEventKind::OutputProduced => ReconView {
            nodes: set_known(v1.nodes, k, NodeStateView { output: Some(e.data@), ..cur }),
            ..v1
        },
        TraceEventKind::SideEffect { effect } => ReconView {
            nodes: set_known(v1.nodes, k, NodeStateView { side_effects: cur.side_effects.push(effect@), ..cur }),
            ..v1
        },
        TraceEventKind::CapabilityCheck { capability, allowed } => if allowed {
            v1
        } else {
            ReconView {
                errors: v1.errors.push(
                    ReplayErrorView { node: k, message: "Capability denied: "@ + capability@, time: t },
                ),
                ..v1
            }
        },
        TraceEventKind::Snapshot => match loaded {
            Some(s) => merged(v1, s),
            None => v1,
        },
    }
}

/// Replaying up to `n` of `es` from state `v`: events are taken in order;
/// when `stop` is set, the replay stops after an event that leaves errors.
/// The result is the state and the number of events taken.
pub open spec fn spec_replay(
    v: ReconView,
    es: Seq<TraceEvent>,
    n: nat,
    stop: bool,
    loader: Option<Seq<(Vec<u8>, crate::replay::snapshot::Snapshot)>>,
) -> (ReconView, nat)
    decreases n,
{
    if n == 0 || es.len() == 0 {
        (v, 0)
    } else {
        let loaded = match loader {
            Some(ds) => spec_load(ds, es[0].data@),
            None => None,
        };
        let v2 = spec_process(v, es[0], loaded);
        if stop && v2.errors.len() > 0 {
            (v2, 1)
        } else {
            let r = spec_replay(v2, es.drop_first(), (n - 1) as nat, stop, loader);
            (r.0, r.1 + 1)
        }
    }
}

/// Whether two states are equal as the maps compare them: the same number of
/// nodes, each node of `a` with the same state in `b`; likewise for global
/// values; the same errors and time.
pub open spec fn spec_states_equal(a: ReconView, b: ReconView) -> bool {
    &&& a.nodes.len() == b.nodes.len()
    &&& forall|i: int| 0 <= i < a.nodes.len() ==> node_get(b.nodes, #[trigger] a.nodes[i].0) == Some(a.nodes[i].1)
    &&& a.globals.len() == b.globals.len()
    &&& forall|i: int|
        0 <= i < a.globals.len() ==> text_get(b.globals, #[trigger] a.globals[i].0) == Some(a.globals[i].1)
    &&& a.errors == b.errors
    &&& a.time == b.time
}

/// A replay engine.
pub struct ReplayEngine {
    config: ReplayConfig,
    snapshot_loader: Option<SnapshotLoader>,
}

impl ReplayEngine {
    /// The settings.
    pub closed spec fn config_spec(&self) -> ReplayConfig {
        self.config
    }

    /// The decoded snapshots of the loader, when there is one.
    pub closed spec fn loader_spec(&self) -> Option<Seq<(Vec<u8>, crate::replay::snapshot::Snapshot)>> {
        match self.snapshot_loader {
            Some(l) => Some(l.decoded_spec()),
            None => None,
        }
    }

    /// An engine with the default settings and no snapshot loader.
    pub fn new() -> (e: Self)
        ensures
            e.config_spec() == (ReplayConfig {
                stop_on_error: true,
                validate_hash_chain: true,
                max_events: 0,
                enable_snapshots: true,
            }),
            e.loader_spec() is None,
    {
        ReplayEngine { config: ReplayConfig::default(), snapshot_loader: None }
    }

    /// The same engine with other settings.
    pub fn with_config(self, config: ReplayConfig) -> (e: Self)
        ensures
            e.config_spec() == config,
            e.loader_spec() == self.loader_spec(),
    {
        ReplayEngine { config, ..self }
    }

    /// The same engine with a snapshot loader.
    pub fn with_snapshot_loader(self, loader: SnapshotLoader) -> (e: Self)
        ensures
            e.config_spec() == self.config_spec(),
            e.loader_spec() == Some(loader.decoded_spec()),
    {
        ReplayEngine { snapshot_loader: Some(loader), ..self }
    }

    /// The settings.
    pub fn config(&self) -> (c: &ReplayConfig)
        ensures
            *c == self.config_spec(),
    {
        &self.config
    }

    /// One step of a replay driven event by event: applies `event` to
    /// `state` and says whether the replay goes on, which it does unless the
    /// engine stops on errors and the state holds one.
    pub fn replay_step(&self, state: &mut ReconstructedState, event: &TraceEvent) -> (r: Result<bool, CoreError>)
        requires
            old(state)@.time < u64::MAX,
        ensures
            final(state)@ == spec_process(
                old(state)@,
                *event,
                match self.loader_spec() {
                    Some(ds) => spec_load(ds, event.data@),
                    None => None,
                },
            ),
            r == Ok::<bool, CoreError>(!(self.config_spec().stop_on_error && final(state)@.errors.len() > 0)),
    {
        match self.process_event(state, event) {
            Ok(()) => {},
            Err(e) => {
                return Err(e);
            },
        }
        Ok(!(self.config.stop_on_error && state.has_errors()))
    }

    /// Applies one event to `state`.
    pub fn process_event(&self, state: &mut ReconstructedState, event: &TraceEvent) -> (r: Result<(), CoreError>)
        requires
            old(state)@.time < u64::MAX,
        ensures
            r is Ok,
            final(state)@ == spec_process(
                old(state)@,
                *event,
                match self.loader_spec() {
                    Some(ds) => spec_load(ds, event.data@),
                    None => None,
                },
            ),
    {
        state.tick();
        let ghost v1 = state@;
        let k = event.node_id;
        match &event.kind {
            TraceEventKind::NodeStarted => {
                state.add_node_state(k, NodeState::new(k));
            },
            TraceEventKind::NodeCompleted => {
                match state.get_node_state(k) {
                    Some(s) => {
                        let mut n = s.duplicate();
                        n.completed = true;
                        n.output = Some(copy_bytes(event.data.as_slice()));
                        state.add_node_state(k, n);
                    },
                    None => {},
                }
            },
            TraceEventKind::NodeFailed { exit_code } => {
                let code = i32_to_decimal(*exit_code);
                let message = cat2("Node failed with exit code ", code.as_str());
                let t = state.time();
                state.add_error(ReplayError { node_id: k, message, time: t });
                match state.get_node_state(k) {
                    Some(s) => {
                        let mut n = s.duplicate();
                        n.completed = false;
                        n.error = Some(cat2("Exit code ", code.as_str()));
                        state.add_node_state(k, n);
                    },
                    None => {},
                }
            },
            TraceEventKind::OutputProduced => {
                match state.get_node_state(k) {
                    Some(s) => {
                        let mut n = s.duplicate();
                        n.output = Some(copy_bytes(event.data.as_slice()));
                        state.add_node_state(k, n);
                    },
                    None => {},
                }
            },
            TraceEventKind::SideEffect { effect } => {
                match state.get_node_state(k) {
                    Some(s) => {
                        let n = s.duplicate().with_side_effect(effect.clone());
                        state.add_node_state(k, n);
                    },
                    None => {},
                }
            },
            TraceEventKind::CapabilityCheck { capability, allowed } => {
                if !*allowed {
                    let message = cat2("Capability denied: ", capability.as_str());
                    let t = state.time();
                    state.add_error(ReplayError { node_id: k, message, time: t });
                }
            },
            TraceEventKind::Snapshot => {
                match &self.snapshot_loader {
                    Some(loader) => {
                        match loader.load(event.data.as_slice()) {
                            Ok(s) => {
                                state.merge(s);
                            },
                            Err(_) => {},
                        }
                    },
                    None => {},
                }
            },
        }
        Ok(())
    }

    #[verifier::rlimit(60)]
    /// Replays `reader`: an empty trace is an error; otherwise events are
    /// taken in order, up to the configured limit (all when it is 0), and
    /// with stop-on-error the replay ends after the first event that leaves
    /// errors.
    pub fn replay(&self, reader: &mut TraceReader) -> (r: Result<ReconstructedState, CoreError>)
        requires
            old(reader).buffer_spec().len() < u64::MAX,
            self.loader_spec() matches Some(ds) ==> forall|i: int|
                0 <= i < ds.len() ==> (#[trigger] ds[i]).1.state@.time + old(reader).buffer_spec().len() < u64::MAX,
        ensures
            old(reader).buffer_spec().len() == 0 ==> (r matches Err(CoreError::Validation { field, reason })
                && field@ == "replay"@ && reason@ == "Trace is empty"@),
            old(reader).buffer_spec().len() > 0 ==> ({
                let n: nat = if self.config_spec().max_events > 0 {
                    self.config_spec().max_events as nat
                } else {
                    old(reader).total_spec() as nat
                };
                let out = spec_replay(
                    ReconView { nodes: Seq::empty(), globals: Seq::empty(), errors: Seq::empty(), time: 0 },
                    old(reader).buffer_spec(),
                    n,
                    self.config_spec().stop_on_error,
                    self.loader_spec(),
                );
                &&& r matches Ok(s) && s@ == out.0
                &&& final(reader).buffer_spec() == old(reader).buffer_spec().skip(out.1 as int)
            }),
            final(reader).total_spec() == old(reader).total_spec(),
            final(reader).position_spec() == old(reader).position_spec(),
    {
        let mut state = ReconstructedState::new();
        if !reader.has_more() {
            return Err(ReplayEngineError::EmptyTrace.into_core());
        }
        let event_count = reader.total();
        let max_events = if self.config.max_events > 0 {
            self.config.max_events
        } else {
            event_count
        };
        let ghost es0 = reader.buffer_spec();
        let ghost n0: nat = max_events as nat;
        let ghost empty = ReconView { nodes: Seq::empty(), globals: Seq::empty(), errors: Seq::empty(), time: 0 };
        let ghost total = spec_replay(empty, es0, n0, self.config.stop_on_error, self.loader_spec());
        let ghost mut done: nat = 0;
        let mut i: usize = 0;
        while i < max_events
            invariant
                i <= max_events,
                n0 == max_events,
                n0 == (if self.config_spec().max_events > 0 {
                    self.config_spec().max_events as nat
                } else {
                    old(reader).total_spec() as nat
                }),
                empty == (ReconView { nodes: Seq::empty(), globals: Seq::empty(), errors: Seq::empty(), time: 0 }),
                done == i,
                es0 == old(reader).buffer_spec(),
                total == spec_replay(empty, es0, n0, self.config_spec().stop_on_error, self.loader_spec()),
                reader.buffer_spec() == es0.skip(done as int),
                done <= es0.len(),
                reader.total_spec() == old(reader).total_spec(),
                reader.position_spec() == old(reader).position_spec(),
                state@.time + reader.buffer_spec().len() < u64::MAX,
                self.loader_spec() matches Some(ds) ==> forall|j: int|
                    0 <= j < ds.len() ==> (#[trigger] ds[j]).1.state@.time + es0.len() < u64::MAX,
                ({
                    let rest = spec_replay(
                        state@,
                        reader.buffer_spec(),
                        (n0 - done) as nat,
                        self.config_spec().stop_on_error,
                        self.loader_spec(),
                    );
                    &&& total.0 == rest.0
                    &&& total.1 == done + rest.1
                }),
            ensures
                i >= max_events || reader.buffer_spec().len() == 0,
            decreases max_events - i,
        {
            if !reader.has_more() {
                break;
            }
            let ghost v0 = state@;
            let ghost buf = reader.buffer_spec();
            let ghost rb = spec_replay(
                v0,
                buf,
                (n0 - done) as nat,
                self.config_spec().stop_on_error,
                self.loader_spec(),
            );
            let event = match reader.next_event() {
                Ok(e) => e,
                Err(e) => {
                    return Err(e);
                },
            };
            proof {
                assert(buf.drop_first() =~= es0.skip(done + 1int));
                assert(buf[0] == event);
                match self.loader_spec() {
                    Some(ds) => {
                        if has_decoded_spec(ds, event.data@) {
                            crate::replay::snapshot::lemma_decoded_at(ds, event.data@);
                            let k = crate::replay::snapshot::decoded_at(ds, event.data@);
                            assert(ds[k].1.state@.time + es0.len() < u64::MAX);
                        }
                    },
                    None => {},
                }
            }
            match self.process_event(&mut state, &event) {
                Ok(()) => {},
                Err(e) => {
                    return Err(e);
                },
            }
            proof {
                done = done + 1;
            }
            i = i + 1;
            if self.config.stop_on_error && state.has_errors() {
                proof {
                    assert(rb == (state@, 1nat));
                }
                return Ok(state);
            }
            proof {
                assert(buf.drop_first() == reader.buffer_spec());
            }
        }
        proof {
            let rest = spec_replay(
                state@,
                reader.buffer_spec(),
                (n0 - done) as nat,
                self.config_spec().stop_on_error,
                self.loader_spec(),
            );
            assert(rest.1 == 0);
        }
        Ok(state)
    }

    /// Whether two traces rebuild equal states; an error of either replay
    /// is returned.
    pub fn verify_equivalence(&self, reader1: &mut TraceReader, reader2: &mut TraceReader) -> (r: Result<bool, CoreError>)
        requires
            old(reader1).buffer_spec().len() < u64::MAX,
            old(reader2).buffer_spec().len() < u64::MAX,
            self.loader_spec() matches Some(ds) ==> forall|i: int|
                0 <= i < ds.len() ==> (#[trigger] ds[i]).1.state@.time + old(reader1).buffer_spec().len()
                    < u64::MAX && ds[i].1.state@.time + old(reader2).buffer_spec().len() < u64::MAX,
        ensures
            old(reader1).buffer_spec().len() == 0 ==> r is Err,
            old(reader1).buffer_spec().len() > 0 && old(reader2).buffer_spec().len() == 0 ==> r is Err,
            old(reader1).buffer_spec().len() > 0 && old(reader2).buffer_spec().len() > 0 ==> ({
                let n1: nat = if self.config_spec().max_events > 0 {
                    self.config_spec().max_events as nat
                } else {
                    old(reader1).total_spec() as nat
                };
                let n2: nat = if self.config_spec().max_events > 0 {
                    self.config_spec().max_events as nat
                } else {
                    old(reader2).total_spec() as nat
                };
                let empty = ReconView { nodes: Seq::empty(), globals: Seq::empty(), errors: Seq::empty(), time: 0 };
                let s1 = spec_replay(
                    empty,
                    old(reader1).buffer_spec(),
                    n1,
                    self.config_spec().stop_on_error,
                    self.loader_spec(),
                ).0;
                let s2 = spec_replay(
                    empty,
                    old(reader2).buffer_spec(),
                    n2,
                    self.config_spec().stop_on_error,
                    self.loader_spec(),
                ).0;
                r == Ok::<bool, CoreError>(spec_states_equal(s1, s2))
            }),
    {
        let state1 = match self.replay(reader1) {
            Ok(s) => s,
            Err(e) => {
                return Err(e);
            },
        };
        let state2 = match self.replay(reader2) {
            Ok(s) => s,
            Err(e) => {
                return Err(e);
            },
        };
        Ok(states_equal(&state1, &state2))
    }
}

/// Whether some decoded entry came from `data`.
pub open spec fn has_decoded_spec(ds: Seq<(Vec<u8>, crate::replay::snapshot::Snapshot)>, data: Seq<u8>) -> bool {
    crate::replay::snapshot::has_decoded(ds, data)
}

/// Whether two states are equal as the maps compare them.
pub fn states_equal(a: &ReconstructedState, b: &ReconstructedState) -> (r: bool)
    ensures
        r == spec_states_equal(a@, b@),
{
    let ghost an = a@.nodes;
    let ghost bn = b@.nodes;
    if a.total_nodes() != b.total_nodes() {
        return false;
    }
    let n = a.total_nodes();
    let mut i: usize = 0;
    while i < n
        invariant
            an == a@.nodes,
            bn == b@.nodes,
            n == an.len(),
            an.len() == bn.len(),
            i <= n,
            forall|j: int| 0 <= j < i ==> node_get(bn, #[trigger] an[j].0) == Some(an[j].1),
        decreases n - i,
    {
        let k = crate::replay::maps::node_states_key_at(&a.node_outputs, i);
        let sa = crate::replay::maps::node_states_value_at(&a.node_outputs, i);
        proof {
            assert(an[i as int] == (k.value, sa@));
        }
        match b.get_node_state(k) {
            Some(sb) => {
                if !sa.same_as(sb) {
                    assert(node_get(bn, an[i as int].0) != Some(an[i as int].1));
                    return false;
                }
            },
            None => {
                assert(node_get(bn, an[i as int].0) != Some(an[i as int].1));
                return false;
            },
        }
        i = i + 1;
    }
    let ghost ag = a@.globals;
    let ghost bg = b@.globals;
    let ga = crate::replay::maps::globals_len(&a.global_state);
    if ga != crate::replay::maps::globals_len(&b.global_state) {
        return false;
    }
    let mut j: usize = 0;
    while j < ga
        invariant
            ag == a@.globals,
            bg == b@.globals,
            ga == ag.len(),
            ag.len() == bg.len(),
            an == a@.nodes,
            bn == b@.nodes,
            an.len() == bn.len(),
            forall|x: int| 0 <= x < an.len() ==> node_get(bn, #[trigger] an[x].0) == Some(an[x].1),
            j <= ga,
            forall|x: int| 0 <= x < j ==> text_get(bg, #[trigger] ag[x].0) == Some(ag[x].1),
        decreases ga - j,
    {
        let key = crate::replay::maps::globals_key_at(&a.global_state, j);
        let va = crate::replay::maps::globals_value_at(&a.global_state, j);
        match b.get_global(key.as_str()) {
            Some(vb) => {
                if !bytes_eq(va.as_slice(), vb) {
                    assert(text_get(bg, ag[j as int].0) != Some(ag[j as int].1));
                    return false;
                }
            },
            None => {
                assert(text_get(bg, ag[j as int].0) != Some(ag[j as int].1));
                return false;
            },
        }
        j = j + 1;
    }
    if a.errors.len() != b.errors.len() {
        assert(a@.errors.len() != b@.errors.len());
        return false;
    }
    let mut e: usize = 0;
    while e < a.errors.len()
        invariant
            a.errors@.len() == b.errors@.len(),
            e <= a.errors@.len(),
            forall|x: int| 0 <= x < e ==> a.errors@[x]@ == b.errors@[x]@,
        decreases a.errors@.len() - e,
    {
        let x = &a.errors[e];
        let y = &b.errors[e];
        if x.node_id != y.node_id || x.time != y.time || !crate::core_types::text::str_eq(
            x.message.as_str(),
            y.message.as_str(),
        ) {
            assert(a@.errors[e as int] != b@.errors[e as int]);
            return false;
        }
        e = e + 1;
    }
    assert(a@.errors =~= b@.errors);
    a.time == b.time
}

impl Default for ReplayEngine {
    /// An engine with the default settings.
    fn default() -> (e: Self)
        ensures
            e.loader_spec() is None,
    {
        ReplayEngine::new()
    }
}

} // verus!
