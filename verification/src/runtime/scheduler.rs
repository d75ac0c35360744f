//! Deterministic scheduling of a DAG's nodes: the ready node with the
//! smallest identifier runs first, logical time advances with every node
//! that finishes, and a node becomes ready once all its dependencies have
//! completed.
use vstd::prelude::*;
use std::collections::BTreeSet;
use indexmap::{IndexMap, IndexSet};
use vstd::std_specs::iter::IteratorSpec;
use crate::core_types::error::{CoreError, cat2};
use crate::core_types::id::NodeId;
use crate::core_types::time::LogicalTime;
use crate::plan::collections::{
    dep_find, dep_keys_unique, dep_map_entries, dep_map_add, dep_map_get, dep_map_insert, dep_map_key_at,
    dep_map_len, dep_map_new, dep_map_set_at, id_set_clone, id_set_contains, id_set_get, id_set_insert,
    id_set_items, id_set_len, id_set_new,
};
use crate::plan::dag::{Edge, ids, node_debug, push_targets, spec_node_debug};
use crate::plan::reach::{
    candidates, has_edge, lemma_closed_holds_reachable, lemma_edge_in_targets, lemma_reaches_self,
    lemma_reaches_step, lemma_targets_are_edges, lemma_targets_candidates, lemma_unique_candidates_bound,
    reaches, targets_from,
};

verus! {

/// What to do next.
#[derive(Debug, Clone, Copy, PartialEq, Eq, Structural)]
pub enum ScheduleDecision {
    /// Run this node.
    Run(NodeId),
    /// Nodes remain but none is ready.
    Wait,
    /// Every node has finished.
    Complete,
}

/// A scheduling error.
#[derive(Debug, Clone, Copy, PartialEq, Eq, Structural)]
pub enum ScheduleError {
    NodeNotFound { node_id: NodeId },
    CycleDetected { node_id: NodeId },
    InvalidState,
}

impl ScheduleError {
    /// The error message.
    pub fn to_string(&self) -> (s: String)
        ensures
            s@ == (match *self {
                ScheduleError::NodeNotFound { node_id } => "Node not found: "@ + spec_node_debug(node_id),
                ScheduleError::CycleDetected { node_id } => "Cycle detected at: "@ + spec_node_debug(node_id),
                ScheduleError::InvalidState => "Invalid scheduler state"@,
            }),
    {
        match self {
            ScheduleError::NodeNotFound { node_id } => {
                let d = node_debug(*node_id);
                cat2("Node not found: ", d.as_str())
            },
            ScheduleError::CycleDetected { node_id } => {
                let d = node_debug(*node_id);
                cat2("Cycle detected at: ", d.as_str())
            },
            ScheduleError::InvalidState => "Invalid scheduler state".to_owned(),
        }
    }
}

/// The edges from node `k` to each of its dependencies `ds`.
pub open spec fn entry_edges(k: u128, ds: Seq<u128>) -> Seq<Edge> {
    ds.map_values(|d: u128| Edge { from: NodeId { value: k }, to: NodeId { value: d }, from_port: None, to_port: None })
}

/// The dependency edges of every entry, in order.
pub open spec fn dep_edges(es: Seq<(u128, Seq<u128>)>) -> Seq<Edge>
    decreases es.len(),
{
    if es.len() == 0 {
        Seq::empty()
    } else {
        dep_edges(es.drop_last()) + entry_edges(es.last().0, es.last().1)
    }
}

/// Whether `a` depends on `b` through one dependency edge or more.
pub open spec fn depends_via(edges: Seq<Edge>, a: u128, b: u128) -> bool {
    exists|t: u128| #[trigger] has_edge(edges, a, t) && reaches(edges, t, b)
}

/// Whether, by the recorded dependencies, `a` depends on `b`, directly or
/// through other nodes.
pub open spec fn depends_on(es: Seq<(u128, Seq<u128>)>, a: u128, b: u128) -> bool {
    depends_via(dep_edges(es), a, b)
}

/// The dependency edges recorded in a map.
fn collect_edges(m: &IndexMap<NodeId, IndexSet<NodeId>>) -> (v: Vec<Edge>)
    ensures
        v@ == dep_edges(dep_map_entries(*m)),
{
    let ghost es = dep_map_entries(*m);
    let mut v: Vec<Edge> = Vec::new();
    let n = dep_map_len(m);
    let mut i: usize = 0;
    while i < n
        invariant
            n == es.len(),
            es == dep_map_entries(*m),
            i <= n,
            v@ == dep_edges(es.take(i as int)),
        decreases n - i,
    {
        let k = dep_map_key_at(m, i);
        let set = dep_map_set_at(m, i);
        let ghost ds = es[i as int].1;
        let ghost base = v@;
        let len = id_set_len(set);
        let mut j: usize = 0;
        while j < len
            invariant
                len == ds.len(),
                ds == id_set_items(*set),
                j <= len,
                k.value == es[i as int].0,
                v@ == base + entry_edges(k.value, ds.take(j as int)),
            decreases len - j,
        {
            let d = id_set_get(set, j).unwrap();
            v.push(Edge::new(k, d));
            proof {
                assert(entry_edges(k.value, ds.take(j + 1)) =~= entry_edges(k.value, ds.take(j as int)).push(
                    Edge { from: k, to: d, from_port: None, to_port: None },
                ));
            }
            j = j + 1;
        }
        proof {
            assert(ds.take(len as int) =~= ds);
            assert(es.take(i + 1).drop_last() =~= es.take(i as int));
            assert(es.take(i + 1).last() == es[i as int]);
        }
        i = i + 1;
    }
    assert(es.take(n as int) =~= es);
    v
}

/// Whether `a` depends on `b` along `edges`: a depth-first search from the
/// targets of `a`.
fn depends(edges: &Vec<Edge>, a: NodeId, b: NodeId) -> (r: bool)
    ensures
        r == depends_via(edges@, a.value, b.value),
{
    let ghost es = edges@;
    let ghost s = a.value;
    let mut stack: Vec<NodeId> = Vec::new();
    let mut visited: Vec<u128> = Vec::new();
    push_targets(edges, a, &mut stack);
    proof {
        assert(ids(stack@) =~= targets_from(es, s));
        assert forall|k: int| 0 <= k < stack@.len() implies candidates(es, s).contains(
            #[trigger] stack@[k].value,
        ) && depends_via(es, s, stack@[k].value) by {
            assert(ids(stack@)[k] == stack@[k].value);
            lemma_targets_candidates(es, s, s, k);
            lemma_targets_are_edges(es, s, k);
            let i = choose|i: int|
                0 <= i < es.len() && #[trigger] es[i].from.value == s && es[i].to.value == targets_from(es, s)[k];
            assert(has_edge(es, s, stack@[k].value));
            lemma_reaches_self(es, stack@[k].value);
        }
        assert forall|w: u128| #[trigger] has_edge(es, s, w) implies ids(stack@).contains(w) by {
            let i = choose|i: int| 0 <= i < es.len() && #[trigger] es[i].from.value == s && es[i].to.value == w;
            lemma_edge_in_targets(es, i);
        }
    }
    while stack.len() > 0
        invariant
            es == edges@,
            s == a.value,
            visited@.no_duplicates(),
            visited@.len() <= es.len() + 1,
            !visited@.contains(b.value),
            forall|k: int| 0 <= k < visited@.len() ==> candidates(es, s).contains(#[trigger] visited@[k]),
            forall|k: int| 0 <= k < stack@.len() ==> candidates(es, s).contains(#[trigger] stack@[k].value),
            forall|k: int| 0 <= k < visited@.len() ==> depends_via(es, s, #[trigger] visited@[k]),
            forall|k: int| 0 <= k < stack@.len() ==> depends_via(es, s, #[trigger] stack@[k].value),
            forall|w: u128| #[trigger] has_edge(es, s, w) ==> visited@.contains(w) || ids(stack@).contains(w),
            forall|u: u128, w: u128|
                visited@.contains(u) && #[trigger] has_edge(es, u, w) ==> visited@.contains(w) || ids(
                    stack@,
                ).contains(w),
        decreases es.len() + 1 - visited@.len(), stack@.len(),
    {
        let ghost st = stack@;
        let ghost vis = visited@;
        let cur = stack.pop().unwrap();
        proof {
            assert(ids(st) =~= ids(stack@).push(cur.value));
            assert(st[st.len() - 1] == cur);
            assert forall|w: u128| ids(st).contains(w) implies w == cur.value || ids(stack@).contains(w) by {
                let k = choose|k: int| 0 <= k < ids(st).len() && ids(st)[k] == w;
                if k < st.len() - 1 {
                    assert(ids(stack@)[k] == w);
                }
            }
        }
        if cur == b {
            return true;
        }
        let mut seen = false;
        let mut i: usize = 0;
        while i < visited.len()
            invariant
                i <= visited@.len(),
                seen <==> exists|k: int| 0 <= k < i && visited@[k] == cur.value,
            decreases visited@.len() - i,
        {
            if visited[i] == cur.value {
                seen = true;
            }
            i = i + 1;
        }
        if !seen {
            visited.push(cur.value);
            let ghost mid = ids(stack@);
            push_targets(edges, cur, &mut stack);
            proof {
                let vis2 = visited@;
                let t = targets_from(es, cur.value);
                assert(ids(stack@) == mid + t);
                assert(ids(stack@).len() == stack@.len());
                assert(vis2 =~= vis.push(cur.value));
                assert(!vis.contains(cur.value));
                assert(vis2.no_duplicates()) by {
                    assert forall|x: int, y: int| 0 <= x < vis2.len() && 0 <= y < vis2.len() && x != y implies vis2[x]
                        != vis2[y] by {
                        if x < vis.len() && y < vis.len() {
                            assert(vis2[x] == vis[x] && vis2[y] == vis[y]);
                        } else if x < vis.len() {
                            assert(vis2[x] == vis[x]);
                        } else {
                            assert(vis2[y] == vis[y]);
                        }
                    }
                }
                assert(candidates(es, s).contains(cur.value));
                assert forall|k: int| 0 <= k < vis2.len() implies candidates(es, s).contains(#[trigger] vis2[k]) by {
                    if k < vis.len() {
                        assert(vis2[k] == vis[k]);
                    }
                }
                lemma_unique_candidates_bound(es, s, vis2);
                assert(depends_via(es, s, cur.value));
                let t0 = choose|t0: u128| #[trigger] has_edge(es, s, t0) && reaches(es, t0, cur.value);
                assert forall|k: int| 0 <= k < stack@.len() implies candidates(es, s).contains(
                    #[trigger] stack@[k].value,
                ) && depends_via(es, s, stack@[k].value) by {
                    assert(ids(stack@)[k] == stack@[k].value);
                    if k < mid.len() {
                        assert(ids(stack@)[k] == mid[k]);
                        assert(mid[k] == st[k].value);
                    } else {
                        let kk = k - mid.len();
                        assert(ids(stack@)[k] == t[kk]);
                        lemma_targets_candidates(es, s, cur.value, kk);
                        lemma_targets_are_edges(es, cur.value, kk);
                        let i = choose|i: int|
                            0 <= i < es.len() && #[trigger] es[i].from.value == cur.value && es[i].to.value == t[kk];
                        assert(has_edge(es, cur.value, t[kk]));
                        lemma_reaches_step(es, t0, cur.value, t[kk]);
                    }
                }
                assert forall|k: int| 0 <= k < vis2.len() implies depends_via(es, s, #[trigger] vis2[k]) by {
                    if k < vis.len() {
                        assert(vis2[k] == vis[k]);
                    }
                }
                assert forall|w: u128| mid.contains(w) implies ids(stack@).contains(w) by {
                    let k = choose|k: int| 0 <= k < mid.len() && mid[k] == w;
                    assert(ids(stack@)[k] == w);
                }
                assert forall|w: u128| #[trigger] has_edge(es, cur.value, w) implies ids(stack@).contains(w) by {
                    let i = choose|i: int|
                        0 <= i < es.len() && #[trigger] es[i].from.value == cur.value && es[i].to.value == w;
                    lemma_edge_in_targets(es, i);
                    let kk = choose|kk: int| 0 <= kk < t.len() && t[kk] == w;
                    assert(ids(stack@)[mid.len() + kk] == w);
                }
                assert(vis2[vis.len() as int] == cur.value);
                assert forall|w: u128| #[trigger] has_edge(es, s, w) implies vis2.contains(w) || ids(
                    stack@,
                ).contains(w) by {
                    if vis.contains(w) {
                        let k = choose|k: int| 0 <= k < vis.len() && vis[k] == w;
                        assert(vis2[k] == w);
                    } else if w == cur.value {
                    } else {
                        assert(ids(st).contains(w));
                        assert(mid.contains(w));
                    }
                }
                assert forall|u: u128, w: u128| vis2.contains(u) && #[trigger] has_edge(es, u, w) implies vis2.contains(
                    w,
                ) || ids(stack@).contains(w) by {
                    if u != cur.value {
                        let k = choose|k: int| 0 <= k < vis2.len() && vis2[k] == u;
                        assert(vis[k] == u);
                        assert(vis.contains(u));
                        if vis.contains(w) {
                            let k2 = choose|k2: int| 0 <= k2 < vis.len() && vis[k2] == w;
                            assert(vis2[k2] == w);
                        } else if w == cur.value {
                        } else {
                            assert(ids(st).contains(w));
                            assert(mid.contains(w));
                        }
                    }
                }
                assert(!vis2.contains(b.value)) by {
                    if vis2.contains(b.value) {
                        let k = choose|k: int| 0 <= k < vis2.len() && vis2[k] == b.value;
                        if k < vis.len() {
                            assert(vis[k] == b.value);
                        }
                    }
                }
            }
        } else {
            proof {
                let k = choose|k: int| 0 <= k < i && visited@[k] == cur.value;
                assert(visited@.contains(cur.value));
            }
        }
    }
    proof {
        if depends_via(es, s, b.value) {
            let t0 = choose|t0: u128| #[trigger] has_edge(es, s, t0) && reaches(es, t0, b.value);
            let set = visited@.to_set();
            assert(set.contains(t0));
            lemma_closed_holds_reachable(es, t0, set, b.value);
        }
    }
    false
}

/// One more item of a prefix adds exactly that item.
proof fn lemma_take_contains(s: Seq<u128>, i: int)
    requires
        0 <= i < s.len(),
    ensures
        forall|x: u128| #[trigger] s.take(i + 1).contains(x) <==> s.take(i).contains(x) || x == s[i],
{
    let a = s.take(i);
    let b = s.take(i + 1);
    assert forall|x: u128| #[trigger] b.contains(x) <==> a.contains(x) || x == s[i] by {
        if b.contains(x) {
            let k = choose|k: int| 0 <= k < b.len() && b[k] == x;
            if k < i {
                assert(a[k] == x);
            }
        }
        if a.contains(x) {
            let k = choose|k: int| 0 <= k < a.len() && a[k] == x;
            assert(b[k] == x);
        }
        if x == s[i] {
            assert(b[i] == x);
        }
    }
}

/// What a scheduler holds, as plain values.
pub struct SchedulerView {
    /// The nodes, in the order they were first added.
    pub nodes: Seq<u128>,
    pub ready: Set<u128>,
    pub completed: Set<u128>,
    pub failed: Set<u128>,
    /// Each node's dependencies.
    pub deps: Seq<(u128, Seq<u128>)>,
    /// Each node's dependents.
    pub dependents: Seq<(u128, Seq<u128>)>,
    pub time: nat,
}

/// A deterministic scheduler for the nodes of a DAG.
pub struct Scheduler {
    all_nodes: IndexSet<NodeId>,
    ready: BTreeSet<u128>,
    completed: BTreeSet<u128>,
    failed: BTreeSet<u128>,
    dependencies: IndexMap<NodeId, IndexSet<NodeId>>,
    dependents: IndexMap<NodeId, IndexSet<NodeId>>,
    time: LogicalTime,
}

impl View for Scheduler {
    type V = SchedulerView;

    closed spec fn view(&self) -> SchedulerView {
        SchedulerView {
            nodes: id_set_items(self.all_nodes),
            ready: self.ready@,
            completed: self.completed@,
            failed: self.failed@,
            deps: dep_map_entries(self.dependencies),
            dependents: dep_map_entries(self.dependents),
            time: self.time@,
        }
    }
}

/// The dependencies recorded for `n`; none when it was never added.
pub open spec fn deps_of(es: Seq<(u128, Seq<u128>)>, n: u128) -> Seq<u128> {
    if dep_find(es, n) >= 0 {
        es[dep_find(es, n)].1
    } else {
        Seq::empty()
    }
}

/// Whether every dependency of `n` has completed.
pub open spec fn spec_is_ready(es: Seq<(u128, Seq<u128>)>, completed: Set<u128>, n: u128) -> bool {
    forall|k: int| 0 <= k < deps_of(es, n).len() ==> completed.contains(#[trigger] deps_of(es, n)[k])
}

/// The smallest value of a set.
pub open spec fn is_least(s: Set<u128>, m: u128) -> bool {
    s.contains(m) && forall|y: u128| s.contains(y) ==> m <= y
}

/// The dependents of `n` that are ready once `completed` have completed and
/// that have not completed themselves.
pub open spec fn released(v: SchedulerView, n: u128, completed: Set<u128>) -> Set<u128> {
    Set::new(
        |d: u128|
            deps_of(v.dependents, n).contains(d) && spec_is_ready(v.deps, completed, d) && !completed.contains(d),
    )
}

/// The logical time after one more tick.
pub open spec fn next_time(t: nat) -> nat {
    if t + 1 <= u64::MAX {
        t + 1
    } else {
        u64::MAX as nat
    }
}

/// The dependents map after recording that `n` depends on each of `ds`.
pub open spec fn spec_add_dependents(es: Seq<(u128, Seq<u128>)>, ds: Seq<u128>, n: u128) -> Seq<(u128, Seq<u128>)>
    decreases ds.len(),
{
    if ds.len() == 0 {
        es
    } else {
        let prev = spec_add_dependents(es, ds.drop_last(), n);
        let d = ds.last();
        if dep_find(prev, d) < 0 {
            prev.push((d, seq![n]))
        } else {
            let i = dep_find(prev, d);
            let s = prev[i].1;
            prev.update(i, (d, if s.contains(n) { s } else { s.push(n) }))
        }
    }
}

/// The dependencies map after recording `ds` for `n`: a new node comes
/// last, a known node keeps its place and takes the new dependencies.
pub open spec fn spec_put_deps(es: Seq<(u128, Seq<u128>)>, n: u128, ds: Seq<u128>) -> Seq<(u128, Seq<u128>)> {
    if dep_find(es, n) < 0 {
        es.push((n, ds))
    } else {
        es.update(dep_find(es, n), (n, ds))
    }
}

/// The nodes that are ready after a reset: those recorded with no
/// dependencies.
pub open spec fn initially_ready(v: SchedulerView) -> Set<u128> {
    Set::new(|n: u128| v.nodes.contains(n) && dep_find(v.deps, n) >= 0 && v.deps[dep_find(v.deps, n)].1.len() == 0)
}

/// Whether no ready node is also completed.
pub open spec fn ready_apart(v: SchedulerView) -> bool {
    v.ready.disjoint(v.completed)
}

/// A ready node is never a completed one: adding a node, completing one,
/// failing one and resetting (each as the scheduler's operations describe
/// them) all keep the ready set apart from the completed set.
pub proof fn lemma_ready_never_completed(v: SchedulerView, n: u128, ds: Seq<u128>)
    requires
        ready_apart(v),
    ensures
        ready_apart(
            SchedulerView {
                ready: if ds.len() == 0 && !v.completed.contains(n) {
                    v.ready.insert(n)
                } else {
                    v.ready
                },
                ..v
            },
        ),
        ready_apart(
            SchedulerView {
                completed: v.completed.insert(n),
                ready: v.ready.remove(n).union(released(v, n, v.completed.insert(n))),
                time: next_time(v.time),
                ..v
            },
        ),
        ready_apart(
            SchedulerView { failed: v.failed.insert(n), ready: v.ready.remove(n), time: next_time(v.time), ..v },
        ),
        ready_apart(
            SchedulerView {
                ready: initially_ready(v),
                completed: Set::empty(),
                failed: Set::empty(),
                time: 0,
                ..v
            },
        ),
{
}

impl Scheduler {
    /// An empty scheduler at time zero.
    pub fn new() -> (s: Self)
        ensures
            s@ == (SchedulerView {
                nodes: Seq::empty(),
                ready: Set::empty(),
                completed: Set::empty(),
                failed: Set::empty(),
                deps: Seq::empty(),
                dependents: Seq::empty(),
                time: 0,
            }),
    {
        Scheduler {
            all_nodes: id_set_new(),
            ready: BTreeSet::new(),
            completed: BTreeSet::new(),
            failed: BTreeSet::new(),
            dependencies: dep_map_new(),
            dependents: dep_map_new(),
            time: LogicalTime::zero(),
        }
    }

    /// Whether `a` depends on `b`, directly or through other nodes, by the
    /// dependencies recorded so far.
    fn is_dependent_on(&self, a: NodeId, b: NodeId) -> (r: bool)
        ensures
            r == depends_on(self@.deps, a.value, b.value),
    {
        let edges = collect_edges(&self.dependencies);
        depends(&edges, a, b)
    }

    /// Adds `node_id` with dependencies `deps`. A node that depends on itself
    /// is refused, and so is a dependency `d` on which the node, by what is
    /// recorded of it already, depends; otherwise the node and its
    /// dependencies are recorded, it becomes a dependent of each of them, and
    /// without dependencies it is ready unless it has completed.
    pub fn add_node(&mut self, node_id: NodeId, deps: IndexSet<NodeId>) -> (r: Result<(), CoreError>)
        ensures
            id_set_items(deps).contains(node_id.value) ==> {
                &&& r matches Err(CoreError::Validation { field, reason }) && field@ == "dependencies"@
                    && reason@ == "node "@ + spec_node_debug(node_id) + " depends on itself (cycle)"@
                &&& final(self)@ == old(self)@
            },
            !id_set_items(deps).contains(node_id.value) && (exists|k: int|
                0 <= k < id_set_items(deps).len() && depends_on(
                    old(self)@.deps,
                    node_id.value,
                    #[trigger] id_set_items(deps)[k],
                )) ==> {
                &&& r matches Err(CoreError::Validation { field, reason }) && field@ == "dependencies"@
                    && reason@ == "cycle detected involving node "@ + spec_node_debug(node_id)
                &&& final(self)@ == old(self)@
            },
            !id_set_items(deps).contains(node_id.value) && !(exists|k: int|
                0 <= k < id_set_items(deps).len() && depends_on(
                    old(self)@.deps,
                    node_id.value,
                    #[trigger] id_set_items(deps)[k],
                )) ==> {
                &&& r is Ok
                &&& final(self)@ == (SchedulerView {
                    nodes: if old(self)@.nodes.contains(node_id.value) {
                        old(self)@.nodes
                    } else {
                        old(self)@.nodes.push(node_id.value)
                    },
                    deps: spec_put_deps(old(self)@.deps, node_id.value, id_set_items(deps)),
                    dependents: spec_add_dependents(old(self)@.dependents, id_set_items(deps), node_id.value),
                    ready: if id_set_items(deps).len() == 0 && !old(self)@.completed.contains(node_id.value) {
                        old(self)@.ready.insert(node_id.value)
                    } else {
                        old(self)@.ready
                    },
                    ..old(self)@
                })
            },
    {
        if id_set_contains(&deps, &node_id) {
            let d = node_debug(node_id);
            return Err(
                CoreError::Validation {
                    field: "dependencies".to_owned(),
                    reason: {
                        let t = cat2("node ", d.as_str());
                        cat2(t.as_str(), " depends on itself (cycle)")
                    },
                },
            );
        }
        let n = id_set_len(&deps);
        let ghost ds = id_set_items(deps);
        let mut i: usize = 0;
        while i < n
            invariant
                n == ds.len(),
                ds == id_set_items(deps),
                i <= n,
                self@ == old(self)@,
                !ds.contains(node_id.value),
                forall|k: int| 0 <= k < i ==> !depends_on(self@.deps, node_id.value, #[trigger] ds[k]),
            decreases n - i,
        {
            let d = id_set_get(&deps, i).unwrap();
            if self.is_dependent_on(node_id, d) {
                let t = node_debug(node_id);
                return Err(
                    CoreError::Validation {
                        field: "dependencies".to_owned(),
                        reason: cat2("cycle detected involving node ", t.as_str()),
                    },
                );
            }
            i = i + 1;
        }
        id_set_insert(&mut self.all_nodes, node_id);
        let copy = id_set_clone(&deps);
        dep_map_insert(&mut self.dependencies, node_id, copy);
        let ghost v1 = self@;
        let mut j: usize = 0;
        while j < n
            invariant
                n == ds.len(),
                ds == id_set_items(deps),
                j <= n,
                self@ == (SchedulerView { dependents: self@.dependents, ..v1 }),
                dep_map_entries(self.dependents) == spec_add_dependents(
                    dep_map_entries(old(self).dependents),
                    ds.take(j as int),
                    node_id.value,
                ),
            decreases n - j,
        {
            let d = id_set_get(&deps, j).unwrap();
            dep_map_add(&mut self.dependents, d, node_id);
            proof {
                assert(ds.take(j + 1).drop_last() =~= ds.take(j as int));
                assert(ds.take(j + 1).last() == d.value);
            }
            j = j + 1;
        }
        proof {
            assert(ds.take(n as int) =~= ds);
        }
        if n == 0 && !self.completed.contains(&node_id.value) {
            self.ready.insert(node_id.value);
        }
        Ok(())
    }

    /// The next step: the ready node with the smallest identifier; else wait
    /// while some node has neither completed nor failed; else complete.
    pub fn decide(&self) -> (d: ScheduleDecision)
        ensures
            self@.ready.len() > 0 ==> (d matches ScheduleDecision::Run(n) && is_least(self@.ready, n.value)),
            self@.ready.len() == 0 && self@.completed.len() + self@.failed.len() < self@.nodes.len() ==> d
                == ScheduleDecision::Wait,
            self@.ready.len() == 0 && self@.completed.len() + self@.failed.len() >= self@.nodes.len() ==> d
                == ScheduleDecision::Complete,
    {
        let ghost rem = vstd::std_specs::btree::spec_btree_keys_iter(&self.ready).remaining().unref();
        let mut best: Option<u128> = None;
        for x in it: self.ready.iter()
            invariant
                rem == it.seq().unref(),
                best is None <==> it.index() == 0,
                best matches Some(m) ==> (exists|k: int| 0 <= k < it.index() && rem[k] == m) && forall|k: int|
                    0 <= k < it.index() ==> m <= rem[k],
        {
            match best {
                None => {
                    best = Some(*x);
                },
                Some(m) => {
                    if *x < m {
                        best = Some(*x);
                    }
                },
            }
        }
        proof {
            assert(rem.to_set() == self@.ready);
        }
        match best {
            Some(m) => ScheduleDecision::Run(NodeId { value: m }),
            None => {
                let c = self.completed.len() as u128;
                let f = self.failed.len() as u128;
                let a = id_set_len(&self.all_nodes) as u128;
                if c + f < a {
                    ScheduleDecision::Wait
                } else {
                    ScheduleDecision::Complete
                }
            },
        }
    }

    /// Whether every dependency of `node_id` has completed.
    fn is_ready(&self, node_id: NodeId) -> (b: bool)
        ensures
            b == spec_is_ready(self@.deps, self@.completed, node_id.value),
    {
        match dep_map_get(&self.dependencies, &node_id) {
            Some(deps) => {
                let ghost ds = id_set_items(*deps);
                let n = id_set_len(deps);
                let mut i: usize = 0;
                while i < n
                    invariant
                        n == ds.len(),
                        ds == id_set_items(*deps),
                        ds == deps_of(self@.deps, node_id.value),
                        i <= n,
                        forall|k: int| 0 <= k < i ==> self@.completed.contains(#[trigger] ds[k]),
                    decreases n - i,
                {
                    let d = id_set_get(deps, i).unwrap();
                    if !self.completed.contains(&d.value) {
                        return false;
                    }
                    i = i + 1;
                }
                true
            },
            None => true,
        }
    }

    /// Records that `node_id` completed: it leaves the ready set, time
    /// advances by one tick, and each dependent that is now ready and has not
    /// completed becomes ready.
    pub fn mark_complete(&mut self, node_id: NodeId) -> (r: Result<(), CoreError>)
        ensures
            r is Ok,
            final(self)@ == (SchedulerView {
                completed: old(self)@.completed.insert(node_id.value),
                ready: old(self)@.ready.remove(node_id.value).union(
                    released(old(self)@, node_id.value, old(self)@.completed.insert(node_id.value)),
                ),
                time: next_time(old(self)@.time),
                ..old(self)@
            }),
    {
        self.ready.remove(&node_id.value);
        self.completed.insert(node_id.value);
        self.tick();
        let ghost v0 = old(self)@;
        let ghost comp = v0.completed.insert(node_id.value);
        let ghost base = v0.ready.remove(node_id.value);
        match dep_map_get(&self.dependents, &node_id) {
            Some(dependents) => {
                let ghost ds = id_set_items(*dependents);
                let n = id_set_len(dependents);
                let mut i: usize = 0;
                while i < n
                    invariant
                        n == ds.len(),
                        ds == id_set_items(*dependents),
                        ds == deps_of(v0.dependents, node_id.value),
                        i <= n,
                        self@ == (SchedulerView { ready: self@.ready, ..self@ }),
                        self@.completed == comp,
                        self@.deps == v0.deps,
                        self@.dependents == v0.dependents,
                        self@.nodes == v0.nodes,
                        self@.failed == v0.failed,
                        self@.time == next_time(v0.time),
                        self@.ready == base.union(
                            Set::new(
                                |d: u128|
                                    ds.take(i as int).contains(d) && spec_is_ready(v0.deps, comp, d)
                                        && !comp.contains(d),
                            ),
                        ),
                    decreases n - i,
                {
                    let d = id_set_get(dependents, i).unwrap();
                    let ghost before = self@.ready;
                    if self.is_ready(d) && !self.completed.contains(&d.value) {
                        self.ready.insert(d.value);
                    }
                    proof {
                        lemma_take_contains(ds, i as int);
                        assert(self@.ready =~= base.union(
                            Set::new(
                                |x: u128|
                                    ds.take(i + 1).contains(x) && spec_is_ready(v0.deps, comp, x)
                                        && !comp.contains(x),
                            ),
                        ));
                    }
                    i = i + 1;
                }
                proof {
                    assert(ds.take(n as int) =~= ds);
                    assert(self@.ready =~= base.union(released(v0, node_id.value, comp)));
                }
            },
            None => {
                proof {
                    assert(released(v0, node_id.value, comp) =~= Set::<u128>::empty());
                    assert(self@.ready =~= base.union(released(v0, node_id.value, comp)));
                }
            },
        }
        Ok(())
    }

    /// Records that `node_id` failed: it leaves the ready set and time
    /// advances by one tick; its dependents are not released.
    pub fn mark_failed(&mut self, node_id: NodeId) -> (r: Result<(), CoreError>)
        ensures
            r is Ok,
            final(self)@ == (SchedulerView {
                failed: old(self)@.failed.insert(node_id.value),
                ready: old(self)@.ready.remove(node_id.value),
                time: next_time(old(self)@.time),
                ..old(self)@
            }),
    {
        self.ready.remove(&node_id.value);
        self.failed.insert(node_id.value);
        self.tick();
        Ok(())
    }

    /// Advances logical time by one tick, saturating.
    fn tick(&mut self)
        ensures
            final(self)@ == (SchedulerView { time: next_time(old(self)@.time), ..old(self)@ }),
    {
        self.time = self.time.saturating_add(1);
    }

    /// The logical time.
    pub fn time(&self) -> (t: LogicalTime)
        ensures
            t@ == self@.time,
    {
        self.time
    }

    /// The number of ready nodes.
    pub fn ready_count(&self) -> (n: usize)
        ensures
            n == self@.ready.len(),
    {
        self.ready.len()
    }

    /// The number of completed nodes.
    pub fn completed_count(&self) -> (n: usize)
        ensures
            n == self@.completed.len(),
    {
        self.completed.len()
    }

    /// The number of failed nodes.
    pub fn failed_count(&self) -> (n: usize)
        ensures
            n == self@.failed.len(),
    {
        self.failed.len()
    }

    /// Whether every node has completed or failed and none is ready.
    pub fn is_complete(&self) -> (b: bool)
        ensures
            b == (self@.completed.len() + self@.failed.len() == self@.nodes.len() && self@.ready.len() == 0),
    {
        let c = self.completed.len() as u128;
        let f = self.failed.len() as u128;
        let a = id_set_len(&self.all_nodes) as u128;
        c + f == a && self.ready.len() == 0
    }

    /// Whether some node failed.
    pub fn has_failures(&self) -> (b: bool)
        ensures
            b == (self@.failed.len() > 0),
    {
        self.failed.len() > 0
    }

    /// Starts over: nothing completed or failed, time zero, and the nodes
    /// recorded without dependencies ready.
    pub fn reset(&mut self)
        ensures
            final(self)@ == (SchedulerView {
                ready: initially_ready(old(self)@),
                completed: Set::empty(),
                failed: Set::empty(),
                time: 0,
                ..old(self)@
            }),
    {
        self.ready.clear();
        self.completed.clear();
        self.failed.clear();
        self.time = LogicalTime::zero();
        let ghost v0 = old(self)@;
        let n = id_set_len(&self.all_nodes);
        let mut i: usize = 0;
        while i < n
            invariant
                n == v0.nodes.len(),
                i <= n,
                self@ == (SchedulerView { ready: self@.ready, ..self@ }),
                self@.nodes == v0.nodes,
                self@.deps == v0.deps,
                self@.dependents == v0.dependents,
                self@.completed == Set::<u128>::empty(),
                self@.failed == Set::<u128>::empty(),
                self@.time == 0,
                self@.ready == Set::new(
                    |x: u128|
                        v0.nodes.take(i as int).contains(x) && dep_find(v0.deps, x) >= 0 && v0.deps[dep_find(
                            v0.deps,
                            x,
                        )].1.len() == 0,
                ),
            decreases n - i,
        {
            let node = id_set_get(&self.all_nodes, i).unwrap();
            match dep_map_get(&self.dependencies, &node) {
                Some(deps) => {
                    if id_set_len(deps) == 0 {
                        self.ready.insert(node.value);
                    }
                },
                None => {},
            }
            proof {
                let ns = v0.nodes;
                lemma_take_contains(ns, i as int);
                assert(self@.ready =~= Set::new(
                    |x: u128|
                        ns.take(i + 1).contains(x) && dep_find(v0.deps, x) >= 0 && v0.deps[dep_find(v0.deps, x)].1.len()
                            == 0,
                ));
            }
            i = i + 1;
        }
        proof {
            assert(v0.nodes.take(n as int) =~= v0.nodes);
            assert(self@.ready =~= initially_ready(v0));
        }
    }

    /// The nodes.
    pub fn nodes(&self) -> (s: &IndexSet<NodeId>)
        ensures
            id_set_items(*s) == self@.nodes,
    {
        &self.all_nodes
    }

    /// The identifiers of the completed nodes.
    pub fn completed_nodes(&self) -> (s: &BTreeSet<u128>)
        ensures
            s@ == self@.completed,
    {
        &self.completed
    }

    /// The identifiers of the failed nodes.
    pub fn failed_nodes(&self) -> (s: &BTreeSet<u128>)
        ensures
            s@ == self@.failed,
    {
        &self.failed
    }
}

impl Default for Scheduler {
    /// An empty scheduler.
    fn default() -> (s: Self)
        ensures
            s@.nodes.len() == 0,
            s@.ready.len() == 0,
            s@.time == 0,
    {
        Scheduler::new()
    }
}

} // verus!
