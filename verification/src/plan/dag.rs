//! The typed DAG a workflow compiles to: nodes keyed by identifier, the edges
//! between them, and the entry and exit nodes.
use vstd::prelude::*;
use indexmap::{IndexMap, IndexSet};
use crate::core_types::capability::{Capability, spec_str_debug, str_debug};
use crate::core_types::error::{CoreError, cat2, cat4};
use crate::core_types::id::{NodeId, spec_uuid_text, uuid_text};
use crate::plan::collections::{
    node_map_entries, id_set_items, has_key, node_map_new, node_map_contains, node_map_insert,
    node_map_get, node_map_len, id_set_new, id_set_contains, id_set_insert,
};
use crate::plan::reach::{
    targets_from, reaches, candidates, has_edge, lemma_reaches_self, lemma_unique_candidates_bound,
    lemma_targets_are_edges, lemma_reaches_step, lemma_targets_candidates, lemma_closed_holds_reachable,
    lemma_edge_in_targets,
};

verus! {

/// A node of a workflow.
#[derive(Debug, Clone)]
pub struct Node {
    pub id: NodeId,
    pub kind: NodeKind,
    pub dependencies: IndexSet<NodeId>,
    pub capabilities: Vec<Capability>,
    pub resources: ResourceRequirements,
}

/// What a node does.
#[derive(Debug, Clone, PartialEq, Eq, Hash)]
pub enum NodeKind {
    /// Provides data to the workflow.
    Input { schema: String },
    /// Consumes the workflow's result.
    Output { schema: String },
    /// Runs a tool.
    Tool { name: String, version: String },
    /// Transforms data (a map step).
    Transform { function: String },
    /// Filters data.
    Filter { predicate: String },
    /// Folds data.
    Reduce { function: String, initial: Vec<u8> },
    /// Runs branches in parallel.
    Parallel { branches: usize },
    /// Runs steps in order.
    Sequence { steps: usize },
    /// Branches on a condition.
    Condition { condition: String },
    /// Iterates while a condition holds.
    Loop { condition: String, max_iterations: Option<u64> },
}

/// A dependency between two nodes.
#[derive(Debug, Clone, PartialEq, Eq, Hash)]
pub struct Edge {
    pub from: NodeId,
    pub to: NodeId,
    pub from_port: Option<String>,
    pub to_port: Option<String>,
}

/// The text of an optional port.
pub open spec fn port_view(p: Option<String>) -> Option<Seq<char>> {
    match p {
        Some(s) => Some(s@),
        None => None,
    }
}

/// The debug rendering of an optional port, as `std` writes an
/// `Option<String>`: `None`, or `Some(..)` around the string's rendering.
pub open spec fn spec_port_debug(p: Option<Seq<char>>) -> Seq<char> {
    match p {
        Some(s) => "Some("@ + spec_str_debug(s) + ")"@,
        None => "None"@,
    }
}

/// The debug rendering of an optional port.
fn port_debug(p: &Option<String>) -> (s: String)
    ensures
        s@ == spec_port_debug(port_view(*p)),
{
    match p {
        Some(t) => {
            let d = str_debug(t.as_str());
            proof {
                reveal_strlit("");
            }
            cat4("Some(", d.as_str(), ")", "")
        },
        None => {
            let mut s = String::new();
            s.append("None");
            s
        },
    }
}

/// `NodeId(<uuid>)`, the debug rendering of an identifier.
pub open spec fn spec_node_debug(id: NodeId) -> Seq<char> {
    "NodeId("@ + spec_uuid_text(id.value) + ")"@
}

/// The debug rendering of an identifier.
pub fn node_debug(id: NodeId) -> (s: String)
    ensures
        s@ == spec_node_debug(id),
{
    let u = uuid_text(id.value);
    let mut s = cat2("NodeId(", u.as_str());
    s.append(")");
    s
}

/// The debug rendering of an edge.
pub open spec fn spec_edge_debug(e: Edge) -> Seq<char> {
    "Edge { from: "@ + spec_node_debug(e.from) + ", to: "@ + spec_node_debug(e.to) + ", from_port: "@
        + spec_port_debug(port_view(e.from_port)) + ", to_port: "@ + spec_port_debug(port_view(e.to_port))
        + " }"@
}

impl Edge {
    /// An edge without ports.
    pub fn new(from: NodeId, to: NodeId) -> (e: Self)
        ensures
            e.from == from,
            e.to == to,
            e.from_port is None,
            e.to_port is None,
    {
        Edge { from, to, from_port: None, to_port: None }
    }

    /// An edge between the given ports.
    pub fn with_ports(from: NodeId, to: NodeId, from_port: String, to_port: String) -> (e: Self)
        ensures
            e.from == from,
            e.to == to,
            e.from_port == Some(from_port),
            e.to_port == Some(to_port),
    {
        Edge { from, to, from_port: Some(from_port), to_port: Some(to_port) }
    }

    /// The debug rendering of this edge.
    pub fn debug_text(&self) -> (s: String)
        ensures
            s@ == spec_edge_debug(*self),
    {
        let f = node_debug(self.from);
        let t = node_debug(self.to);
        let fp = port_debug(&self.from_port);
        let tp = port_debug(&self.to_port);
        let mut s = cat4("Edge { from: ", f.as_str(), ", to: ", t.as_str());
        s.append(", from_port: ");
        s.append(fp.as_str());
        s.append(", to_port: ");
        s.append(tp.as_str());
        s.append(" }");
        s
    }
}

/// Resource requirements of a node.
#[derive(Debug, Clone, Copy, PartialEq, Eq, Structural)]
pub struct ResourceRequirements {
    pub max_memory: Option<u64>,
    pub max_ticks: Option<u64>,
    pub cpu_shares: Option<u32>,
    pub disk_space: Option<u64>,
    pub network_bandwidth: Option<u64>,
}

impl ResourceRequirements {
    /// No requirements.
    pub fn new() -> (r: Self)
        ensures
            r.max_memory is None,
            r.max_ticks is None,
            r.cpu_shares is None,
            r.disk_space is None,
            r.network_bandwidth is None,
    {
        ResourceRequirements {
            max_memory: None,
            max_ticks: None,
            cpu_shares: None,
            disk_space: None,
            network_bandwidth: None,
        }
    }

    /// The requirements with a memory limit of `bytes`.
    pub fn with_max_memory(self, bytes: u64) -> (r: Self)
        ensures
            r == (ResourceRequirements { max_memory: Some(bytes), ..self }),
    {
        ResourceRequirements { max_memory: Some(bytes), ..self }
    }

    /// The requirements with a limit of `ticks` logical ticks.
    pub fn with_max_ticks(self, ticks: u64) -> (r: Self)
        ensures
            r == (ResourceRequirements { max_ticks: Some(ticks), ..self }),
    {
        ResourceRequirements { max_ticks: Some(ticks), ..self }
    }

    /// The requirements with `shares` CPU shares.
    pub fn with_cpu_shares(self, shares: u32) -> (r: Self)
        ensures
            r == (ResourceRequirements { cpu_shares: Some(shares), ..self }),
    {
        ResourceRequirements { cpu_shares: Some(shares), ..self }
    }
}

impl Default for ResourceRequirements {
    fn default() -> (r: Self)
        ensures
            r == ResourceRequirements::spec_none(),
    {
        ResourceRequirements::new()
    }
}

impl ResourceRequirements {
    /// No requirements.
    pub open spec fn spec_none() -> ResourceRequirements {
        ResourceRequirements {
            max_memory: None,
            max_ticks: None,
            cpu_shares: None,
            disk_space: None,
            network_bandwidth: None,
        }
    }
}

/// A directed graph of workflow nodes.
#[derive(Debug, Clone)]
pub struct Dag {
    pub nodes: IndexMap<NodeId, Node>,
    pub edges: Vec<Edge>,
    pub entry_nodes: IndexSet<NodeId>,
    pub exit_nodes: IndexSet<NodeId>,
}

/// The identifier values of a list of identifiers.
pub open spec fn ids(s: Seq<NodeId>) -> Seq<u128> {
    s.map_values(|n: NodeId| n.value)
}

/// Whether `e` closes a cycle along `edges`: its source is reachable from
/// its target (an edge from a node to itself always does).
pub open spec fn closes_cycle(edges: Seq<Edge>, e: Edge) -> bool {
    reaches(edges, e.to.value, e.from.value)
}

/// Whether both ends of edge `i` are nodes of the DAG.
pub open spec fn edge_ends_known(entries: Seq<(u128, Node)>, e: Edge) -> bool {
    has_key(entries, e.from.value) && has_key(entries, e.to.value)
}

/// The targets of the edges leaving `from`, in edge order.
pub open spec fn spec_dependents(edges: Seq<Edge>, from: u128) -> Seq<u128> {
    targets_from(edges, from)
}

/// The sources of the edges entering `to`, in edge order.
pub open spec fn spec_dependencies(edges: Seq<Edge>, to: u128) -> Seq<u128>
    decreases edges.len(),
{
    if edges.len() == 0 {
        Seq::empty()
    } else {
        spec_dependencies(edges.drop_last(), to) + (if edges.last().to.value == to {
            seq![edges.last().from.value]
        } else {
            Seq::empty()
        })
    }
}

/// Pushes the target of every edge leaving `from` onto `stack`, in edge order.
pub(crate) fn push_targets(edges: &Vec<Edge>, from: NodeId, stack: &mut Vec<NodeId>)
    ensures
        ids(final(stack)@) == ids(old(stack)@) + targets_from(edges@, from.value),
{
    let ghost base = ids(stack@);
    let mut j: usize = 0;
    while j < edges.len()
        invariant
            j <= edges@.len(),
            ids(stack@) == base + targets_from(edges@.take(j as int), from.value),
        decreases edges@.len() - j,
    {
        let ghost before = ids(stack@);
        assert(edges@.take(j + 1).drop_last() =~= edges@.take(j as int));
        if edges[j].from == from {
            stack.push(edges[j].to);
            assert(ids(stack@) =~= before.push(edges@[j as int].to.value));
        } else {
            assert(ids(stack@) =~= before);
        }
        j = j + 1;
        assert(ids(stack@) =~= base + targets_from(edges@.take(j as int), from.value));
    }
    assert(edges@.take(edges@.len() as int) =~= edges@);
}

impl Dag {
    /// An empty DAG.
    pub fn new() -> (d: Self)
        ensures
            node_map_entries(d.nodes).len() == 0,
            d.edges@.len() == 0,
            id_set_items(d.entry_nodes).len() == 0,
            id_set_items(d.exit_nodes).len() == 0,
    {
        Dag { nodes: node_map_new(), edges: Vec::new(), entry_nodes: id_set_new(), exit_nodes: id_set_new() }
    }

    /// Adds a node; refused when a node with its identifier exists. A node
    /// without dependencies becomes an entry node.
    pub fn add_node(&mut self, node: Node) -> (r: Result<(), CoreError>)
        ensures
            has_key(node_map_entries(old(self).nodes), node.id.value) ==> {
                &&& r matches Err(CoreError::AlreadyExists { kind, id }) && kind@ == "Node"@ && id@
                    == spec_node_debug(node.id)
                &&& *final(self) == *old(self)
            },
            !has_key(node_map_entries(old(self).nodes), node.id.value) ==> {
                &&& r is Ok
                &&& node_map_entries(final(self).nodes) == node_map_entries(old(self).nodes).push(
                    (node.id.value, node),
                )
                &&& id_set_items(node.dependencies).len() == 0 ==> id_set_items(final(self).entry_nodes)
                    == (if id_set_items(old(self).entry_nodes).contains(node.id.value) {
                    id_set_items(old(self).entry_nodes)
                } else {
                    id_set_items(old(self).entry_nodes).push(node.id.value)
                })
                &&& id_set_items(node.dependencies).len() != 0 ==> final(self).entry_nodes == old(
                    self,
                ).entry_nodes
                &&& final(self).edges == old(self).edges
                &&& final(self).exit_nodes == old(self).exit_nodes
            },
    {
        let id = node.id;
        if node_map_contains(&self.nodes, &id) {
            let t = node_debug(id);
            return Err(CoreError::AlreadyExists { kind: "Node".to_owned(), id: t });
        }
        if crate::plan::collections::id_set_len(&node.dependencies) == 0 {
            id_set_insert(&mut self.entry_nodes, id);
        }
        node_map_insert(&mut self.nodes, id, node);
        Ok(())
    }

    /// Appends an edge unless it would close a cycle: unless its source is
    /// reachable from its target.
    pub fn add_edge(&mut self, edge: Edge) -> (r: Result<(), CoreError>)
        ensures
            closes_cycle(old(self).edges@, edge) ==> {
                &&& r matches Err(CoreError::Validation { field, reason }) && field@ == "edge"@ && reason@
                    == "adding edge "@ + spec_edge_debug(edge) + " would create a cycle"@
                &&& *final(self) == *old(self)
            },
            !closes_cycle(old(self).edges@, edge) ==> {
                &&& r is Ok
                &&& final(self).edges@ == old(self).edges@.push(edge)
                &&& final(self).nodes == old(self).nodes
                &&& final(self).entry_nodes == old(self).entry_nodes
                &&& final(self).exit_nodes == old(self).exit_nodes
            },
    {
        match self.would_create_cycle(&edge) {
            Ok(true) => {
                let d = edge.debug_text();
                proof {
                    reveal_strlit("");
                }
                Err(CoreError::Validation {
                    field: "edge".to_owned(),
                    reason: cat4("adding edge ", d.as_str(), " would create a cycle", ""),
                })
            },
            Ok(false) => {
                self.edges.push(edge);
                Ok(())
            },
            Err(e) => Err(e),
        }
    }

    /// Whether adding `edge` would close a cycle: whether the edge's source
    /// is reachable from its target along the present edges (an edge from a
    /// node to itself always closes one). Found by a depth-first traversal
    /// from the target.
    pub fn would_create_cycle(&self, edge: &Edge) -> (r: Result<bool, CoreError>)
        ensures
            r == Ok::<bool, CoreError>(reaches(self.edges@, edge.to.value, edge.from.value)),
    {
        let ghost es = self.edges@;
        let ghost s = edge.to.value;
        let ghost goal = edge.from.value;
        let mut visited = id_set_new();
        let mut stack: Vec<NodeId> = Vec::new();
        stack.push(edge.to);
        proof {
            lemma_reaches_self(es, s);
            assert(ids(stack@) =~= seq![s]);
            assert(ids(stack@)[0] == s);
            assert(id_set_items(visited) =~= Seq::<u128>::empty());
            assert(candidates(es, s)[0] == s);
        }
        while stack.len() > 0
            invariant
                es == self.edges@,
                s == edge.to.value,
                goal == edge.from.value,
                id_set_items(visited).no_duplicates(),
                id_set_items(visited).len() <= es.len() + 1,
                !id_set_items(visited).contains(goal),
                id_set_items(visited).contains(s) || ids(stack@).contains(s),
                forall|a: u128, b: u128|
                    id_set_items(visited).contains(a) && #[trigger] has_edge(es, a, b) ==> id_set_items(
                        visited,
                    ).contains(b) || ids(stack@).contains(b),
                forall|k: int| 0 <= k < id_set_items(visited).len() ==> #[trigger] reaches(
                    es,
                    s,
                    id_set_items(visited)[k],
                ),
                forall|k: int| 0 <= k < stack@.len() ==> #[trigger] reaches(es, s, stack@[k].value),
                forall|k: int|
                    0 <= k < id_set_items(visited).len() ==> candidates(es, s).contains(
                        #[trigger] id_set_items(visited)[k],
                    ),
                forall|k: int| 0 <= k < stack@.len() ==> candidates(es, s).contains(#[trigger] stack@[k].value),
            decreases es.len() + 1 - id_set_items(visited).len(), stack@.len(),
        {
            let ghost st = ids(stack@);
            let ghost sv = stack@;
            let ghost vis = id_set_items(visited);
            let current = stack.pop().unwrap();
            let ghost mid = ids(stack@);
            proof {
                assert(st.drop_last() =~= mid);
                assert(st.last() == current.value);
                assert(sv[sv.len() - 1] == current);
                assert forall|b: u128| st.contains(b) implies mid.contains(b) || b == current.value by {
                    let k = choose|k: int| 0 <= k < st.len() && st[k] == b;
                    if k < st.len() - 1 {
                        assert(mid[k] == st[k]);
                    }
                }
                assert forall|k: int| 0 <= k < stack@.len() implies #[trigger] reaches(es, s, stack@[k].value)
                    && candidates(es, s).contains(stack@[k].value) by {
                    assert(stack@[k] == sv[k]);
                }
                assert forall|k: int| 0 <= k < stack@.len() implies candidates(es, s).contains(
                    #[trigger] stack@[k].value,
                ) by {
                    assert(stack@[k] == sv[k]);
                }
            }
            if current == edge.from {
                proof {
                    assert(reaches(es, s, sv[sv.len() - 1].value));
                }
                return Ok(true);
            }
            if id_set_contains(&visited, &current) {
                proof {
                    assert forall|a: u128, b: u128|
                        id_set_items(visited).contains(a) && #[trigger] has_edge(es, a, b) implies id_set_items(
                            visited,
                        ).contains(b) || ids(stack@).contains(b) by {
                        assert(vis.contains(b) || st.contains(b));
                    }
                }
            } else {
                id_set_insert(&mut visited, current);
                push_targets(&self.edges, current, &mut stack);
                proof {
                    let cur = current.value;
                    let vis2 = id_set_items(visited);
                    let t = targets_from(es, cur);
                    let st2 = ids(stack@);
                    assert(vis2 =~= vis.push(cur));
                    assert(st2 == mid + t);
                    assert(vis2.no_duplicates()) by {
                        assert forall|a: int, b: int| 0 <= a < vis2.len() && 0 <= b < vis2.len() && a != b implies vis2[a]
                            != vis2[b] by {
                            if a == vis.len() as int {
                                assert(vis2[b] == vis[b]);
                            } else if b == vis.len() as int {
                                assert(vis2[a] == vis[a]);
                            } else {
                                assert(vis2[a] == vis[a] && vis2[b] == vis[b]);
                            }
                        }
                    }
                    assert(candidates(es, s).contains(sv[sv.len() - 1].value));
                    assert(reaches(es, s, sv[sv.len() - 1].value));
                    assert forall|k: int| 0 <= k < vis2.len() implies #[trigger] reaches(es, s, vis2[k])
                        && candidates(es, s).contains(vis2[k]) by {
                        if k < vis.len() {
                            assert(vis2[k] == vis[k]);
                        }
                    }
                    lemma_unique_candidates_bound(es, s, vis2);
                    assert(!vis2.contains(goal)) by {
                        if vis2.contains(goal) {
                            let k = choose|k: int| 0 <= k < vis2.len() && vis2[k] == goal;
                            if k < vis.len() {
                                assert(vis[k] == goal);
                            }
                        }
                    }
                    assert forall|b: u128| mid.contains(b) implies st2.contains(b) by {
                        let k = choose|k: int| 0 <= k < mid.len() && mid[k] == b;
                        assert(st2[k] == mid[k]);
                    }
                    assert forall|b: u128| vis.contains(b) implies vis2.contains(b) by {
                        let k = choose|k: int| 0 <= k < vis.len() && vis[k] == b;
                        assert(vis2[k] == vis[k]);
                    }
                    assert(vis2[vis.len() as int] == cur);
                    assert forall|a: u128, b: u128| vis2.contains(a) && #[trigger] has_edge(es, a, b) implies vis2.contains(
                        b,
                    ) || st2.contains(b) by {
                        if a == cur {
                            let i = choose|i: int|
                                0 <= i < es.len() && #[trigger] es[i].from.value == a && es[i].to.value == b;
                            lemma_edge_in_targets(es, i);
                            let j = choose|j: int| 0 <= j < t.len() && t[j] == b;
                            assert(st2[mid.len() + j] == t[j]);
                        } else {
                            let k = choose|k: int| 0 <= k < vis2.len() && vis2[k] == a;
                            assert(k < vis.len());
                            assert(vis[k] == a);
                            assert(vis.contains(a));
                            assert(vis.contains(b) || st.contains(b));
                        }
                    }
                    assert(vis2.contains(s) || st2.contains(s)) by {
                        assert(vis.contains(s) || st.contains(s));
                    }
                    assert(st2.len() == stack@.len());
                    assert(st2.len() == mid.len() + t.len());
                    assert(mid.len() == sv.len() - 1);
                    assert forall|k: int| #![trigger stack@[k]] 0 <= k < stack@.len() implies reaches(es, s, stack@[k].value)
                        && candidates(es, s).contains(stack@[k].value) by {
                        assert(st2[k] == stack@[k].value);
                        if k < mid.len() {
                            assert(mid[k] == sv[k].value);
                            assert(reaches(es, s, sv[k].value));
                            assert(candidates(es, s).contains(sv[k].value));
                        } else {
                            let j = k - mid.len();
                            assert(st2[k] == t[j]);
                            lemma_targets_are_edges(es, cur, j);
                            lemma_reaches_step(es, s, cur, t[j]);
                            lemma_targets_candidates(es, s, cur, j);
                        }
                    }
                    assert forall|k: int| 0 <= k < stack@.len() implies candidates(es, s).contains(
                        #[trigger] stack@[k].value,
                    ) by {
                        let x = stack@[k];
                    }
                }
            }
        }
        proof {
            let vis = id_set_items(visited);
            let vs = vis.to_set();
            assert(ids(stack@) =~= Seq::<u128>::empty());
            assert(vs.contains(s));
            assert forall|a: u128, b: u128| vs.contains(a) && #[trigger] has_edge(es, a, b) implies vs.contains(b) by {
                assert(vis.contains(a));
                assert(vis.contains(b) || ids(stack@).contains(b));
            }
            if reaches(es, s, goal) {
                lemma_closed_holds_reachable(es, s, vs, goal);
            }
        }
        Ok(false)
    }
}

impl Dag {
    /// Checks that both ends of every edge are nodes, then that no edge lies
    /// on a cycle (its source reachable from its target); the first
    /// offending edge decides the error.
    pub fn validate(&self) -> (r: Result<(), CoreError>)
        ensures
            match r {
                Ok(()) => {
                    &&& forall|i: int| 0 <= i < self.edges@.len() ==> #[trigger] edge_ends_known(
                        node_map_entries(self.nodes),
                        self.edges@[i],
                    )
                    &&& forall|i: int| 0 <= i < self.edges@.len() ==> !#[trigger] closes_cycle(self.edges@, self.edges@[i])
                },
                Err(CoreError::NotFound { kind, id }) => {
                    &&& kind@ == "Node"@
                    &&& exists|i: int|
                        0 <= i < self.edges@.len() && (forall|j: int| 0 <= j < i ==> #[trigger] edge_ends_known(
                            node_map_entries(self.nodes),
                            self.edges@[j],
                        )) && !edge_ends_known(node_map_entries(self.nodes), #[trigger] self.edges@[i]) && id@
                            == (if !has_key(node_map_entries(self.nodes), self.edges@[i].from.value) {
                            spec_node_debug(self.edges@[i].from)
                        } else {
                            spec_node_debug(self.edges@[i].to)
                        })
                },
                Err(CoreError::Validation { field, reason }) => {
                    &&& field@ == "dag"@
                    &&& forall|i: int| 0 <= i < self.edges@.len() ==> #[trigger] edge_ends_known(
                        node_map_entries(self.nodes),
                        self.edges@[i],
                    )
                    &&& exists|i: int|
                        0 <= i < self.edges@.len() && (forall|j: int| 0 <= j < i ==> !#[trigger] closes_cycle(self.edges@, self.edges@[j])) && closes_cycle(self.edges@, #[trigger] self.edges@[i]) && reason@
                            == "cycle detected involving edge "@ + spec_edge_debug(self.edges@[i])
                },
                _ => false,
            },
    {
        let mut i: usize = 0;
        while i < self.edges.len()
            invariant
                i <= self.edges@.len(),
                forall|j: int| 0 <= j < i ==> #[trigger] edge_ends_known(node_map_entries(self.nodes), self.edges@[j]),
            decreases self.edges@.len() - i,
        {
            let e = &self.edges[i];
            if !node_map_contains(&self.nodes, &e.from) {
                let t = node_debug(e.from);
                return Err(CoreError::NotFound { kind: "Node".to_owned(), id: t });
            }
            if !node_map_contains(&self.nodes, &e.to) {
                let t = node_debug(e.to);
                return Err(CoreError::NotFound { kind: "Node".to_owned(), id: t });
            }
            i = i + 1;
        }
        let mut i: usize = 0;
        while i < self.edges.len()
            invariant
                i <= self.edges@.len(),
                forall|j: int| 0 <= j < self.edges@.len() ==> #[trigger] edge_ends_known(node_map_entries(self.nodes), self.edges@[j]),
                forall|j: int| 0 <= j < i ==> !#[trigger] closes_cycle(self.edges@, self.edges@[j]),
            decreases self.edges@.len() - i,
        {
            match self.would_create_cycle(&self.edges[i]) {
                Ok(true) => {
                    let d = self.edges[i].debug_text();
                    return Err(CoreError::Validation {
                        field: "dag".to_owned(),
                        reason: cat2("cycle detected involving edge ", d.as_str()),
                    });
                },
                Ok(false) => {},
                Err(e) => {
                    return Err(e);
                },
            }
            i = i + 1;
        }
        Ok(())
    }

    /// The node with identifier `id`.
    pub fn get_node(&self, id: NodeId) -> (r: Option<&Node>)
        ensures
            r is None <==> !has_key(node_map_entries(self.nodes), id.value),
            r matches Some(n) ==> exists|i: int|
                0 <= i < node_map_entries(self.nodes).len() && #[trigger] node_map_entries(self.nodes)[i] == (
                    id.value,
                    *n,
                ),
    {
        node_map_get(&self.nodes, &id)
    }

    /// The targets of the edges leaving `id`, in edge order.
    pub fn dependents(&self, id: NodeId) -> (v: Vec<NodeId>)
        ensures
            ids(v@) == spec_dependents(self.edges@, id.value),
    {
        let mut v: Vec<NodeId> = Vec::new();
        push_targets(&self.edges, id, &mut v);
        assert(ids(Seq::<NodeId>::empty()) =~= Seq::<u128>::empty());
        assert(Seq::<u128>::empty() + targets_from(self.edges@, id.value) =~= targets_from(self.edges@, id.value));
        v
    }

    /// The sources of the edges entering `id`, in edge order.
    pub fn dependencies(&self, id: NodeId) -> (v: Vec<NodeId>)
        ensures
            ids(v@) == spec_dependencies(self.edges@, id.value),
    {
        let mut v: Vec<NodeId> = Vec::new();
        let mut j: usize = 0;
        while j < self.edges.len()
            invariant
                j <= self.edges@.len(),
                ids(v@) == spec_dependencies(self.edges@.take(j as int), id.value),
            decreases self.edges@.len() - j,
        {
            let ghost before = ids(v@);
            assert(self.edges@.take(j + 1).drop_last() =~= self.edges@.take(j as int));
            if self.edges[j].to == id {
                v.push(self.edges[j].from);
                assert(ids(v@) =~= before.push(self.edges@[j as int].from.value));
            } else {
                assert(ids(v@) =~= before);
            }
            j = j + 1;
            assert(ids(v@) =~= spec_dependencies(self.edges@.take(j as int), id.value));
        }
        assert(self.edges@.take(self.edges@.len() as int) =~= self.edges@);
        v
    }

    /// The number of nodes.
    pub fn node_count(&self) -> (n: usize)
        ensures
            n == node_map_entries(self.nodes).len(),
    {
        node_map_len(&self.nodes)
    }

    /// The number of edges.
    pub fn edge_count(&self) -> (n: usize)
        ensures
            n == self.edges@.len(),
    {
        self.edges.len()
    }

    /// Whether the DAG has no nodes.
    pub fn is_empty(&self) -> (b: bool)
        ensures
            b == (node_map_entries(self.nodes).len() == 0),
    {
        node_map_len(&self.nodes) == 0
    }
}

impl Default for Dag {
    fn default() -> (d: Self)
        ensures
            node_map_entries(d.nodes).len() == 0,
            d.edges@.len() == 0,
            id_set_items(d.entry_nodes).len() == 0,
            id_set_items(d.exit_nodes).len() == 0,
    {
        Dag::new()
    }
}

} // verus!
