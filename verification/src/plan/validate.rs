//! Validation of a workflow DAG: no dependency cycle, every node reachable
//! from an entry node, inputs and outputs present, and a node limit.
use vstd::prelude::*;
use crate::core_types::id::NodeId;
use crate::core_types::text::{spec_decimal, spec_join, usize_to_decimal, join_strings};
use crate::core_types::error::{cat2, cat4};
use crate::plan::collections::{
    node_map_entries, id_set_items, node_map_len, node_map_key_at, node_map_value_at, id_set_new,
    id_set_contains, id_set_insert, id_set_remove, id_set_get, id_set_len,
};
use crate::plan::dag::{Dag, Edge, NodeKind, ids, spec_dependencies, spec_node_debug, node_debug, push_targets};
use crate::plan::reach::{
    has_edge, is_walk, reaches, targets_from, lemma_walk_push, lemma_walk_in_closed,
    lemma_targets_are_edges, lemma_edge_in_targets, lemma_unique_subset_bound, lemma_reaches_self,
    lemma_reaches_step, lemma_closed_holds_reachable,
};

verus! {

/// A reason a DAG is invalid.
#[derive(Debug, Clone, PartialEq, Eq)]
pub enum ValidationError {
    /// A dependency cycle, with the dependency path that closes it.
    Cycle { nodes: Vec<NodeId> },
    /// Nodes no entry node leads to.
    Disconnected { nodes: Vec<NodeId> },
    /// No input node.
    MissingInput { node_id: NodeId },
    /// No output node.
    MissingOutput,
    /// A node of the wrong kind.
    InvalidNodeKind { node_id: NodeId, reason: String },
    /// A resource limit exceeded.
    ResourceViolation { node_id: NodeId, resource: String },
    /// A capability not granted.
    CapabilityViolation { node_id: NodeId, capability: String },
}

/// `[NodeId(..), NodeId(..)]`, the debug rendering of a list of identifiers.
pub open spec fn spec_ids_debug(nodes: Seq<NodeId>) -> Seq<char> {
    "["@ + spec_join(Seq::new(nodes.len(), |i: int| spec_node_debug(nodes[i])), ", "@) + "]"@
}

/// The message of a validation error.
pub open spec fn spec_validation_text(e: ValidationError) -> Seq<char> {
    match e {
        ValidationError::Cycle { nodes } => "Cycle detected involving nodes: "@ + spec_ids_debug(nodes@),
        ValidationError::Disconnected { nodes } => "Disconnected nodes: "@ + spec_ids_debug(nodes@),
        ValidationError::MissingInput { node_id } => "Missing input for node "@ + spec_node_debug(node_id),
        ValidationError::MissingOutput => "Missing output node"@,
        ValidationError::InvalidNodeKind { node_id, reason } => "Invalid node kind for "@ + spec_node_debug(
            node_id,
        ) + ": "@ + reason@,
        ValidationError::ResourceViolation { node_id, resource } => "Resource violation for "@
            + spec_node_debug(node_id) + ": "@ + resource@,
        ValidationError::CapabilityViolation { node_id, capability } => "Capability violation for "@
            + spec_node_debug(node_id) + ": "@ + capability@,
    }
}

/// The debug rendering of a list of identifiers.
pub fn ids_debug(nodes: &Vec<NodeId>) -> (s: String)
    ensures
        s@ == spec_ids_debug(nodes@),
{
    let mut parts: Vec<String> = Vec::new();
    let mut i: usize = 0;
    while i < nodes.len()
        invariant
            i <= nodes@.len(),
            parts@.len() == i,
            forall|k: int| 0 <= k < i ==> #[trigger] parts@[k]@ == spec_node_debug(nodes@[k]),
        decreases nodes@.len() - i,
    {
        parts.push(node_debug(nodes[i]));
        i = i + 1;
    }
    assert(parts.deep_view() =~= Seq::new(nodes@.len(), |i: int| spec_node_debug(nodes@[i])));
    let joined = join_strings(&parts, ", ");
    let mut s = cat2("[", joined.as_str());
    s.append("]");
    s
}

impl ValidationError {
    /// The error message.
    pub fn to_string(&self) -> (s: String)
        ensures
            s@ == spec_validation_text(*self),
    {
        proof {
            reveal_strlit("");
        }
        match self {
            ValidationError::Cycle { nodes } => {
                let d = ids_debug(nodes);
                cat2("Cycle detected involving nodes: ", d.as_str())
            },
            ValidationError::Disconnected { nodes } => {
                let d = ids_debug(nodes);
                cat2("Disconnected nodes: ", d.as_str())
            },
            ValidationError::MissingInput { node_id } => {
                let d = node_debug(*node_id);
                cat2("Missing input for node ", d.as_str())
            },
            ValidationError::MissingOutput => "Missing output node".to_owned(),
            ValidationError::InvalidNodeKind { node_id, reason } => {
                let d = node_debug(*node_id);
                cat4("Invalid node kind for ", d.as_str(), ": ", reason.as_str())
            },
            ValidationError::ResourceViolation { node_id, resource } => {
                let d = node_debug(*node_id);
                cat4("Resource violation for ", d.as_str(), ": ", resource.as_str())
            },
            ValidationError::CapabilityViolation { node_id, capability } => {
                let d = node_debug(*node_id);
                cat4("Capability violation for ", d.as_str(), ": ", capability.as_str())
            },
        }
    }
}

/// The edges turned around: from each node to its dependencies.
pub open spec fn reversed(edges: Seq<Edge>) -> Seq<Edge> {
    edges.map_values(|e: Edge| Edge { from: e.to, to: e.from, from_port: e.to_port, to_port: e.from_port })
}

/// The identifier values of the DAG's nodes, in insertion order.
pub open spec fn node_keys(dag: &Dag) -> Seq<u128> {
    node_map_entries(dag.nodes).map_values(|e: (u128, crate::plan::dag::Node)| e.0)
}

/// Whether some walk along dependencies from `k` meets a node twice: a
/// dependency cycle that `k` leads into.
pub open spec fn spec_cycle_from(edges: Seq<Edge>, k: u128) -> bool {
    exists|p: Seq<u128>| #[trigger] is_walk(reversed(edges), p) && p[0] == k && !p.no_duplicates()
}

/// Whether some node of the DAG leads into a dependency cycle.
pub open spec fn spec_has_cycle(dag: &Dag) -> bool {
    exists|k: int| 0 <= k < node_keys(dag).len() && spec_cycle_from(dag.edges@, #[trigger] node_keys(dag)[k])
}

/// Whether some entry node reaches `v` along the edges.
pub open spec fn reached_from(edges: Seq<Edge>, entries: Seq<u128>, v: u128) -> bool {
    exists|i: int| 0 <= i < entries.len() && #[trigger] reaches(edges, entries[i], v)
}

/// The nodes, in insertion order, that no entry node reaches.
pub open spec fn spec_disconnected(dag: &Dag) -> Seq<u128> {
    node_keys(dag).filter(|k: u128| !reached_from(dag.edges@, id_set_items(dag.entry_nodes), k))
}

/// Whether the DAG has nodes but no entry node.
pub open spec fn spec_no_inputs(dag: &Dag) -> bool {
    id_set_items(dag.entry_nodes).len() == 0 && node_map_entries(dag.nodes).len() != 0
}

/// Whether no node is an output node.
pub open spec fn spec_no_outputs(dag: &Dag) -> bool {
    forall|i: int|
        0 <= i < node_map_entries(dag.nodes).len() ==> !(#[trigger] node_map_entries(dag.nodes)[i].1.kind is Output)
}

/// With outputs required, validation reports a missing output exactly when
/// no node of the DAG is an output node, whatever else it reports: the
/// error kinds listed include `MissingOutput` if and only if every node is
/// of another kind.
pub proof fn lemma_missing_output_exact(v: Validator, dag: &Dag, c1: bool, c2: bool, c3: bool, c5: bool)
    requires
        v.require_output,
    ensures
        spec_expected_tags(c1, c2, c3, v.require_output && spec_no_outputs(dag), c5).contains(3) <==> !(exists|i: int|
            0 <= i < node_map_entries(dag.nodes).len() && (#[trigger] node_map_entries(dag.nodes)[i]).1.kind is Output),
{
    let c4 = v.require_output && spec_no_outputs(dag);
    let t = spec_expected_tags(c1, c2, c3, c4, c5);
    let pre = (if c1 { seq![0int] } else { Seq::empty() }) + (if c2 { seq![1int] } else { Seq::empty() }) + (if c3 {
        seq![2int]
    } else {
        Seq::empty()
    });
    let mid = if c4 { seq![3int] } else { Seq::<int>::empty() };
    let post = if c5 { seq![4int] } else { Seq::<int>::empty() };
    assert(t == pre + mid + post);
    assert(forall|k: int| 0 <= k < pre.len() ==> #[trigger] pre[k] < 3);
    assert(forall|k: int| 0 <= k < post.len() ==> #[trigger] post[k] == 4);
    if c4 {
        assert(t[pre.len() as int] == 3);
    } else {
        assert(!t.contains(3)) by {
            if t.contains(3) {
                let k = choose|k: int| 0 <= k < t.len() && t[k] == 3;
                if k < pre.len() {
                    assert(t[k] == pre[k]);
                } else {
                    assert(t[k] == post[k - pre.len()]);
                }
            }
        }
    }
}

/// With inputs required, validation reports a missing input exactly when
/// the DAG has nodes but no entry node.
pub proof fn lemma_missing_input_exact(v: Validator, dag: &Dag, c1: bool, c2: bool, c4: bool, c5: bool)
    requires
        v.require_input,
    ensures
        spec_expected_tags(c1, c2, v.require_input && spec_no_inputs(dag), c4, c5).contains(2) <==> (id_set_items(
            dag.entry_nodes,
        ).len() == 0 && node_map_entries(dag.nodes).len() > 0),
{
    let c3 = v.require_input && spec_no_inputs(dag);
    let t = spec_expected_tags(c1, c2, c3, c4, c5);
    let pre = (if c1 { seq![0int] } else { Seq::empty() }) + (if c2 { seq![1int] } else { Seq::empty() });
    let mid = if c3 { seq![2int] } else { Seq::<int>::empty() };
    let post = (if c4 { seq![3int] } else { Seq::empty() }) + (if c5 { seq![4int] } else { Seq::empty() });
    assert(t == pre + mid + post);
    assert(forall|k: int| 0 <= k < pre.len() ==> #[trigger] pre[k] < 2);
    assert(forall|k: int| 0 <= k < post.len() ==> #[trigger] post[k] > 2);
    if c3 {
        assert(t[pre.len() as int] == 2);
    } else {
        assert(!t.contains(2)) by {
            if t.contains(2) {
                let k = choose|k: int| 0 <= k < t.len() && t[k] == 2;
                if k < pre.len() {
                    assert(t[k] == pre[k]);
                } else {
                    assert(t[k] == post[k - pre.len()]);
                }
            }
        }
    }
}

/// The position of each kind of validation error.
pub open spec fn error_tag(e: ValidationError) -> int {
    match e {
        ValidationError::Cycle { .. } => 0,
        ValidationError::Disconnected { .. } => 1,
        ValidationError::MissingInput { .. } => 2,
        ValidationError::MissingOutput => 3,
        ValidationError::ResourceViolation { .. } => 4,
        ValidationError::InvalidNodeKind { .. } => 5,
        ValidationError::CapabilityViolation { .. } => 6,
    }
}

/// Whether two edge lists agree after turning one around.
proof fn lemma_reversed_edge(edges: Seq<Edge>, a: u128, b: u128)
    ensures
        has_edge(reversed(edges), a, b) <==> has_edge(edges, b, a),
{
    let r = reversed(edges);
    if has_edge(r, a, b) {
        let i = choose|i: int| 0 <= i < r.len() && #[trigger] r[i].from.value == a && r[i].to.value == b;
        assert(edges[i].from.value == b && edges[i].to.value == a);
    }
    if has_edge(edges, b, a) {
        let i = choose|i: int| 0 <= i < edges.len() && #[trigger] edges[i].from.value == b && edges[i].to.value == a;
        assert(r[i].from.value == a && r[i].to.value == b);
    }
}

/// The dependencies of a node are the targets of its reversed edges.
proof fn lemma_dependencies_reversed(edges: Seq<Edge>, n: u128)
    ensures
        spec_dependencies(edges, n) == targets_from(reversed(edges), n),
    decreases edges.len(),
{
    if edges.len() > 0 {
        lemma_dependencies_reversed(edges.drop_last(), n);
        assert(reversed(edges).drop_last() =~= reversed(edges.drop_last()));
    } else {
        assert(reversed(edges) =~= Seq::<Edge>::empty());
    }
}

/// Whether a set of nodes holds every dependency of each of its nodes.
pub open spec fn dep_closed(re: Seq<Edge>, b: Set<u128>) -> bool {
    forall|x: u128, y: u128| b.contains(x) && #[trigger] has_edge(re, x, y) ==> b.contains(y)
}

/// Whether no walk along dependencies from a node of the set meets a node twice.
pub open spec fn dep_acyclic(re: Seq<Edge>, b: Set<u128>) -> bool {
    forall|p: Seq<u128>| #[trigger] is_walk(re, p) && b.contains(p[0]) ==> p.no_duplicates()
}

/// The finished nodes of a traversal: visited and no longer on the path.
pub open spec fn finished(vis: Seq<u128>, path: Seq<u128>) -> Set<u128> {
    vis.to_set().difference(path.to_set())
}

/// The values a dependency traversal of the DAG can meet: node keys and edge sources.
pub open spec fn dep_candidates(dag: &Dag) -> Seq<u128> {
    node_keys(dag) + dag.edges@.map_values(|e: Edge| e.from.value)
}

/// The tail of a walk is a walk.
proof fn lemma_walk_tail(re: Seq<Edge>, p: Seq<u128>)
    requires
        is_walk(re, p),
        p.len() >= 2,
    ensures
        is_walk(re, p.subrange(1, p.len() as int)),
{
    let q = p.subrange(1, p.len() as int);
    assert forall|i: int| 0 <= i < q.len() - 1 implies #[trigger] has_edge(re, q[i], q[i + 1]) by {
        assert(q[i] == p[i + 1] && q[i + 1] == p[i + 1 + 1]);
        assert(has_edge(re, p[i + 1], p[i + 1 + 1]));
    }
}

/// Finishing a node whose dependencies are all finished keeps the finished
/// set closed and free of cycles.
proof fn lemma_finish_node(re: Seq<Edge>, b: Set<u128>, n: u128)
    requires
        dep_closed(re, b),
        dep_acyclic(re, b),
        !b.contains(n),
        forall|y: u128| #[trigger] has_edge(re, n, y) ==> b.contains(y),
    ensures
        dep_closed(re, b.insert(n)),
        dep_acyclic(re, b.insert(n)),
{
    let b2 = b.insert(n);
    assert forall|p: Seq<u128>| #[trigger] is_walk(re, p) && b2.contains(p[0]) implies p.no_duplicates() by {
        if p[0] != n {
            assert(b.contains(p[0]));
        } else if p.len() >= 2 {
            let q = p.subrange(1, p.len() as int);
            lemma_walk_tail(re, p);
            assert(has_edge(re, p[0], p[0int + 1]));
            assert(b.contains(q[0]));
            assert(q.no_duplicates());
            assert forall|i: int, j: int| 0 <= i < p.len() && 0 <= j < p.len() && i != j implies p[i] != p[j] by {
                if i > 0 && j > 0 {
                    assert(q[i - 1] != q[j - 1]);
                } else {
                    let k = if i == 0 { j } else { i };
                    lemma_walk_in_closed(re, b, q, k - 1);
                    assert(b.contains(q[k - 1]));
                }
            }
        }
    }
}

/// A path with an edge back into itself yields a walk that meets a node twice.
proof fn lemma_back_edge_cycle(re: Seq<Edge>, path: Seq<u128>, j: int)
    requires
        is_walk(re, path),
        0 <= j < path.len(),
        has_edge(re, path.last(), path[j]),
    ensures
        is_walk(re, path.push(path[j])) && path.push(path[j])[0] == path[0] && !path.push(path[j]).no_duplicates(),
{
    lemma_walk_push(re, path, path[j]);
    let q = path.push(path[j]);
    assert(q[j] == q[q.len() - 1]);
}

impl Validator {
    /// Depth-first search along dependencies from `node_id`; true when it
    /// meets a node of the current path again, with that path left in
    /// `rec_stack`.
    fn dfs_cycle(
        &self,
        node_id: NodeId,
        dag: &Dag,
        visited: &mut indexmap::IndexSet<NodeId>,
        rec_stack: &mut indexmap::IndexSet<NodeId>,
    ) -> (r: Result<bool, ValidationError>)
        requires
            id_set_items(*old(visited)).no_duplicates(),
            id_set_items(*old(rec_stack)).no_duplicates(),
            forall|k: int| 0 <= k < id_set_items(*old(rec_stack)).len() ==> id_set_items(*old(visited)).contains(
                #[trigger] id_set_items(*old(rec_stack))[k],
            ),
            id_set_items(*old(rec_stack)).len() > 0 ==> {
                &&& is_walk(reversed(dag.edges@), id_set_items(*old(rec_stack)))
                &&& has_edge(reversed(dag.edges@), id_set_items(*old(rec_stack)).last(), node_id.value)
                &&& node_keys(dag).contains(id_set_items(*old(rec_stack))[0])
            },
            id_set_items(*old(rec_stack)).len() == 0 ==> node_keys(dag).contains(node_id.value),
            dep_closed(reversed(dag.edges@), finished(id_set_items(*old(visited)), id_set_items(*old(rec_stack)))),
            dep_acyclic(reversed(dag.edges@), finished(id_set_items(*old(visited)), id_set_items(*old(rec_stack)))),
            forall|k: int| 0 <= k < id_set_items(*old(visited)).len() ==> dep_candidates(dag).contains(
                #[trigger] id_set_items(*old(visited))[k],
            ),
            dep_candidates(dag).contains(node_id.value),
        ensures
            r is Ok,
            id_set_items(*final(visited)).no_duplicates(),
            id_set_items(*old(visited)).len() <= id_set_items(*final(visited)).len(),
            id_set_items(*final(visited)).subrange(0, id_set_items(*old(visited)).len() as int) == id_set_items(
                *old(visited),
            ),
            forall|k: int| 0 <= k < id_set_items(*final(visited)).len() ==> dep_candidates(dag).contains(
                #[trigger] id_set_items(*final(visited))[k],
            ),
            r == Ok::<bool, ValidationError>(false) ==> {
                &&& id_set_items(*final(rec_stack)) == id_set_items(*old(rec_stack))
                &&& id_set_items(*final(visited)).contains(node_id.value)
                &&& !id_set_items(*final(rec_stack)).contains(node_id.value)
                &&& dep_closed(
                    reversed(dag.edges@),
                    finished(id_set_items(*final(visited)), id_set_items(*final(rec_stack))),
                )
                &&& dep_acyclic(
                    reversed(dag.edges@),
                    finished(id_set_items(*final(visited)), id_set_items(*final(rec_stack))),
                )
            },
            r == Ok::<bool, ValidationError>(true) ==> {
                &&& id_set_items(*final(rec_stack)).len() > 0
                &&& is_walk(reversed(dag.edges@), id_set_items(*final(rec_stack)))
                &&& node_keys(dag).contains(id_set_items(*final(rec_stack))[0])
                &&& exists|j: int|
                    0 <= j < id_set_items(*final(rec_stack)).len() && #[trigger] has_edge(
                        reversed(dag.edges@),
                        id_set_items(*final(rec_stack)).last(),
                        id_set_items(*final(rec_stack))[j],
                    )
            },
        decreases dep_candidates(dag).len() - id_set_items(*old(visited)).len(),
    {
        let ghost re = reversed(dag.edges@);
        let ghost v0 = id_set_items(*visited);
        let ghost r0 = id_set_items(*rec_stack);
        if id_set_contains(rec_stack, &node_id) {
            proof {
                let j = choose|j: int| 0 <= j < r0.len() && r0[j] == node_id.value;
                assert(has_edge(re, r0.last(), r0[j]));
                assert(v0.subrange(0, v0.len() as int) =~= v0);
            }
            return Ok(true);
        }
        if id_set_contains(visited, &node_id) {
            proof {
                assert(v0.subrange(0, v0.len() as int) =~= v0);
            }
            return Ok(false);
        }
        proof {
            lemma_unique_subset_bound(v0, dep_candidates(dag));
        }
        id_set_insert(visited, node_id);
        id_set_insert(rec_stack, node_id);
        let ghost v1 = id_set_items(*visited);
        let ghost r1 = id_set_items(*rec_stack);
        proof {
            assert(v1 == v0.push(node_id.value));
            assert(r1 == r0.push(node_id.value));
            assert(v1.no_duplicates()) by {
                assert forall|a: int, b: int| 0 <= a < v1.len() && 0 <= b < v1.len() && a != b implies v1[a] != v1[b] by {
                    if a < v0.len() && b < v0.len() {
                        assert(v1[a] == v0[a] && v1[b] == v0[b]);
                    } else if a < v0.len() {
                        assert(v1[a] == v0[a]);
                    } else {
                        assert(v1[b] == v0[b]);
                    }
                }
            }
            assert(r1.no_duplicates()) by {
                assert forall|a: int, b: int| 0 <= a < r1.len() && 0 <= b < r1.len() && a != b implies r1[a] != r1[b] by {
                    if a < r0.len() && b < r0.len() {
                        assert(r1[a] == r0[a] && r1[b] == r0[b]);
                    } else if a < r0.len() {
                        assert(r1[a] == r0[a]);
                    } else {
                        assert(r1[b] == r0[b]);
                    }
                }
            }
            v0.lemma_push_to_set_commute(node_id.value);
            r0.lemma_push_to_set_commute(node_id.value);
            assert(!v0.to_set().contains(node_id.value));
            assert(finished(v1, r1) =~= finished(v0, r0));
            assert(is_walk(re, r1)) by {
                if r0.len() > 0 {
                    lemma_walk_push(re, r0, node_id.value);
                } else {
                    assert(r1 =~= seq![node_id.value]);
                }
            }
            assert(node_keys(dag).contains(r1[0])) by {
                if r0.len() > 0 {
                    assert(r1[0] == r0[0]);
                }
            }
        }
        let deps = dag.dependencies(node_id);
        proof {
            lemma_dependencies_reversed(dag.edges@, node_id.value);
        }
        let mut i: usize = 0;
        while i < deps.len()
            invariant
                re == reversed(dag.edges@),
                ids(deps@) == targets_from(re, node_id.value),
                i <= deps@.len(),
                v0 == id_set_items(*old(visited)),
                r0 == id_set_items(*old(rec_stack)),
                v1 == v0.push(node_id.value),
                r1 == r0.push(node_id.value),
                forall|k: int| 0 <= k < r0.len() ==> v0.contains(#[trigger] r0[k]),
                r1.no_duplicates(),
                is_walk(re, r1),
                node_keys(dag).contains(r1[0]),
                id_set_items(*rec_stack) == r1,
                id_set_items(*visited).no_duplicates(),
                v1.len() <= id_set_items(*visited).len(),
                id_set_items(*visited).subrange(0, v1.len() as int) == v1,
                forall|k: int| 0 <= k < id_set_items(*visited).len() ==> dep_candidates(dag).contains(
                    #[trigger] id_set_items(*visited)[k],
                ),
                dep_closed(re, finished(id_set_items(*visited), r1)),
                dep_acyclic(re, finished(id_set_items(*visited), r1)),
                forall|k: int| 0 <= k < i ==> finished(id_set_items(*visited), r1).contains(#[trigger] ids(deps@)[k]),
            decreases deps@.len() - i,
        {
            let d = deps[i];
            let ghost vb = id_set_items(*visited);
            proof {
                assert(ids(deps@)[i as int] == d.value);
                lemma_targets_are_edges(re, node_id.value, i as int);
                assert(r1.last() == node_id.value);
                lemma_reversed_edge(dag.edges@, node_id.value, d.value);
                let e = choose|e: int| 0 <= e < dag.edges@.len() && #[trigger] dag.edges@[e].from.value == d.value
                    && dag.edges@[e].to.value == node_id.value;
                assert(dep_candidates(dag)[node_keys(dag).len() + e] == d.value);
                assert forall|k: int| 0 <= k < r1.len() implies vb.contains(#[trigger] r1[k]) by {
                    if k < r0.len() {
                        assert(r1[k] == r0[k]);
                        assert(v0.contains(r0[k]));
                        let m = choose|m: int| 0 <= m < v0.len() && v0[m] == r0[k];
                        assert(vb[m] == v1[m]);
                    } else {
                        assert(vb[v0.len() as int] == v1[v0.len() as int]);
                    }
                }
                lemma_unique_subset_bound(vb, dep_candidates(dag));
                assert(vb.len() <= dep_candidates(dag).len());
                assert(v0.len() < vb.len());
            }
            let found = self.dfs_cycle(d, dag, visited, rec_stack);
            match found {
                Ok(true) => {
                    proof {
                        let vf = id_set_items(*visited);
                        assert(v0.len() <= vf.len());
                        assert(vf.subrange(0, v0.len() as int) =~= v0) by {
                            assert forall|k: int| 0 <= k < v0.len() implies vf[k] == v0[k] by {
                                assert(vb.subrange(0, v1.len() as int)[k] == v1[k]);
                                assert(vf.subrange(0, vb.len() as int)[k] == vb[k]);
                            }
                        }
                    }
                    return Ok(true);
                },
                Ok(false) => {},
                Err(e) => {
                    return Err(e);
                },
            }
            proof {
                let vf = id_set_items(*visited);
                assert(vf.subrange(0, v1.len() as int) =~= v1) by {
                    assert forall|k: int| 0 <= k < v1.len() implies vf[k] == v1[k] by {
                        assert(vb.subrange(0, v1.len() as int)[k] == v1[k]);
                        assert(vf.subrange(0, vb.len() as int)[k] == vb[k]);
                    }
                }
                assert forall|k: int| 0 <= k < i + 1 implies finished(vf, r1).contains(#[trigger] ids(deps@)[k]) by {
                    if k < i {
                        assert(finished(vb, r1).contains(ids(deps@)[k]));
                        let m = choose|m: int| 0 <= m < vb.len() && vb[m] == ids(deps@)[k];
                        assert(vf.subrange(0, vb.len() as int)[m] == vb[m]);
                        assert(vf.contains(vf[m]));
                    } else {
                        assert(vf.contains(d.value));
                    }
                }
            }
            i = i + 1;
        }
        let ghost vf = id_set_items(*visited);
        let removed = id_set_remove(rec_stack, &node_id);
        proof {
            assert(r1[r1.len() - 1] == node_id.value);
            assert(removed);
            let j = choose|j: int| 0 <= j < r1.len() && #[trigger] r1[j] == node_id.value && id_set_items(*rec_stack)
                == r1.update(j, r1.last()).drop_last();
            if j != r1.len() - 1 {
                assert(r1[j] == r1[r1.len() - 1]);
            }
            assert(id_set_items(*rec_stack) =~= r0);
            assert(!r0.contains(node_id.value)) by {
                if r0.contains(node_id.value) {
                    let m = choose|m: int| 0 <= m < r0.len() && r0[m] == node_id.value;
                    assert(r1[m] == r1[r1.len() - 1]);
                }
            }
            let b = finished(vf, r1);
            assert(!b.contains(node_id.value));
            assert forall|y: u128| #[trigger] has_edge(re, node_id.value, y) implies b.contains(y) by {
                let e = choose|e: int| 0 <= e < re.len() && #[trigger] re[e].from.value == node_id.value && re[e].to.value == y;
                lemma_edge_in_targets(re, e);
                let k = choose|k: int| 0 <= k < targets_from(re, node_id.value).len() && targets_from(re, node_id.value)[k] == y;
                assert(ids(deps@)[k] == y);
            }
            lemma_finish_node(re, b, node_id.value);
            assert(finished(vf, r0) =~= b.insert(node_id.value)) by {
                assert(vf.contains(node_id.value)) by {
                    assert(vf.subrange(0, v1.len() as int)[v0.len() as int] == v1[v0.len() as int]);
                }
            }
            assert(vf.subrange(0, v0.len() as int) =~= v0) by {
                assert forall|k: int| 0 <= k < v0.len() implies vf[k] == v0[k] by {
                    assert(vf.subrange(0, v1.len() as int)[k] == v1[k]);
                }
            }
            assert(vf.contains(node_id.value)) by {
                assert(vf.subrange(0, v1.len() as int)[v0.len() as int] == v1[v0.len() as int]);
            }
        }
        Ok(false)
    }
}

/// Checks the DAG's rules.
pub struct Validator {
    pub require_input: bool,
    pub require_output: bool,
    /// The most nodes allowed; 0 allows any number.
    pub max_nodes: usize,
}

/// Whether `p` is a dependency path from a node of the DAG whose last node
/// depends on a node of the path.
pub open spec fn spec_cycle_witness(dag: &Dag, p: Seq<u128>) -> bool {
    &&& p.len() > 0
    &&& is_walk(reversed(dag.edges@), p)
    &&& node_keys(dag).contains(p[0])
    &&& exists|j: int| 0 <= j < p.len() && #[trigger] has_edge(reversed(dag.edges@), p.last(), p[j])
}

/// The values a traversal from the entry nodes can push.
pub open spec fn reach_candidates(dag: &Dag) -> Seq<u128> {
    id_set_items(dag.entry_nodes) + dag.edges@.map_values(|e: Edge| e.to.value)
}

/// The kinds of error `validate` reports, in order.
pub open spec fn spec_expected_tags(c1: bool, c2: bool, c3: bool, c4: bool, c5: bool) -> Seq<int> {
    (if c1 { seq![0int] } else { Seq::empty() }) + (if c2 { seq![1int] } else { Seq::empty() }) + (if c3 {
        seq![2int]
    } else {
        Seq::empty()
    }) + (if c4 { seq![3int] } else { Seq::empty() }) + (if c5 { seq![4int] } else { Seq::empty() })
}

/// `node count <n> exceeds max <max>`.
pub open spec fn spec_count_text(n: nat, max: nat) -> Seq<char> {
    "node count "@ + spec_decimal(n) + " exceeds max "@ + spec_decimal(max)
}

/// Copies the identifiers of a set, in order.
fn id_set_to_vec(s: &indexmap::IndexSet<NodeId>) -> (v: Vec<NodeId>)
    ensures
        ids(v@) == id_set_items(*s),
{
    let n = id_set_len(s);
    let mut v: Vec<NodeId> = Vec::new();
    let mut i: usize = 0;
    while i < n
        invariant
            n == id_set_items(*s).len(),
            i <= n,
            ids(v@) == id_set_items(*s).take(i as int),
        decreases n - i,
    {
        let k = id_set_get(s, i).unwrap();
        let ghost before = ids(v@);
        assert(k.value == id_set_items(*s)[i as int]);
        v.push(k);
        assert(ids(v@) =~= before.push(k.value));
        assert(id_set_items(*s).take(i + 1) =~= id_set_items(*s).take(i as int).push(id_set_items(*s)[i as int]));
        i = i + 1;
    }
    assert(id_set_items(*s).take(n as int) =~= id_set_items(*s));
    v
}

impl Validator {
    /// Searches for a dependency cycle from each node in turn.
    fn check_cycles(&self, dag: &Dag) -> (r: Result<(), ValidationError>)
        ensures
            r is Ok <==> !spec_has_cycle(dag),
            r matches Err(e) ==> (e matches ValidationError::Cycle { nodes } && spec_cycle_witness(
                dag,
                ids(nodes@),
            )),
    {
        let ghost re = reversed(dag.edges@);
        let ghost keys = node_keys(dag);
        let mut visited = id_set_new();
        let mut rec_stack = id_set_new();
        let n = node_map_len(&dag.nodes);
        proof {
            assert(finished(id_set_items(visited), id_set_items(rec_stack)) =~= Set::<u128>::empty());
        }
        let mut i: usize = 0;
        while i < n
            invariant
                re == reversed(dag.edges@),
                keys == node_keys(dag),
                n == keys.len(),
                i <= n,
                id_set_items(rec_stack).len() == 0,
                id_set_items(visited).no_duplicates(),
                forall|k: int| 0 <= k < id_set_items(visited).len() ==> dep_candidates(dag).contains(
                    #[trigger] id_set_items(visited)[k],
                ),
                dep_closed(re, finished(id_set_items(visited), id_set_items(rec_stack))),
                dep_acyclic(re, finished(id_set_items(visited), id_set_items(rec_stack))),
                forall|k: int| 0 <= k < i ==> id_set_items(visited).contains(#[trigger] keys[k]),
            decreases n - i,
        {
            let key = node_map_key_at(&dag.nodes, i).unwrap();
            proof {
                assert(keys[i as int] == key.value);
                assert(dep_candidates(dag)[i as int] == key.value);
                assert(keys.contains(key.value));
            }
            let ghost vb = id_set_items(visited);
            match self.dfs_cycle(key, dag, &mut visited, &mut rec_stack) {
                Ok(true) => {
                    let nodes = id_set_to_vec(&rec_stack);
                    proof {
                        let p = ids(nodes@);
                        let j = choose|j: int| 0 <= j < p.len() && #[trigger] has_edge(re, p.last(), p[j]);
                        lemma_back_edge_cycle(re, p, j);
                        let m = choose|m: int| 0 <= m < keys.len() && keys[m] == p[0];
                        assert(spec_cycle_from(dag.edges@, keys[m]));
                    }
                    return Err(ValidationError::Cycle { nodes });
                },
                Ok(false) => {},
                Err(e) => {
                    return Err(e);
                },
            }
            proof {
                let vf = id_set_items(visited);
                assert forall|k: int| 0 <= k < i + 1 implies vf.contains(#[trigger] keys[k]) by {
                    if k < i {
                        let m = choose|m: int| 0 <= m < vb.len() && vb[m] == keys[k];
                        assert(vf.subrange(0, vb.len() as int)[m] == vb[m]);
                        assert(vf[m] == keys[k]);
                    }
                }
            }
            i = i + 1;
        }
        proof {
            let b = finished(id_set_items(visited), id_set_items(rec_stack));
            assert(!spec_has_cycle(dag)) by {
                if spec_has_cycle(dag) {
                    let k = choose|k: int| 0 <= k < keys.len() && spec_cycle_from(dag.edges@, #[trigger] keys[k]);
                    let p = choose|p: Seq<u128>| #[trigger] is_walk(re, p) && p[0] == keys[k] && !p.no_duplicates();
                    assert(id_set_items(visited).contains(keys[k]));
                    assert(b.contains(p[0]));
                }
            }
        }
        Ok(())
    }

    /// Lists, in node order, the nodes no entry node reaches.
    fn check_connected(&self, dag: &Dag) -> (r: Result<(), ValidationError>)
        ensures
            node_map_entries(dag.nodes).len() == 0 ==> r is Ok,
            node_map_entries(dag.nodes).len() != 0 ==> (if spec_disconnected(dag).len() == 0 {
                r is Ok
            } else {
                r matches Err(ValidationError::Disconnected { nodes }) && ids(nodes@) == spec_disconnected(dag)
            }),
    {
        if node_map_len(&dag.nodes) == 0 {
            return Ok(());
        }
        let ghost es = dag.edges@;
        let ghost ent = id_set_items(dag.entry_nodes);
        let ghost cands = reach_candidates(dag);
        let mut reachable = id_set_new();
        let mut stack = id_set_to_vec(&dag.entry_nodes);
        proof {
            assert forall|k: int| 0 <= k < stack@.len() implies reached_from(es, ent, #[trigger] stack@[k].value)
                && cands.contains(stack@[k].value) by {
                assert(ids(stack@)[k] == stack@[k].value);
                lemma_reaches_self(es, ent[k]);
                assert(cands[k] == ent[k]);
            }
            assert forall|k: int| 0 <= k < ent.len() implies id_set_items(reachable).contains(#[trigger] ent[k])
                || ids(stack@).contains(ent[k]) by {
                assert(ids(stack@)[k] == ent[k]);
            }
        }
        while stack.len() > 0
            invariant
                es == dag.edges@,
                ent == id_set_items(dag.entry_nodes),
                cands == reach_candidates(dag),
                id_set_items(reachable).no_duplicates(),
                id_set_items(reachable).len() <= cands.len(),
                forall|k: int| 0 <= k < id_set_items(reachable).len() ==> reached_from(
                    es,
                    ent,
                    #[trigger] id_set_items(reachable)[k],
                ) && cands.contains(id_set_items(reachable)[k]),
                forall|k: int| 0 <= k < stack@.len() ==> reached_from(es, ent, #[trigger] stack@[k].value)
                    && cands.contains(stack@[k].value),
                forall|a: u128, b: u128|
                    id_set_items(reachable).contains(a) && #[trigger] has_edge(es, a, b) ==> id_set_items(
                        reachable,
                    ).contains(b) || ids(stack@).contains(b),
                forall|k: int|
                    0 <= k < ent.len() ==> id_set_items(reachable).contains(#[trigger] ent[k]) || ids(
                        stack@,
                    ).contains(ent[k]),
            decreases cands.len() - id_set_items(reachable).len(), stack@.len(),
        {
            let ghost st = ids(stack@);
            let ghost vis = id_set_items(reachable);
            let current = stack.pop().unwrap();
            proof {
                assert(st.drop_last() =~= ids(stack@));
                assert(st.last() == current.value);
                assert forall|b: u128| st.contains(b) implies ids(stack@).contains(b) || b == current.value by {
                    let m = choose|m: int| 0 <= m < st.len() && st[m] == b;
                    if m < st.len() - 1 {
                        assert(ids(stack@)[m] == b);
                    }
                }
            }
            if id_set_contains(&reachable, &current) {
                continue;
            }
            id_set_insert(&mut reachable, current);
            let ghost mid = ids(stack@);
            push_targets(&dag.edges, current, &mut stack);
            proof {
                let cur = current.value;
                let vis2 = id_set_items(reachable);
                let t = targets_from(es, cur);
                assert(vis2 == vis.push(cur));
                assert(vis2.no_duplicates()) by {
                    assert forall|a: int, b: int| 0 <= a < vis2.len() && 0 <= b < vis2.len() && a != b implies vis2[a]
                        != vis2[b] by {
                        if a < vis.len() && b < vis.len() {
                            assert(vis2[a] == vis[a] && vis2[b] == vis[b]);
                        } else if a < vis.len() {
                            assert(vis2[a] == vis[a]);
                        } else {
                            assert(vis2[b] == vis[b]);
                        }
                    }
                }
                assert(reached_from(es, ent, st[st.len() - 1]));
                let ei = choose|ei: int| 0 <= ei < ent.len() && #[trigger] reaches(es, ent[ei], cur);
                assert(ids(stack@) == mid + t);
                assert forall|k: int| 0 <= k < stack@.len() implies reached_from(es, ent, #[trigger] stack@[k].value)
                    && cands.contains(stack@[k].value) by {
                    assert(ids(stack@)[k] == stack@[k].value);
                    if k < mid.len() {
                        assert(mid[k] == st[k]);
                        assert(ids(stack@)[k] == mid[k]);
                    } else {
                        let j = k - mid.len();
                        assert(ids(stack@).len() == stack@.len());
                        assert(j < t.len());
                        assert((mid + t)[k] == t[j]);
                        lemma_targets_are_edges(es, cur, j);
                        lemma_reaches_step(es, ent[ei], cur, t[j]);
                        let e = choose|e: int| 0 <= e < es.len() && #[trigger] es[e].from.value == cur && es[e].to.value == t[j];
                        assert(cands[ent.len() + e] == t[j]);
                    }
                }
                assert forall|k: int| 0 <= k < vis2.len() implies reached_from(es, ent, #[trigger] vis2[k])
                    && cands.contains(vis2[k]) by {
                    if k < vis.len() {
                        assert(vis2[k] == vis[k]);
                    }
                }
                lemma_unique_subset_bound(vis2, cands);
                assert forall|a: u128, b: u128| vis2.contains(a) && #[trigger] has_edge(es, a, b) implies vis2.contains(b)
                    || ids(stack@).contains(b) by {
                    if a == cur {
                        let e = choose|e: int| 0 <= e < es.len() && #[trigger] es[e].from.value == a && es[e].to.value == b;
                        lemma_edge_in_targets(es, e);
                        let m = choose|m: int| 0 <= m < t.len() && t[m] == b;
                        assert(ids(stack@)[mid.len() + m] == b);
                    } else {
                        let m = choose|m: int| 0 <= m < vis2.len() && vis2[m] == a;
                        assert(vis[m] == a);
                        if vis.contains(b) {
                            let q = choose|q: int| 0 <= q < vis.len() && vis[q] == b;
                            assert(vis2[q] == b);
                        } else if b != cur {
                            assert(st.contains(b));
                            let q = choose|q: int| 0 <= q < mid.len() && mid[q] == b;
                            assert(ids(stack@)[q] == b);
                        } else {
                            assert(vis2[vis.len() as int] == b);
                        }
                    }
                }
                assert forall|k: int| 0 <= k < ent.len() implies vis2.contains(#[trigger] ent[k]) || ids(stack@).contains(
                    ent[k],
                ) by {
                    if vis.contains(ent[k]) {
                        let q = choose|q: int| 0 <= q < vis.len() && vis[q] == ent[k];
                        assert(vis2[q] == ent[k]);
                    } else if ent[k] != cur {
                        assert(st.contains(ent[k]));
                        let q = choose|q: int| 0 <= q < mid.len() && mid[q] == ent[k];
                        assert(ids(stack@)[q] == ent[k]);
                    } else {
                        assert(vis2[vis.len() as int] == ent[k]);
                    }
                }
            }
        }
        let ghost vis = id_set_items(reachable);
        proof {
            assert(ids(stack@) =~= Seq::<u128>::empty());
            let vs = vis.to_set();
            assert forall|a: u128, b: u128| vs.contains(a) && #[trigger] has_edge(es, a, b) implies vs.contains(b) by {
                assert(vis.contains(a));
            }
            assert forall|v: u128| reached_from(es, ent, v) <==> vis.contains(v) by {
                if reached_from(es, ent, v) {
                    let i = choose|i: int| 0 <= i < ent.len() && #[trigger] reaches(es, ent[i], v);
                    assert(vis.contains(ent[i]));
                    lemma_closed_holds_reachable(es, ent[i], vs, v);
                }
                if vis.contains(v) {
                    let k = choose|k: int| 0 <= k < vis.len() && vis[k] == v;
                    assert(reached_from(es, ent, vis[k]));
                }
            }
        }
        let ghost keys = node_keys(dag);
        let ghost pred = |k: u128| !reached_from(dag.edges@, id_set_items(dag.entry_nodes), k);
        let n = node_map_len(&dag.nodes);
        let mut out: Vec<NodeId> = Vec::new();
        let mut i: usize = 0;
        while i < n
            invariant
                keys == node_keys(dag),
                n == keys.len(),
                i <= n,
                pred == (|k: u128| !reached_from(dag.edges@, id_set_items(dag.entry_nodes), k)),
                vis == id_set_items(reachable),
                forall|v: u128| reached_from(es, ent, v) <==> vis.contains(v),
                es == dag.edges@,
                ent == id_set_items(dag.entry_nodes),
                ids(out@) == keys.take(i as int).filter(pred),
            decreases n - i,
        {
            reveal_with_fuel(Seq::<_>::filter, 1);
            let key = node_map_key_at(&dag.nodes, i).unwrap();
            assert(keys[i as int] == key.value);
            assert(keys.take(i + 1).drop_last() =~= keys.take(i as int));
            let ghost before = ids(out@);
            if !id_set_contains(&reachable, &key) {
                out.push(key);
                assert(ids(out@) =~= before.push(key.value));
            } else {
                assert(ids(out@) =~= before);
            }
            i = i + 1;
        }
        assert(keys.take(n as int) =~= keys);
        if out.len() != 0 {
            return Err(ValidationError::Disconnected { nodes: out });
        }
        Ok(())
    }

    /// Whether the DAG has nodes but no entry node.
    fn has_no_inputs(&self, dag: &Dag) -> (b: bool)
        ensures
            b == spec_no_inputs(dag),
    {
        id_set_len(&dag.entry_nodes) == 0 && node_map_len(&dag.nodes) != 0
    }

    /// Whether no node is an output node.
    fn has_no_outputs(&self, dag: &Dag) -> (b: bool)
        ensures
            b == spec_no_outputs(dag),
    {
        let n = node_map_len(&dag.nodes);
        let mut i: usize = 0;
        while i < n
            invariant
                n == node_map_entries(dag.nodes).len(),
                i <= n,
                forall|k: int| 0 <= k < i ==> !(#[trigger] node_map_entries(dag.nodes)[k].1.kind is Output),
            decreases n - i,
        {
            let node = node_map_value_at(&dag.nodes, i).unwrap();
            match node.kind {
                NodeKind::Output { .. } => {
                    return false;
                },
                _ => {},
            }
            i = i + 1;
        }
        true
    }

    /// A validator that requires inputs and outputs and allows any number of nodes.
    pub fn new() -> (v: Self)
        ensures
            v.require_input,
            v.require_output,
            v.max_nodes == 0,
    {
        Validator { require_input: true, require_output: true, max_nodes: 0 }
    }

    /// The validator with `require` as its input requirement.
    pub fn with_require_input(self, require: bool) -> (v: Self)
        ensures
            v.require_input == require,
            v.require_output == self.require_output,
            v.max_nodes == self.max_nodes,
    {
        Validator { require_input: require, ..self }
    }

    /// The validator with `require` as its output requirement.
    pub fn with_require_output(self, require: bool) -> (v: Self)
        ensures
            v.require_input == self.require_input,
            v.require_output == require,
            v.max_nodes == self.max_nodes,
    {
        Validator { require_output: require, ..self }
    }

    /// The validator with a node limit of `max`.
    pub fn with_max_nodes(self, max: usize) -> (v: Self)
        ensures
            v.require_input == self.require_input,
            v.require_output == self.require_output,
            v.max_nodes == max,
    {
        Validator { max_nodes: max, ..self }
    }

    /// Runs every check and collects the errors in order: a cycle, nodes no
    /// entry reaches, a missing input, a missing output, too many nodes.
    pub fn validate(&self, dag: &Dag) -> (r: Result<(), Vec<ValidationError>>)
        ensures
            ({
                let n = node_map_entries(dag.nodes).len();
                let c1 = spec_has_cycle(dag);
                let c2 = n != 0 && spec_disconnected(dag).len() != 0;
                let c3 = self.require_input && spec_no_inputs(dag);
                let c4 = self.require_output && spec_no_outputs(dag);
                let c5 = self.max_nodes > 0 && n > self.max_nodes;
                &&& r is Ok <==> !(c1 || c2 || c3 || c4 || c5)
                &&& r matches Err(errs) ==> {
                    &&& errs@.map_values(|e: ValidationError| error_tag(e)) == spec_expected_tags(c1, c2, c3, c4, c5)
                    &&& forall|i: int| 0 <= i < errs@.len() ==> match #[trigger] errs@[i] {
                        ValidationError::Cycle { nodes } => spec_cycle_witness(dag, ids(nodes@)),
                        ValidationError::Disconnected { nodes } => ids(nodes@) == spec_disconnected(dag),
                        ValidationError::ResourceViolation { resource, .. } => resource@ == spec_count_text(
                            n,
                            self.max_nodes as nat,
                        ),
                        _ => true,
                    }
                }
            }),
    {
        let ghost n = node_map_entries(dag.nodes).len();
        let mut errors: Vec<ValidationError> = Vec::new();
        let ghost c1 = spec_has_cycle(dag);
        let ghost c2 = n != 0 && spec_disconnected(dag).len() != 0;
        let ghost c3 = self.require_input && spec_no_inputs(dag);
        let ghost c4 = self.require_output && spec_no_outputs(dag);
        let ghost c5 = self.max_nodes > 0 && n > self.max_nodes;
        let ghost inv = |e: ValidationError| match e {
            ValidationError::Cycle { nodes } => spec_cycle_witness(dag, ids(nodes@)),
            ValidationError::Disconnected { nodes } => ids(nodes@) == spec_disconnected(dag),
            ValidationError::ResourceViolation { resource, .. } => resource@ == spec_count_text(
                n,
                self.max_nodes as nat,
            ),
            _ => true,
        };
        let ghost tag = |e: ValidationError| error_tag(e);
        if let Err(e) = self.check_cycles(dag) {
            errors.push(e);
        }
        assert(errors@.map_values(tag) =~= spec_expected_tags(c1, false, false, false, false));
        if let Err(e) = self.check_connected(dag) {
            errors.push(e);
        }
        assert(errors@.map_values(tag) =~= spec_expected_tags(c1, c2, false, false, false));
        if self.require_input && self.has_no_inputs(dag) {
            let node_id = match id_set_get(&dag.entry_nodes, 0) {
                Some(k) => k,
                None => NodeId::new(),
            };
            errors.push(ValidationError::MissingInput { node_id });
        }
        assert(errors@.map_values(tag) =~= spec_expected_tags(c1, c2, c3, false, false));
        if self.require_output && self.has_no_outputs(dag) {
            errors.push(ValidationError::MissingOutput);
        }
        assert(errors@.map_values(tag) =~= spec_expected_tags(c1, c2, c3, c4, false));
        let count = dag.node_count();
        if self.max_nodes > 0 && count > self.max_nodes {
            let a = usize_to_decimal(count);
            let b = usize_to_decimal(self.max_nodes);
            let resource = cat4("node count ", a.as_str(), " exceeds max ", b.as_str());
            errors.push(ValidationError::ResourceViolation { node_id: NodeId::new(), resource });
        }
        assert(errors@.map_values(tag) =~= spec_expected_tags(c1, c2, c3, c4, c5));
        assert(forall|i: int| 0 <= i < errors@.len() ==> #[trigger] inv(errors@[i]));
        if errors.len() == 0 {
            Ok(())
        } else {
            Err(errors)
        }
    }
}

impl Default for Validator {
    fn default() -> (v: Self)
        ensures
            v.require_input,
            v.require_output,
            v.max_nodes == 0,
    {
        Validator::new()
    }
}

} // verus!
