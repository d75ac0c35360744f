//! Walks along the edges of a plan, and what a depth-first traversal from one
//! node can meet: the nodes reachable from it.
use vstd::prelude::*;
use crate::plan::dag::Edge;

verus! {

/// Whether some edge leads from `a` to `b`.
pub open spec fn has_edge(edges: Seq<Edge>, a: u128, b: u128) -> bool {
    exists|i: int| 0 <= i < edges.len() && #[trigger] edges[i].from.value == a && edges[i].to.value == b
}

/// Whether `p` is a walk: one node or more, each linked to the next by an edge.
pub open spec fn is_walk(edges: Seq<Edge>, p: Seq<u128>) -> bool {
    &&& p.len() >= 1
    &&& forall|i: int| 0 <= i < p.len() - 1 ==> #[trigger] has_edge(edges, p[i], p[i + 1])
}

/// Whether a walk leads from `s` to `v` (every node reaches itself).
pub open spec fn reaches(edges: Seq<Edge>, s: u128, v: u128) -> bool {
    exists|p: Seq<u128>| #[trigger] is_walk(edges, p) && p[0] == s && p.last() == v
}




/// The targets of the edges that leave `u`, in edge order.
pub open spec fn targets_from(edges: Seq<Edge>, u: u128) -> Seq<u128>
    decreases edges.len(),
{
    if edges.len() == 0 {
        Seq::empty()
    } else {
        targets_from(edges.drop_last(), u) + (if edges.last().from.value == u {
            seq![edges.last().to.value]
        } else {
            Seq::empty()
        })
    }
}



/// The values a traversal from `s` can push: `s` and every edge target.
pub open spec fn candidates(edges: Seq<Edge>, s: u128) -> Seq<u128> {
    seq![s] + edges.map_values(|e: Edge| e.to.value)
}










/// The targets of `u` are edge targets.
pub proof fn lemma_targets_are_edges(edges: Seq<Edge>, u: u128, k: int)
    requires
        0 <= k < targets_from(edges, u).len(),
    ensures
        has_edge(edges, u, targets_from(edges, u)[k]),
    decreases edges.len(),
{
    let t0 = targets_from(edges.drop_last(), u);
    if k < t0.len() {
        lemma_targets_are_edges(edges.drop_last(), u, k);
        let i = choose|i: int|
            0 <= i < edges.drop_last().len() && #[trigger] edges.drop_last()[i].from.value == u
                && edges.drop_last()[i].to.value == t0[k];
        assert(edges[i] == edges.drop_last()[i]);
    } else {
        assert(edges[edges.len() - 1].from.value == u);
    }
}

/// A walk extended by an edge from its last node is a walk.
pub proof fn lemma_walk_push(edges: Seq<Edge>, p: Seq<u128>, w: u128)
    requires
        is_walk(edges, p),
        has_edge(edges, p.last(), w),
    ensures
        is_walk(edges, p.push(w)),
        p.push(w)[0] == p[0],
{
    let q = p.push(w);
    assert forall|i: int| 0 <= i < q.len() - 1 implies #[trigger] has_edge(edges, q[i], q[i + 1]) by {
        if i < p.len() - 1 {
            assert(q[i] == p[i] && q[i + 1] == p[i + 1]);
            assert(has_edge(edges, p[i], p[i + 1]));
        }
    }
}

/// A node reaches every target of an edge leaving a node it reaches.
pub proof fn lemma_reaches_step(edges: Seq<Edge>, s: u128, u: u128, w: u128)
    requires
        reaches(edges, s, u),
        has_edge(edges, u, w),
    ensures
        reaches(edges, s, w),
{
    let p = choose|p: Seq<u128>| #[trigger] is_walk(edges, p) && p[0] == s && p.last() == u;
    lemma_walk_push(edges, p, w);
    assert(is_walk(edges, p.push(w)) && p.push(w)[0] == s && p.push(w).last() == w);
}

/// Every node reaches itself.
pub proof fn lemma_reaches_self(edges: Seq<Edge>, s: u128)
    ensures
        reaches(edges, s, s),
{
    assert(is_walk(edges, seq![s]));
}

/// Every node of a walk that starts in a set closed under edges lies in it.
pub proof fn lemma_walk_in_closed(edges: Seq<Edge>, set: Set<u128>, p: Seq<u128>, k: int)
    requires
        is_walk(edges, p),
        set.contains(p[0]),
        forall|a: u128, b: u128| set.contains(a) && #[trigger] has_edge(edges, a, b) ==> set.contains(b),
        0 <= k < p.len(),
    ensures
        set.contains(p[k]),
    decreases k,
{
    if k > 0 {
        lemma_walk_in_closed(edges, set, p, k - 1);
        assert(has_edge(edges, p[k - 1], p[k - 1 + 1]));
    }
}

/// A set that holds `s` and every target of an edge leaving one of its nodes
/// holds every node reachable from `s`.
pub proof fn lemma_closed_holds_reachable(edges: Seq<Edge>, s: u128, set: Set<u128>, v: u128)
    requires
        set.contains(s),
        forall|a: u128, b: u128| set.contains(a) && #[trigger] has_edge(edges, a, b) ==> set.contains(b),
        reaches(edges, s, v),
    ensures
        set.contains(v),
{
    let p = choose|p: Seq<u128>| #[trigger] is_walk(edges, p) && p[0] == s && p.last() == v;
    lemma_walk_in_closed(edges, set, p, p.len() - 1);
}

/// A traversal pushes only candidate values.
pub proof fn lemma_targets_candidates(edges: Seq<Edge>, s: u128, u: u128, k: int)
    requires
        0 <= k < targets_from(edges, u).len(),
    ensures
        candidates(edges, s).contains(targets_from(edges, u)[k]),
{
    lemma_targets_are_edges(edges, u, k);
    let i = choose|i: int|
        0 <= i < edges.len() && #[trigger] edges[i].from.value == u && edges[i].to.value == targets_from(
            edges,
            u,
        )[k];
    assert(candidates(edges, s)[i + 1] == edges[i].to.value);
}

/// A sequence without repeats, drawn from `c`, is no longer than `c`.
pub proof fn lemma_unique_subset_bound(vis: Seq<u128>, c: Seq<u128>)
    requires
        vis.no_duplicates(),
        forall|k: int| 0 <= k < vis.len() ==> c.contains(#[trigger] vis[k]),
    ensures
        vis.len() <= c.len(),
{
    broadcast use vstd::seq_lib::seq_to_set_is_finite;
    vis.unique_seq_to_set();
    c.lemma_cardinality_of_set();
    assert(vis.to_set().subset_of(c.to_set())) by {
        assert forall|x: u128| vis.to_set().contains(x) implies c.to_set().contains(x) by {
            let k = choose|k: int| 0 <= k < vis.len() && vis[k] == x;
            assert(c.contains(vis[k]));
        }
    }
    vstd::set_lib::lemma_len_subset(vis.to_set(), c.to_set());
}

/// Distinct candidate values number at most one more than the edges.
pub proof fn lemma_unique_candidates_bound(edges: Seq<Edge>, s: u128, vis: Seq<u128>)
    requires
        vis.no_duplicates(),
        forall|k: int| 0 <= k < vis.len() ==> candidates(edges, s).contains(#[trigger] vis[k]),
    ensures
        vis.len() <= edges.len() + 1,
{
    lemma_unique_subset_bound(vis, candidates(edges, s));
}

/// Every edge target from `u` is among the targets of `u`.
pub proof fn lemma_edge_in_targets(edges: Seq<Edge>, i: int)
    requires
        0 <= i < edges.len(),
    ensures
        targets_from(edges, edges[i].from.value).contains(edges[i].to.value),
    decreases edges.len(),
{
    let u = edges[i].from.value;
    let t0 = targets_from(edges.drop_last(), u);
    if i < edges.len() - 1 {
        lemma_edge_in_targets(edges.drop_last(), i);
        let k = choose|k: int| 0 <= k < t0.len() && t0[k] == edges[i].to.value;
        assert(targets_from(edges, u)[k] == t0[k]);
    } else {
        assert(targets_from(edges, u)[t0.len() as int] == edges[i].to.value);
    }
}

} // verus!
