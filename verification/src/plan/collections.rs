//! The insertion-ordered map and set of the `indexmap` crate, as the plan
//! uses them: nodes keyed by identifier, and sets of identifiers.
//!
//! Their contents are named over plain identifier values; the keys are
//! `NodeId`s, whose derived equality and hashing compare the one `u128`
//! field, so two keys are the same key exactly when their values are equal.
use vstd::prelude::*;
use indexmap::{IndexMap, IndexSet};
use crate::core_types::id::NodeId;
use crate::plan::dag::Node;
use crate::runtime::engine::NodeOutput;

verus! {

#[verifier::external_type_specification]
#[verifier::external_body]
#[verifier::reject_recursive_types(K)]
#[verifier::reject_recursive_types(V)]
#[verifier::reject_recursive_types(S)]
pub struct ExIndexMap<K, V, S>(IndexMap<K, V, S>);

#[verifier::external_type_specification]
#[verifier::external_body]
#[verifier::reject_recursive_types(T)]
#[verifier::reject_recursive_types(S)]
pub struct ExIndexSet<T, S>(IndexSet<T, S>);

/// A copy of a map.
///
/// `IndexMap::clone` copies every entry in order; nothing of the copy is
/// stated here, as the copy's contents are typed by the map's generics.
pub assume_specification<K, V, S>[<IndexMap<K, V, S> as std::clone::Clone>::clone](
    m: &IndexMap<K, V, S>,
) -> IndexMap<K, V, S>
    where
        K: std::clone::Clone,
        S: std::clone::Clone,
        V: std::clone::Clone,
;

/// A copy of a set.
///
/// `IndexSet::clone` copies every item in order; nothing of the copy is
/// stated here, as the copy's contents are typed by the set's generics.
pub assume_specification<T, S>[<IndexSet<T, S> as std::clone::Clone>::clone](
    s: &IndexSet<T, S>,
) -> IndexSet<T, S>
    where
        S: std::clone::Clone,
        T: std::clone::Clone,
;

/// The entries of a node map, in insertion order, keyed by identifier value.
pub uninterp spec fn node_map_entries(m: IndexMap<NodeId, Node>) -> Seq<(u128, Node)>;

/// The identifier values of a set, in insertion order.
pub uninterp spec fn id_set_items(s: IndexSet<NodeId>) -> Seq<u128>;

/// Whether some entry has key `k`.
pub open spec fn has_key(entries: Seq<(u128, Node)>, k: u128) -> bool {
    exists|i: int| 0 <= i < entries.len() && #[trigger] entries[i].0 == k
}

/// An empty node map.
///
/// Calls `IndexMap::new`, which holds no entries.
#[verifier::external_body]
pub(crate) fn node_map_new() -> (m: IndexMap<NodeId, Node>)
    ensures
        node_map_entries(m) == Seq::<(u128, Node)>::empty(),
{
    IndexMap::new()
}

/// Whether the map has key `k`.
///
/// Calls `IndexMap::contains_key`, true exactly when an entry has an equal key.
#[verifier::external_body]
pub(crate) fn node_map_contains(m: &IndexMap<NodeId, Node>, k: &NodeId) -> (b: bool)
    ensures
        b == has_key(node_map_entries(*m), k.value),
{
    m.contains_key(k)
}

/// Inserts `v` under `k`.
///
/// Calls `IndexMap::insert`: a new key is appended last and `None` comes
/// back; for a key already present its entry keeps its place, takes the new
/// value, and the old value comes back.
#[verifier::external_body]
pub(crate) fn node_map_insert(m: &mut IndexMap<NodeId, Node>, k: NodeId, v: Node) -> (r: Option<Node>)
    ensures
        !has_key(node_map_entries(*old(m)), k.value) ==> (node_map_entries(*final(m))
            == node_map_entries(*old(m)).push((k.value, v)) && r is None),
        has_key(node_map_entries(*old(m)), k.value) ==> exists|i: int|
            0 <= i < node_map_entries(*old(m)).len() && #[trigger] node_map_entries(*old(m))[i].0 == k.value
                && node_map_entries(*final(m)) == node_map_entries(*old(m)).update(i, (k.value, v))
                && r == Some(node_map_entries(*old(m))[i].1),
{
    m.insert(k, v)
}

/// The node under key `k`.
///
/// Calls `IndexMap::get`, which finds the entry with an equal key.
#[verifier::external_body]
pub(crate) fn node_map_get<'a>(m: &'a IndexMap<NodeId, Node>, k: &NodeId) -> (r: Option<&'a Node>)
    ensures
        r is None <==> !has_key(node_map_entries(*m), k.value),
        r matches Some(n) ==> exists|i: int|
            0 <= i < node_map_entries(*m).len() && #[trigger] node_map_entries(*m)[i] == (k.value, *n),
{
    m.get(k)
}

/// The number of entries.
///
/// Calls `IndexMap::len`.
#[verifier::external_body]
pub(crate) fn node_map_len(m: &IndexMap<NodeId, Node>) -> (n: usize)
    ensures
        n == node_map_entries(*m).len(),
{
    m.len()
}

/// An empty identifier set.
///
/// Calls `IndexSet::new`, which holds no items.
#[verifier::external_body]
pub(crate) fn id_set_new() -> (s: IndexSet<NodeId>)
    ensures
        id_set_items(s) == Seq::<u128>::empty(),
{
    IndexSet::new()
}

/// Whether the set holds `k`.
///
/// Calls `IndexSet::contains`.
#[verifier::external_body]
pub(crate) fn id_set_contains(s: &IndexSet<NodeId>, k: &NodeId) -> (b: bool)
    ensures
        b == id_set_items(*s).contains(k.value),
{
    s.contains(k)
}

/// Adds `k`, returning whether it was absent.
///
/// Calls `IndexSet::insert`: an absent item is appended last and `true`
/// comes back; a present one leaves the set as it was and `false` comes back.
#[verifier::external_body]
pub(crate) fn id_set_insert(s: &mut IndexSet<NodeId>, k: NodeId) -> (b: bool)
    ensures
        b == !id_set_items(*old(s)).contains(k.value),
        b ==> id_set_items(*final(s)) == id_set_items(*old(s)).push(k.value),
        !b ==> id_set_items(*final(s)) == id_set_items(*old(s)),
{
    s.insert(k)
}

/// The number of items.
///
/// Calls `IndexSet::len`.
#[verifier::external_body]
pub(crate) fn id_set_len(s: &IndexSet<NodeId>) -> (n: usize)
    ensures
        n == id_set_items(*s).len(),
{
    s.len()
}

/// The key at position `i` of the insertion order.
///
/// Calls `IndexMap::get_index`, which gives the entry at that position, or
/// `None` past the end.
#[verifier::external_body]
pub(crate) fn node_map_key_at(m: &IndexMap<NodeId, Node>, i: usize) -> (r: Option<NodeId>)
    ensures
        r == (if i < node_map_entries(*m).len() {
            Some(NodeId { value: node_map_entries(*m)[i as int].0 })
        } else {
            None
        }),
{
    m.get_index(i).map(|(k, _)| *k)
}

/// The node at position `i` of the insertion order.
///
/// Calls `IndexMap::get_index`, which gives the entry at that position, or
/// `None` past the end.
#[verifier::external_body]
pub(crate) fn node_map_value_at<'a>(m: &'a IndexMap<NodeId, Node>, i: usize) -> (r: Option<&'a Node>)
    ensures
        r == (if i < node_map_entries(*m).len() {
            Some(&node_map_entries(*m)[i as int].1)
        } else {
            None
        }),
{
    m.get_index(i).map(|(_, v)| v)
}

/// The item at position `i` of the insertion order.
///
/// Calls `IndexSet::get_index`, which gives the item at that position, or
/// `None` past the end.
#[verifier::external_body]
pub(crate) fn id_set_get(s: &IndexSet<NodeId>, i: usize) -> (r: Option<NodeId>)
    ensures
        r == (if i < id_set_items(*s).len() {
            Some(NodeId { value: id_set_items(*s)[i as int] })
        } else {
            None
        }),
{
    s.get_index(i).copied()
}

/// Removes `k`, returning whether it was present.
///
/// Calls `IndexSet::remove`, which is `swap_remove`: the item's place is
/// taken by the last item, and the set is one shorter.
#[verifier::external_body]
#[allow(deprecated)]
pub(crate) fn id_set_remove(s: &mut IndexSet<NodeId>, k: &NodeId) -> (b: bool)
    ensures
        b == id_set_items(*old(s)).contains(k.value),
        !b ==> id_set_items(*final(s)) == id_set_items(*old(s)),
        b ==> exists|i: int|
            0 <= i < id_set_items(*old(s)).len() && #[trigger] id_set_items(*old(s))[i] == k.value
                && id_set_items(*final(s)) == id_set_items(*old(s)).update(
                i,
                id_set_items(*old(s)).last(),
            ).drop_last(),
{
    s.remove(k)
}

/// The entries of a dependency map, in insertion order: each node with the
/// identifier values of its set.
pub uninterp spec fn dep_map_entries(m: IndexMap<NodeId, IndexSet<NodeId>>) -> Seq<(u128, Seq<u128>)>;

/// The position of the first entry with key `k`, or -1.
pub open spec fn dep_find(es: Seq<(u128, Seq<u128>)>, k: u128) -> int
    decreases es.len(),
{
    if es.len() == 0 {
        -1
    } else if dep_find(es.drop_last(), k) >= 0 {
        dep_find(es.drop_last(), k)
    } else if es.last().0 == k {
        es.len() - 1
    } else {
        -1
    }
}

/// Whether no key occurs twice.
pub open spec fn dep_keys_unique(es: Seq<(u128, Seq<u128>)>) -> bool {
    forall|i: int, j: int| 0 <= i < j < es.len() ==> #[trigger] es[i].0 != #[trigger] es[j].0
}

/// An empty dependency map.
///
/// Calls `IndexMap::new`.
#[verifier::external_body]
pub(crate) fn dep_map_new() -> (m: IndexMap<NodeId, IndexSet<NodeId>>)
    ensures
        dep_map_entries(m) == Seq::<(u128, Seq<u128>)>::empty(),
{
    IndexMap::new()
}

/// Sets the set under `k`.
///
/// Calls `IndexMap::insert`: a new key is appended last, a present key keeps
/// its place and takes the new set. Keys stay distinct.
#[verifier::external_body]
pub(crate) fn dep_map_insert(m: &mut IndexMap<NodeId, IndexSet<NodeId>>, k: NodeId, v: IndexSet<NodeId>)
    ensures
        dep_find(dep_map_entries(*old(m)), k.value) < 0 ==> dep_map_entries(*final(m)) == dep_map_entries(*old(m)).push(
            (k.value, id_set_items(v)),
        ),
        dep_find(dep_map_entries(*old(m)), k.value) >= 0 ==> dep_map_entries(*final(m)) == dep_map_entries(
            *old(m),
        ).update(dep_find(dep_map_entries(*old(m)), k.value), (k.value, id_set_items(v))),
        dep_keys_unique(dep_map_entries(*final(m))),
{
    m.insert(k, v);
}

/// Adds `v` to the set under `k`, starting an empty set for a new key.
///
/// Calls `IndexMap::entry`, `Entry::or_insert_with(IndexSet::new)` and
/// `IndexSet::insert`: a new key is appended last with the set `[v]`; for
/// a present key, `v` is appended to its set unless already there.
#[verifier::external_body]
pub(crate) fn dep_map_add(m: &mut IndexMap<NodeId, IndexSet<NodeId>>, k: NodeId, v: NodeId)
    ensures
        dep_find(dep_map_entries(*old(m)), k.value) < 0 ==> dep_map_entries(*final(m)) == dep_map_entries(*old(m)).push(
            (k.value, seq![v.value]),
        ),
        dep_find(dep_map_entries(*old(m)), k.value) >= 0 ==> ({
            let i = dep_find(dep_map_entries(*old(m)), k.value);
            let s = dep_map_entries(*old(m))[i].1;
            dep_map_entries(*final(m)) == dep_map_entries(*old(m)).update(
                i,
                (k.value, if s.contains(v.value) { s } else { s.push(v.value) }),
            )
        }),
        dep_keys_unique(dep_map_entries(*final(m))),
{
    m.entry(k).or_insert_with(IndexSet::new).insert(v);
}

/// The set under `k`.
///
/// Calls `IndexMap::get`; keys are distinct, so the entry found is the
/// first with that key.
#[verifier::external_body]
pub(crate) fn dep_map_get<'a>(m: &'a IndexMap<NodeId, IndexSet<NodeId>>, k: &NodeId) -> (r: Option<&'a IndexSet<NodeId>>)
    ensures
        r is None <==> dep_find(dep_map_entries(*m), k.value) < 0,
        r matches Some(s) ==> id_set_items(*s) == dep_map_entries(*m)[dep_find(dep_map_entries(*m), k.value)].1,
{
    m.get(k)
}

/// The number of entries.
///
/// Calls `IndexMap::len`.
#[verifier::external_body]
pub(crate) fn dep_map_len(m: &IndexMap<NodeId, IndexSet<NodeId>>) -> (n: usize)
    ensures
        n == dep_map_entries(*m).len(),
{
    m.len()
}

/// The key at position `i` of the insertion order.
///
/// Calls `IndexMap::get_index`, which gives the entry at that position.
#[verifier::external_body]
pub(crate) fn dep_map_key_at(m: &IndexMap<NodeId, IndexSet<NodeId>>, i: usize) -> (k: NodeId)
    requires
        i < dep_map_entries(*m).len(),
    ensures
        k.value == dep_map_entries(*m)[i as int].0,
{
    *m.get_index(i).unwrap().0
}

/// The set at position `i` of the insertion order.
///
/// Calls `IndexMap::get_index`, which gives the entry at that position.
#[verifier::external_body]
pub(crate) fn dep_map_set_at(m: &IndexMap<NodeId, IndexSet<NodeId>>, i: usize) -> (s: &IndexSet<NodeId>)
    requires
        i < dep_map_entries(*m).len(),
    ensures
        id_set_items(*s) == dep_map_entries(*m)[i as int].1,
{
    m.get_index(i).unwrap().1
}

/// The identifier values of a copy of a set.
///
/// Calls `IndexSet::clone`, which copies the items in order.
#[verifier::external_body]
pub(crate) fn id_set_clone(s: &IndexSet<NodeId>) -> (c: IndexSet<NodeId>)
    ensures
        id_set_items(c) == id_set_items(*s),
{
    s.clone()
}

/// Empties the set.
///
/// Calls `IndexSet::clear`.
#[verifier::external_body]
pub(crate) fn id_set_clear(s: &mut IndexSet<NodeId>)
    ensures
        id_set_items(*final(s)) == Seq::<u128>::empty(),
{
    s.clear();
}

/// The entries of an output map, in insertion order, keyed by identifier
/// value.
pub uninterp spec fn output_map_entries(m: IndexMap<NodeId, NodeOutput>) -> Seq<(u128, NodeOutput)>;

/// The position of the first output entry with key `k`, or -1.
pub open spec fn out_find(es: Seq<(u128, NodeOutput)>, k: u128) -> int
    decreases es.len(),
{
    if es.len() == 0 {
        -1
    } else if out_find(es.drop_last(), k) >= 0 {
        out_find(es.drop_last(), k)
    } else if es.last().0 == k {
        es.len() - 1
    } else {
        -1
    }
}

/// The output entries after setting `v` under `k`: a new key comes last, a
/// present key keeps its place.
pub open spec fn out_put(es: Seq<(u128, NodeOutput)>, k: u128, v: NodeOutput) -> Seq<(u128, NodeOutput)> {
    if out_find(es, k) < 0 {
        es.push((k, v))
    } else {
        es.update(out_find(es, k), (k, v))
    }
}

/// An empty output map.
///
/// Calls `IndexMap::new`.
#[verifier::external_body]
pub(crate) fn output_map_new() -> (m: IndexMap<NodeId, NodeOutput>)
    ensures
        output_map_entries(m) == Seq::<(u128, NodeOutput)>::empty(),
{
    IndexMap::new()
}

/// Sets the output under `k`.
///
/// Calls `IndexMap::insert`: a new key is appended last, a present key keeps
/// its place and takes the new value.
#[verifier::external_body]
pub(crate) fn output_map_insert(m: &mut IndexMap<NodeId, NodeOutput>, k: NodeId, v: NodeOutput)
    ensures
        output_map_entries(*final(m)) == out_put(output_map_entries(*old(m)), k.value, v),
{
    m.insert(k, v);
}

/// The output under `k`.
///
/// Calls `IndexMap::get`, which finds the entry with that key.
#[verifier::external_body]
pub(crate) fn output_map_get<'a>(m: &'a IndexMap<NodeId, NodeOutput>, k: &NodeId) -> (r: Option<&'a NodeOutput>)
    ensures
        r == (if out_find(output_map_entries(*m), k.value) >= 0 {
            Some(&output_map_entries(*m)[out_find(output_map_entries(*m), k.value)].1)
        } else {
            None
        }),
{
    m.get(k)
}

/// The number of outputs.
///
/// Calls `IndexMap::len`.
#[verifier::external_body]
pub(crate) fn output_map_len(m: &IndexMap<NodeId, NodeOutput>) -> (n: usize)
    ensures
        n == output_map_entries(*m).len(),
{
    m.len()
}

/// Empties the map.
///
/// Calls `IndexMap::clear`.
#[verifier::external_body]
pub(crate) fn output_map_clear(m: &mut IndexMap<NodeId, NodeOutput>)
    ensures
        output_map_entries(*final(m)) == Seq::<(u128, NodeOutput)>::empty(),
{
    m.clear();
}

} // verus!
