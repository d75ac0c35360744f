//! The insertion-ordered maps of the `indexmap` crate that a rebuilt state
//! keeps: node states keyed by node, and global values keyed by text.
//!
//! Their contents are named over plain values. `NodeId`'s derived equality
//! and hashing compare its one `u128` field, and `String`'s compare the
//! characters, so two keys are the same key exactly when their plain values
//! are equal.
use vstd::prelude::*;
use indexmap::IndexMap;
use crate::core_types::id::NodeId;
use crate::replay::state::NodeState;

verus! {

/// The entries of a node-state map, in insertion order.
pub uninterp spec fn node_state_entries(m: IndexMap<NodeId, NodeState>) -> Seq<(u128, NodeState)>;

/// The entries of a global-value map, in insertion order.
pub uninterp spec fn global_entries(m: IndexMap<String, Vec<u8>>) -> Seq<(Seq<char>, Seq<u8>)>;

/// The position of the first entry with key `k`, or -1.
pub open spec fn key_pos<V>(es: Seq<(u128, V)>, k: u128) -> int
    decreases es.len(),
{
    if es.len() == 0 {
        -1
    } else if key_pos(es.drop_last(), k) >= 0 {
        key_pos(es.drop_last(), k)
    } else if es.last().0 == k {
        es.len() - 1
    } else {
        -1
    }
}

/// The entries after setting `v` under `k`: a new key comes last, a present
/// key keeps its place.
pub open spec fn put_at<V>(es: Seq<(u128, V)>, k: u128, v: V) -> Seq<(u128, V)> {
    if key_pos(es, k) < 0 {
        es.push((k, v))
    } else {
        es.update(key_pos(es, k), (k, v))
    }
}

/// The position of the first entry with text key `k`, or -1.
pub open spec fn text_pos(es: Seq<(Seq<char>, Seq<u8>)>, k: Seq<char>) -> int
    decreases es.len(),
{
    if es.len() == 0 {
        -1
    } else if text_pos(es.drop_last(), k) >= 0 {
        text_pos(es.drop_last(), k)
    } else if es.last().0 == k {
        es.len() - 1
    } else {
        -1
    }
}

/// The entries after setting `v` under text key `k`.
pub open spec fn text_put(es: Seq<(Seq<char>, Seq<u8>)>, k: Seq<char>, v: Seq<u8>) -> Seq<(Seq<char>, Seq<u8>)> {
    if text_pos(es, k) < 0 {
        es.push((k, v))
    } else {
        es.update(text_pos(es, k), (k, v))
    }
}

/// The value under text key `k`.
pub open spec fn text_get(es: Seq<(Seq<char>, Seq<u8>)>, k: Seq<char>) -> Option<Seq<u8>> {
    if text_pos(es, k) >= 0 {
        Some(es[text_pos(es, k)].1)
    } else {
        None
    }
}

/// A found position is within bounds and holds the key.
pub proof fn lemma_key_pos<V>(es: Seq<(u128, V)>, k: u128)
    ensures
        -1 <= key_pos(es, k) < es.len(),
        key_pos(es, k) >= 0 ==> es[key_pos(es, k)].0 == k,
        key_pos(es, k) < 0 ==> forall|i: int| 0 <= i < es.len() ==> #[trigger] es[i].0 != k,
    decreases es.len(),
{
    if es.len() > 0 {
        lemma_key_pos(es.drop_last(), k);
        if key_pos(es, k) < 0 {
            assert forall|i: int| 0 <= i < es.len() implies #[trigger] es[i].0 != k by {
                if i < es.len() - 1 {
                    assert(es.drop_last()[i] == es[i]);
                }
            }
        }
    }
}

/// A found text position is within bounds and holds the key.
pub proof fn lemma_text_pos(es: Seq<(Seq<char>, Seq<u8>)>, k: Seq<char>)
    ensures
        -1 <= text_pos(es, k) < es.len(),
        text_pos(es, k) >= 0 ==> es[text_pos(es, k)].0 == k,
        text_pos(es, k) < 0 ==> forall|i: int| 0 <= i < es.len() ==> #[trigger] es[i].0 != k,
    decreases es.len(),
{
    if es.len() > 0 {
        lemma_text_pos(es.drop_last(), k);
        if text_pos(es, k) < 0 {
            assert forall|i: int| 0 <= i < es.len() implies #[trigger] es[i].0 != k by {
                if i < es.len() - 1 {
                    assert(es.drop_last()[i] == es[i]);
                }
            }
        }
    }
}

/// An empty node-state map.
///
/// Calls `IndexMap::new`.
#[verifier::external_body]
pub(crate) fn node_states_new() -> (m: IndexMap<NodeId, NodeState>)
    ensures
        node_state_entries(m) == Seq::<(u128, NodeState)>::empty(),
{
    IndexMap::new()
}

/// Sets the state under `k`.
///
/// Calls `IndexMap::insert`: a new key is appended last, a present key keeps
/// its place and takes the new value.
#[verifier::external_body]
pub(crate) fn node_states_insert(m: &mut IndexMap<NodeId, NodeState>, k: NodeId, v: NodeState)
    ensures
        node_state_entries(*final(m)) == put_at(node_state_entries(*old(m)), k.value, v),
{
    m.insert(k, v);
}

/// The state under `k`.
///
/// Calls `IndexMap::get`.
#[verifier::external_body]
pub(crate) fn node_states_get<'a>(m: &'a IndexMap<NodeId, NodeState>, k: &NodeId) -> (r: Option<&'a NodeState>)
    ensures
        r == (if key_pos(node_state_entries(*m), k.value) >= 0 {
            Some(&node_state_entries(*m)[key_pos(node_state_entries(*m), k.value)].1)
        } else {
            None
        }),
{
    m.get(k)
}

/// The number of entries.
///
/// Calls `IndexMap::len`.
#[verifier::external_body]
pub(crate) fn node_states_len(m: &IndexMap<NodeId, NodeState>) -> (n: usize)
    ensures
        n == node_state_entries(*m).len(),
{
    m.len()
}

/// The key at position `i`.
///
/// Calls `IndexMap::get_index`.
#[verifier::external_body]
pub(crate) fn node_states_key_at(m: &IndexMap<NodeId, NodeState>, i: usize) -> (k: NodeId)
    requires
        i < node_state_entries(*m).len(),
    ensures
        k.value == node_state_entries(*m)[i as int].0,
{
    *m.get_index(i).unwrap().0
}

/// The state at position `i`.
///
/// Calls `IndexMap::get_index`.
#[verifier::external_body]
pub(crate) fn node_states_value_at(m: &IndexMap<NodeId, NodeState>, i: usize) -> (v: &NodeState)
    requires
        i < node_state_entries(*m).len(),
    ensures
        *v == node_state_entries(*m)[i as int].1,
{
    m.get_index(i).unwrap().1
}

/// An empty global-value map.
///
/// Calls `IndexMap::new`.
#[verifier::external_body]
pub(crate) fn globals_new() -> (m: IndexMap<String, Vec<u8>>)
    ensures
        global_entries(m) == Seq::<(Seq<char>, Seq<u8>)>::empty(),
{
    IndexMap::new()
}

/// Sets the value under `k`.
///
/// Calls `IndexMap::insert`: a new key is appended last, a present key keeps
/// its place and takes the new value.
#[verifier::external_body]
pub(crate) fn globals_insert(m: &mut IndexMap<String, Vec<u8>>, k: String, v: Vec<u8>)
    ensures
        global_entries(*final(m)) == text_put(global_entries(*old(m)), k@, v@),
{
    m.insert(k, v);
}

/// The value under `k`.
///
/// Calls `IndexMap::get`.
#[verifier::external_body]
pub(crate) fn globals_get<'a>(m: &'a IndexMap<String, Vec<u8>>, k: &str) -> (r: Option<&'a Vec<u8>>)
    ensures
        r is Some <==> text_pos(global_entries(*m), k@) >= 0,
        r matches Some(v) ==> v@ == global_entries(*m)[text_pos(global_entries(*m), k@)].1,
{
    m.get(k)
}

/// The number of entries.
///
/// Calls `IndexMap::len`.
#[verifier::external_body]
pub(crate) fn globals_len(m: &IndexMap<String, Vec<u8>>) -> (n: usize)
    ensures
        n == global_entries(*m).len(),
{
    m.len()
}

/// The key at position `i`.
///
/// Calls `IndexMap::get_index`.
#[verifier::external_body]
pub(crate) fn globals_key_at(m: &IndexMap<String, Vec<u8>>, i: usize) -> (k: &String)
    requires
        i < global_entries(*m).len(),
    ensures
        k@ == global_entries(*m)[i as int].0,
{
    m.get_index(i).unwrap().0
}

/// The value at position `i`.
///
/// Calls `IndexMap::get_index`.
#[verifier::external_body]
pub(crate) fn globals_value_at(m: &IndexMap<String, Vec<u8>>, i: usize) -> (v: &Vec<u8>)
    requires
        i < global_entries(*m).len(),
    ensures
        v@ == global_entries(*m)[i as int].1,
{
    m.get_index(i).unwrap().1
}

} // verus!
