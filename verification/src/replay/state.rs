//! The state a replay rebuilds: each node's state, global values, errors and
//! logical time; and the difference between two such states.
use vstd::prelude::*;
use std::collections::BTreeSet;
use vstd::std_specs::iter::IteratorSpec;
use indexmap::IndexMap;
use crate::core_types::id::NodeId;
use crate::core_types::text::{clone_strings, str_eq, strings_view};
use crate::replay::maps::{
    global_entries, globals_get, globals_insert, globals_key_at, globals_len, globals_new, globals_value_at,
    key_pos, lemma_key_pos, lemma_text_pos, node_state_entries, node_states_get, node_states_insert,
    node_states_key_at, node_states_len, node_states_new, node_states_value_at, put_at, text_get, text_pos,
    text_put,
};

verus! {

/// Whether two byte strings are equal.
pub fn bytes_eq(a: &[u8], b: &[u8]) -> (r: bool)
    ensures
        r == (a@ == b@),
{
    if a.len() != b.len() {
        return false;
    }
    let mut i: usize = 0;
    while i < a.len()
        invariant
            a@.len() == b@.len(),
            i <= a@.len(),
            forall|k: int| 0 <= k < i ==> a@[k] == b@[k],
        decreases a@.len() - i,
    {
        if a[i] != b[i] {
            return false;
        }
        i = i + 1;
    }
    assert(a@ =~= b@);
    true
}

/// A copy of a byte string.
pub fn copy_bytes(a: &[u8]) -> (r: Vec<u8>)
    ensures
        r@ == a@,
{
    let mut v: Vec<u8> = Vec::new();
    let mut i: usize = 0;
    while i < a.len()
        invariant
            i <= a@.len(),
            v@ == a@.take(i as int),
        decreases a@.len() - i,
    {
        v.push(a[i]);
        i = i + 1;
        assert(v@ =~= a@.take(i as int));
    }
    assert(a@.take(i as int) =~= a@);
    v
}

/// The state of one node during replay.
#[derive(Debug, PartialEq, Eq)]
pub struct NodeState {
    pub node_id: NodeId,
    pub completed: bool,
    pub output: Option<Vec<u8>>,
    pub error: Option<String>,
    pub side_effects: Vec<String>,
}

/// What a node state holds, as plain values.
pub struct NodeStateView {
    pub node: u128,
    pub completed: bool,
    pub output: Option<Seq<u8>>,
    pub error: Option<Seq<char>>,
    pub side_effects: Seq<Seq<char>>,
}

impl View for NodeState {
    type V = NodeStateView;

    open spec fn view(&self) -> NodeStateView {
        NodeStateView {
            node: self.node_id.value,
            completed: self.completed,
            output: match self.output {
                Some(v) => Some(v@),
                None => None,
            },
            error: match self.error {
                Some(e) => Some(e@),
                None => None,
            },
            side_effects: strings_view(self.side_effects@),
        }
    }
}

/// A copy of a list of strings, by view.
fn copy_strings(v: &Vec<String>) -> (r: Vec<String>)
    ensures
        strings_view(r@) == strings_view(v@),
{
    let r = clone_strings(v);
    proof {
        assert(r.deep_view().len() == v.deep_view().len());
        assert forall|i: int| 0 <= i < r@.len() implies r@[i]@ == v@[i]@ by {
            assert(r.deep_view()[i] == v.deep_view()[i]);
        }
        assert(strings_view(r@) =~= strings_view(v@));
    }
    r
}

/// Whether two lists of strings hold the same texts.
fn strings_eq(a: &Vec<String>, b: &Vec<String>) -> (r: bool)
    ensures
        r == (strings_view(a@) == strings_view(b@)),
{
    if a.len() != b.len() {
        assert(strings_view(a@).len() != strings_view(b@).len());
        return false;
    }
    let mut i: usize = 0;
    while i < a.len()
        invariant
            a@.len() == b@.len(),
            i <= a@.len(),
            forall|k: int| 0 <= k < i ==> a@[k]@ == b@[k]@,
        decreases a@.len() - i,
    {
        if !str_eq(a[i].as_str(), b[i].as_str()) {
            assert(strings_view(a@)[i as int] != strings_view(b@)[i as int]);
            return false;
        }
        i = i + 1;
    }
    assert(strings_view(a@) =~= strings_view(b@));
    true
}

impl NodeState {
    /// A state for `node_id`: not completed, no output, no error, no side
    /// effects.
    pub fn new(node_id: NodeId) -> (s: Self)
        ensures
            s@ == (NodeStateView {
                node: node_id.value,
                completed: false,
                output: None,
                error: None,
                side_effects: Seq::empty(),
            }),
    {
        let s = NodeState { node_id, completed: false, output: None, error: None, side_effects: Vec::new() };
        assert(s@.side_effects =~= Seq::<Seq<char>>::empty());
        s
    }

    /// The same state, completed with `output`.
    pub fn with_output(self, output: Vec<u8>) -> (s: Self)
        ensures
            s@ == (NodeStateView { completed: true, output: Some(output@), ..self@ }),
    {
        NodeState { completed: true, output: Some(output), ..self }
    }

    /// The same state, not completed, with `error`.
    pub fn with_error(self, error: String) -> (s: Self)
        ensures
            s@ == (NodeStateView { completed: false, error: Some(error@), ..self@ }),
    {
        NodeState { completed: false, error: Some(error), ..self }
    }

    /// The same state with one more side effect, last.
    pub fn with_side_effect(self, effect: String) -> (s: Self)
        ensures
            s@ == (NodeStateView { side_effects: self@.side_effects.push(effect@), ..self@ }),
    {
        let mut s = self;
        let ghost before = s.side_effects@;
        s.side_effects.push(effect);
        assert(strings_view(s.side_effects@) =~= strings_view(before).push(effect@));
        s
    }

    /// A copy of the state.
    pub fn duplicate(&self) -> (s: Self)
        ensures
            s@ == self@,
    {
        NodeState {
            node_id: self.node_id,
            completed: self.completed,
            output: match &self.output {
                Some(v) => Some(copy_bytes(v.as_slice())),
                None => None,
            },
            error: match &self.error {
                Some(e) => Some(e.clone()),
                None => None,
            },
            side_effects: copy_strings(&self.side_effects),
        }
    }

    /// Whether two states hold the same values.
    pub fn same_as(&self, other: &NodeState) -> (b: bool)
        ensures
            b == (self@ == other@),
    {
        if self.node_id != other.node_id || self.completed != other.completed {
            return false;
        }
        let out_same = match (&self.output, &other.output) {
            (Some(a), Some(b)) => bytes_eq(a.as_slice(), b.as_slice()),
            (None, None) => true,
            _ => false,
        };
        if !out_same {
            return false;
        }
        let err_same = match (&self.error, &other.error) {
            (Some(a), Some(b)) => str_eq(a.as_str(), b.as_str()),
            (None, None) => true,
            _ => false,
        };
        if !err_same {
            return false;
        }
        strings_eq(&self.side_effects, &other.side_effects)
    }
}

impl Clone for NodeState {
    fn clone(&self) -> (s: Self)
        ensures
            s@ == self@,
    {
        self.duplicate()
    }
}

/// An error met during replay.
#[derive(Debug, Clone, PartialEq, Eq)]
pub struct ReplayError {
    pub node_id: NodeId,
    pub message: String,
    pub time: u64,
}

/// What a replay error holds, as plain values.
pub struct ReplayErrorView {
    pub node: u128,
    pub message: Seq<char>,
    pub time: u64,
}

impl View for ReplayError {
    type V = ReplayErrorView;

    open spec fn view(&self) -> ReplayErrorView {
        ReplayErrorView { node: self.node_id.value, message: self.message@, time: self.time }
    }
}

/// The views of a list of errors.
pub open spec fn error_views(v: Seq<ReplayError>) -> Seq<ReplayErrorView> {
    v.map_values(|e: ReplayError| e@)
}

/// A change of a global value.
#[derive(Debug, Clone, PartialEq, Eq)]
pub struct GlobalStateChange {
    pub key: String,
    pub old_value: Option<Vec<u8>>,
    pub new_value: Option<Vec<u8>>,
}

/// The views of the entries of a node-state map.
pub open spec fn node_views(es: Seq<(u128, NodeState)>) -> Seq<(u128, NodeStateView)> {
    es.map_values(|p: (u128, NodeState)| (p.0, p.1@))
}

/// Finding a key does not depend on the values.
pub proof fn lemma_key_pos_views(es: Seq<(u128, NodeState)>, k: u128)
    ensures
        key_pos(node_views(es), k) == key_pos(es, k),
    decreases es.len(),
{
    if es.len() > 0 {
        assert(node_views(es).drop_last() =~= node_views(es.drop_last()));
        lemma_key_pos_views(es.drop_last(), k);
    }
}

/// Setting a value and then taking views is taking views and then setting
/// the value's view.
pub proof fn lemma_put_views(es: Seq<(u128, NodeState)>, k: u128, v: NodeState)
    ensures
        node_views(put_at(es, k, v)) == put_at(node_views(es), k, v@),
{
    lemma_key_pos_views(es, k);
    lemma_key_pos(es, k);
    assert(node_views(put_at(es, k, v)) =~= put_at(node_views(es), k, v@));
}

/// The state rebuilt by a replay.
#[derive(Debug)]
pub struct ReconstructedState {
    pub node_outputs: IndexMap<NodeId, NodeState>,
    pub global_state: IndexMap<String, Vec<u8>>,
    pub errors: Vec<ReplayError>,
    pub time: u64,
}

/// What a rebuilt state holds, as plain values.
pub struct ReconView {
    pub nodes: Seq<(u128, NodeStateView)>,
    pub globals: Seq<(Seq<char>, Seq<u8>)>,
    pub errors: Seq<ReplayErrorView>,
    pub time: u64,
}

impl View for ReconstructedState {
    type V = ReconView;

    open spec fn view(&self) -> ReconView {
        ReconView {
            nodes: node_views(node_state_entries(self.node_outputs)),
            globals: global_entries(self.global_state),
            errors: error_views(self.errors@),
            time: self.time,
        }
    }
}

/// The number of completed node states.
pub open spec fn spec_completed(ns: Seq<(u128, NodeStateView)>) -> nat
    decreases ns.len(),
{
    if ns.len() == 0 {
        0
    } else {
        spec_completed(ns.drop_last()) + if ns.last().1.completed { 1nat } else { 0nat }
    }
}

/// The node entries after setting each of `new` in turn.
pub open spec fn put_all(es: Seq<(u128, NodeStateView)>, new: Seq<(u128, NodeStateView)>) -> Seq<(u128, NodeStateView)>
    decreases new.len(),
{
    if new.len() == 0 {
        es
    } else {
        put_at(put_all(es, new.drop_last()), new.last().0, new.last().1)
    }
}

/// The global entries after setting each of `new` in turn.
pub open spec fn text_put_all(es: Seq<(Seq<char>, Seq<u8>)>, new: Seq<(Seq<char>, Seq<u8>)>) -> Seq<
    (Seq<char>, Seq<u8>),
>
    decreases new.len(),
{
    if new.len() == 0 {
        es
    } else {
        text_put(text_put_all(es, new.drop_last()), new.last().0, new.last().1)
    }
}

/// The state of node `k`.
pub open spec fn node_get(ns: Seq<(u128, NodeStateView)>, k: u128) -> Option<NodeStateView> {
    if key_pos(ns, k) >= 0 {
        Some(ns[key_pos(ns, k)].1)
    } else {
        None
    }
}

impl ReconstructedState {
    /// An empty state at time zero.
    pub fn new() -> (s: Self)
        ensures
            s@ == (ReconView { nodes: Seq::empty(), globals: Seq::empty(), errors: Seq::empty(), time: 0 }),
    {
        let s = ReconstructedState {
            node_outputs: node_states_new(),
            global_state: globals_new(),
            errors: Vec::new(),
            time: 0,
        };
        assert(s@.nodes =~= Seq::<(u128, NodeStateView)>::empty());
        assert(s@.errors =~= Seq::<ReplayErrorView>::empty());
        s
    }

    /// Sets the state of `node_id`.
    pub fn add_node_state(&mut self, node_id: NodeId, state: NodeState)
        ensures
            final(self)@ == (ReconView { nodes: put_at(old(self)@.nodes, node_id.value, state@), ..old(self)@ }),
    {
        let ghost es = node_state_entries(self.node_outputs);
        let ghost sv = state;
        node_states_insert(&mut self.node_outputs, node_id, state);
        proof {
            lemma_put_views(es, node_id.value, sv);
        }
    }

    /// The state of `node_id`.
    pub fn get_node_state(&self, node_id: NodeId) -> (r: Option<&NodeState>)
        ensures
            match r {
                Some(s) => node_get(self@.nodes, node_id.value) == Some(s@),
                None => node_get(self@.nodes, node_id.value) is None,
            },
    {
        let r = node_states_get(&self.node_outputs, &node_id);
        proof {
            let es = node_state_entries(self.node_outputs);
            lemma_key_pos_views(es, node_id.value);
            lemma_key_pos(es, node_id.value);
        }
        r
    }

    /// Sets the global value under `key`.
    pub fn set_global(&mut self, key: String, value: Vec<u8>)
        ensures
            final(self)@ == (ReconView { globals: text_put(old(self)@.globals, key@, value@), ..old(self)@ }),
    {
        globals_insert(&mut self.global_state, key, value);
    }

    /// The global value under `key`.
    pub fn get_global(&self, key: &str) -> (r: Option<&[u8]>)
        ensures
            match r {
                Some(v) => text_get(self@.globals, key@) == Some(v@),
                None => text_get(self@.globals, key@) is None,
            },
    {
        match globals_get(&self.global_state, key) {
            Some(v) => Some(v.as_slice()),
            None => None,
        }
    }

    /// Records an error.
    pub fn add_error(&mut self, error: ReplayError)
        ensures
            final(self)@ == (ReconView { errors: old(self)@.errors.push(error@), ..old(self)@ }),
    {
        let ghost before = self.errors@;
        self.errors.push(error);
        assert(error_views(self.errors@) =~= error_views(before).push(error@));
    }

    /// Advances logical time by one.
    pub fn tick(&mut self)
        requires
            old(self)@.time < u64::MAX,
        ensures
            final(self)@ == (ReconView { time: (old(self)@.time + 1) as u64, ..old(self)@ }),
    {
        self.time = self.time + 1;
    }

    /// The logical time.
    pub fn time(&self) -> (t: u64)
        ensures
            t == self@.time,
    {
        self.time
    }

    /// Whether errors were recorded.
    pub fn has_errors(&self) -> (b: bool)
        ensures
            b == (self@.errors.len() > 0),
    {
        self.errors.len() > 0
    }

    /// The number of completed nodes.
    pub fn completed_count(&self) -> (n: usize)
        ensures
            n == spec_completed(self@.nodes),
    {
        let ghost ns = self@.nodes;
        let len = node_states_len(&self.node_outputs);
        let mut n: usize = 0;
        let mut i: usize = 0;
        while i < len
            invariant
                ns == self@.nodes,
                len == ns.len(),
                i <= len,
                n == spec_completed(ns.take(i as int)),
                n <= i,
            decreases len - i,
        {
            let s = node_states_value_at(&self.node_outputs, i);
            proof {
                assert(ns.take(i + 1).drop_last() =~= ns.take(i as int));
                assert(ns[i as int].1 == s@);
            }
            if s.completed {
                n = n + 1;
            }
            i = i + 1;
        }
        assert(ns.take(len as int) =~= ns);
        n
    }

    /// The number of nodes.
    pub fn total_nodes(&self) -> (n: usize)
        ensures
            n == self@.nodes.len(),
    {
        node_states_len(&self.node_outputs)
    }

    /// Takes in `other`: its node states and global values are set in
    /// order, its errors follow, and time is the later of the two.
    pub fn merge(&mut self, other: ReconstructedState)
        ensures
            final(self)@ == (ReconView {
                nodes: put_all(old(self)@.nodes, other@.nodes),
                globals: text_put_all(old(self)@.globals, other@.globals),
                errors: old(self)@.errors + other@.errors,
                time: if old(self)@.time >= other@.time { old(self)@.time } else { other@.time },
            }),
    {
        let ghost on = other@.nodes;
        let ghost og = other@.globals;
        let n = node_states_len(&other.node_outputs);
        let mut i: usize = 0;
        while i < n
            invariant
                on == other@.nodes,
                n == on.len(),
                i <= n,
                self@.nodes == put_all(old(self)@.nodes, on.take(i as int)),
                self@.globals == old(self)@.globals,
                self@.errors == old(self)@.errors,
                self@.time == old(self)@.time,
            decreases n - i,
        {
            let k = node_states_key_at(&other.node_outputs, i);
            let s = node_states_value_at(&other.node_outputs, i).duplicate();
            proof {
                assert(on.take(i + 1).drop_last() =~= on.take(i as int));
                assert(on[i as int] == (k.value, s@));
            }
            self.add_node_state(k, s);
            i = i + 1;
        }
        assert(on.take(n as int) =~= on);
        let g = globals_len(&other.global_state);
        let mut j: usize = 0;
        while j < g
            invariant
                og == other@.globals,
                g == og.len(),
                j <= g,
                self@.nodes == put_all(old(self)@.nodes, on),
                self@.globals == text_put_all(old(self)@.globals, og.take(j as int)),
                self@.errors == old(self)@.errors,
                self@.time == old(self)@.time,
            decreases g - j,
        {
            let key = globals_key_at(&other.global_state, j).clone();
            let value = copy_bytes(globals_value_at(&other.global_state, j).as_slice());
            proof {
                assert(og.take(j + 1).drop_last() =~= og.take(j as int));
            }
            self.set_global(key, value);
            j = j + 1;
        }
        proof {
            assert(og.take(g as int) =~= og);
        }
        let mut errs = other.errors;
        let ghost a = self.errors@;
        let ghost b = errs@;
        self.errors.append(&mut errs);
        assert(error_views(self.errors@) =~= error_views(a) + error_views(b));
        if other.time > self.time {
            self.time = other.time;
        }
    }
}

impl ReplayError {
    /// A copy of the error.
    pub fn duplicate(&self) -> (e: Self)
        ensures
            e@ == self@,
    {
        ReplayError { node_id: self.node_id, message: self.message.clone(), time: self.time }
    }
}

impl ReconstructedState {
    /// A copy of the state: its node states and global values set in order
    /// into an empty state, the same errors and time.
    pub fn duplicate(&self) -> (s: Self)
        ensures
            s@ == (ReconView {
                nodes: put_all(Seq::empty(), self@.nodes),
                globals: text_put_all(Seq::empty(), self@.globals),
                errors: self@.errors,
                time: self@.time,
            }),
    {
        let mut s = ReconstructedState::new();
        let ghost on = self@.nodes;
        let ghost og = self@.globals;
        let n = node_states_len(&self.node_outputs);
        let mut i: usize = 0;
        while i < n
            invariant
                on == self@.nodes,
                n == on.len(),
                i <= n,
                s@ == (ReconView {
                    nodes: put_all(Seq::empty(), on.take(i as int)),
                    globals: Seq::empty(),
                    errors: Seq::empty(),
                    time: 0,
                }),
            decreases n - i,
        {
            let k = node_states_key_at(&self.node_outputs, i);
            let d = node_states_value_at(&self.node_outputs, i).duplicate();
            proof {
                assert(on.take(i + 1).drop_last() =~= on.take(i as int));
                assert(on[i as int] == (k.value, d@));
            }
            s.add_node_state(k, d);
            i = i + 1;
        }
        assert(on.take(n as int) =~= on);
        let g = globals_len(&self.global_state);
        let mut j: usize = 0;
        while j < g
            invariant
                og == self@.globals,
                g == og.len(),
                j <= g,
                s@ == (ReconView {
                    nodes: put_all(Seq::empty(), on),
                    globals: text_put_all(Seq::empty(), og.take(j as int)),
                    errors: Seq::empty(),
                    time: 0,
                }),
            decreases g - j,
        {
            let key = globals_key_at(&self.global_state, j).clone();
            let value = copy_bytes(globals_value_at(&self.global_state, j).as_slice());
            proof {
                assert(og.take(j + 1).drop_last() =~= og.take(j as int));
            }
            s.set_global(key, value);
            j = j + 1;
        }
        assert(og.take(g as int) =~= og);
        let mut e: usize = 0;
        while e < self.errors.len()
            invariant
                e <= self.errors@.len(),
                s@.nodes == put_all(Seq::empty(), on),
                s@.globals == text_put_all(Seq::empty(), og),
                s@.time == 0,
                s@.errors == error_views(self.errors@).take(e as int),
            decreases self.errors@.len() - e,
        {
            let d = self.errors[e].duplicate();
            s.add_error(d);
            e = e + 1;
            assert(s@.errors =~= error_views(self.errors@).take(e as int));
        }
        assert(error_views(self.errors@).take(e as int) =~= error_views(self.errors@));
        s.time = self.time;
        s
    }
}

impl Default for ReconstructedState {
    /// An empty state.
    fn default() -> (s: Self)
        ensures
            s@.nodes.len() == 0,
            s@.time == 0,
    {
        ReconstructedState::new()
    }
}

/// The global changes between two states: for each key of `before`, then
/// each key of `after`, whose values differ, the key with both values.
pub open spec fn spec_global_changes(
    keys: Seq<Seq<char>>,
    before: Seq<(Seq<char>, Seq<u8>)>,
    after: Seq<(Seq<char>, Seq<u8>)>,
) -> Seq<(Seq<char>, Option<Seq<u8>>, Option<Seq<u8>>)>
    decreases keys.len(),
{
    if keys.len() == 0 {
        Seq::empty()
    } else {
        let k = keys.last();
        spec_global_changes(keys.drop_last(), before, after) + if text_get(before, k) != text_get(after, k) {
            seq![(k, text_get(before, k), text_get(after, k))]
        } else {
            Seq::empty()
        }
    }
}

/// The plain values of a list of changes.
pub open spec fn changes_view(cs: Seq<GlobalStateChange>) -> Seq<(Seq<char>, Option<Seq<u8>>, Option<Seq<u8>>)> {
    cs.map_values(
        |c: GlobalStateChange|
            (
                c.key@,
                match c.old_value {
                    Some(v) => Some(v@),
                    None => None,
                },
                match c.new_value {
                    Some(v) => Some(v@),
                    None => None,
                },
            ),
    )
}

/// The keys of a list of global entries.
pub open spec fn text_keys(es: Seq<(Seq<char>, Seq<u8>)>) -> Seq<Seq<char>> {
    es.map_values(|p: (Seq<char>, Seq<u8>)| p.0)
}

/// The differences between two states, by node identifier value.
#[derive(Debug)]
pub struct StateDiff {
    pub added: BTreeSet<u128>,
    pub removed: BTreeSet<u128>,
    pub modified: BTreeSet<u128>,
    pub global_changes: Vec<GlobalStateChange>,
}

/// The keys of a list of node entries.
pub open spec fn node_keys(ns: Seq<(u128, NodeStateView)>) -> Set<u128> {
    Set::new(|k: u128| key_pos(ns, k) >= 0)
}

impl StateDiff {
    /// No differences.
    pub fn new() -> (d: Self)
        ensures
            d.added@ == Set::<u128>::empty(),
            d.removed@ == Set::<u128>::empty(),
            d.modified@ == Set::<u128>::empty(),
            d.global_changes@.len() == 0,
    {
        StateDiff {
            added: BTreeSet::new(),
            removed: BTreeSet::new(),
            modified: BTreeSet::new(),
            global_changes: Vec::new(),
        }
    }

    /// Whether any difference is recorded.
    pub fn has_changes(&self) -> (b: bool)
        ensures
            b == (self.added@.len() > 0 || self.removed@.len() > 0 || self.modified@.len() > 0
                || self.global_changes@.len() > 0),
    {
        self.added.len() > 0 || self.removed.len() > 0 || self.modified.len() > 0 || self.global_changes.len() > 0
    }

    /// Takes in `other`: its nodes join each set and its global changes
    /// follow.
    pub fn merge(&mut self, other: StateDiff)
        ensures
            final(self).added@ == old(self).added@.union(other.added@),
            final(self).removed@ == old(self).removed@.union(other.removed@),
            final(self).modified@ == old(self).modified@.union(other.modified@),
            changes_view(final(self).global_changes@) == changes_view(old(self).global_changes@) + changes_view(
                other.global_changes@,
            ),
    {
        insert_all(&mut self.added, &other.added);
        insert_all(&mut self.removed, &other.removed);
        insert_all(&mut self.modified, &other.modified);
        let mut gc = other.global_changes;
        let ghost a = self.global_changes@;
        let ghost b = gc@;
        self.global_changes.append(&mut gc);
        assert(changes_view(self.global_changes@) =~= changes_view(a) + changes_view(b));
    }

    /// The differences from `before` to `after`: nodes only in `after`, nodes
    /// only in `before`, nodes in both whose states differ, and global
    /// changes.
    pub fn compute(before: &ReconstructedState, after: &ReconstructedState) -> (d: Self)
        ensures
            d.added@ == node_keys(after@.nodes).difference(node_keys(before@.nodes)),
            d.removed@ == node_keys(before@.nodes).difference(node_keys(after@.nodes)),
            d.modified@ == Set::new(
                |k: u128|
                    node_keys(after@.nodes).contains(k) && node_keys(before@.nodes).contains(k) && node_get(
                        before@.nodes,
                        k,
                    ) != node_get(after@.nodes, k),
            ),
            changes_view(d.global_changes@) == spec_global_changes(
                text_keys(before@.globals) + text_keys(after@.globals),
                before@.globals,
                after@.globals,
            ),
    {
        let mut diff = StateDiff::new();
        let ghost bn = before@.nodes;
        let ghost an = after@.nodes;
        let na = node_states_len(&after.node_outputs);
        let mut i: usize = 0;
        while i < na
            invariant
                bn == before@.nodes,
                an == after@.nodes,
                na == an.len(),
                i <= na,
                diff.removed@ == Set::<u128>::empty(),
                diff.global_changes@.len() == 0,
                diff.added@ == Set::new(|k: u128| key_pos(an.take(i as int), k) >= 0 && key_pos(bn, k) < 0),
                diff.modified@ == Set::new(
                    |k: u128|
                        key_pos(an.take(i as int), k) >= 0 && key_pos(bn, k) >= 0 && node_get(bn, k) != node_get(an, k),
                ),
            decreases na - i,
        {
            let k = node_states_key_at(&after.node_outputs, i);
            proof {
                lemma_take_key_pos(an, i as int);
                assert(an[i as int].0 == k.value);
            }
            match before.get_node_state(k) {
                None => {
                    diff.added.insert(k.value);
                },
                Some(bs) => {
                    let as_ = after.get_node_state(k).unwrap();
                    if !bs.same_as(as_) {
                        diff.modified.insert(k.value);
                    }
                },
            }
            proof {
                assert(diff.added@ =~= Set::new(
                    |x: u128| key_pos(an.take(i + 1), x) >= 0 && key_pos(bn, x) < 0,
                ));
                assert(diff.modified@ =~= Set::new(
                    |x: u128|
                        key_pos(an.take(i + 1), x) >= 0 && key_pos(bn, x) >= 0 && node_get(bn, x) != node_get(an, x),
                ));
            }
            i = i + 1;
        }
        proof {
            assert(an.take(na as int) =~= an);
            assert(diff.added@ =~= node_keys(an).difference(node_keys(bn)));
            assert(diff.modified@ =~= Set::new(
                |k: u128| node_keys(an).contains(k) && node_keys(bn).contains(k) && node_get(bn, k) != node_get(an, k),
            ));
        }
        let nb = node_states_len(&before.node_outputs);
        let mut j: usize = 0;
        while j < nb
            invariant
                bn == before@.nodes,
                an == after@.nodes,
                nb == bn.len(),
                j <= nb,
                diff.global_changes@.len() == 0,
                diff.added@ == node_keys(an).difference(node_keys(bn)),
                diff.modified@ == Set::new(
                    |k: u128| node_keys(an).contains(k) && node_keys(bn).contains(k) && node_get(bn, k) != node_get(an, k),
                ),
                diff.removed@ == Set::new(|k: u128| key_pos(bn.take(j as int), k) >= 0 && key_pos(an, k) < 0),
            decreases nb - j,
        {
            let k = node_states_key_at(&before.node_outputs, j);
            proof {
                lemma_take_key_pos(bn, j as int);
                assert(bn[j as int].0 == k.value);
            }
            if after.get_node_state(k).is_none() {
                diff.removed.insert(k.value);
            }
            proof {
                assert(diff.removed@ =~= Set::new(
                    |x: u128| key_pos(bn.take(j + 1), x) >= 0 && key_pos(an, x) < 0,
                ));
            }
            j = j + 1;
        }
        proof {
            assert(bn.take(nb as int) =~= bn);
            assert(diff.removed@ =~= node_keys(bn).difference(node_keys(an)));
        }
        let ghost bg = before@.globals;
        let ghost ag = after@.globals;
        let ghost keys = text_keys(bg) + text_keys(ag);
        let gb = globals_len(&before.global_state);
        let ga = globals_len(&after.global_state);
        let mut m: usize = 0;
        while m < gb
            invariant
                bg == before@.globals,
                ag == after@.globals,
                keys == text_keys(bg) + text_keys(ag),
                gb == bg.len(),
                ga == ag.len(),
                m <= gb,
                diff.added@ == node_keys(an).difference(node_keys(bn)),
                diff.removed@ == node_keys(bn).difference(node_keys(an)),
                diff.modified@ == Set::new(
                    |k: u128| node_keys(an).contains(k) && node_keys(bn).contains(k) && node_get(bn, k) != node_get(an, k),
                ),
                changes_view(diff.global_changes@) == spec_global_changes(keys.take(m as int), bg, ag),
            decreases gb - m,
        {
            let key = globals_key_at(&before.global_state, m);
            proof {
                assert(keys[m as int] == key@);
                assert(keys.take(m + 1).drop_last() =~= keys.take(m as int));
            }
            push_change(&mut diff.global_changes, key, before, after);
            m = m + 1;
        }
        let mut q: usize = 0;
        while q < ga
            invariant
                bg == before@.globals,
                ag == after@.globals,
                keys == text_keys(bg) + text_keys(ag),
                gb == bg.len(),
                ga == ag.len(),
                q <= ga,
                diff.added@ == node_keys(an).difference(node_keys(bn)),
                diff.removed@ == node_keys(bn).difference(node_keys(an)),
                diff.modified@ == Set::new(
                    |k: u128| node_keys(an).contains(k) && node_keys(bn).contains(k) && node_get(bn, k) != node_get(an, k),
                ),
                changes_view(diff.global_changes@) == spec_global_changes(keys.take(gb + q), bg, ag),
            decreases ga - q,
        {
            let key = globals_key_at(&after.global_state, q);
            proof {
                assert(keys[gb + q] == key@);
                assert(keys.take(gb + q + 1).drop_last() =~= keys.take(gb + q));
            }
            push_change(&mut diff.global_changes, key, before, after);
            q = q + 1;
        }
        proof {
            assert(keys.take(gb + ga) =~= keys);
        }
        diff
    }
}

/// Inserts every value of `src` into `dst`.
fn insert_all(dst: &mut BTreeSet<u128>, src: &BTreeSet<u128>)
    ensures
        final(dst)@ == old(dst)@.union(src@),
{
    let ghost rem = vstd::std_specs::btree::spec_btree_keys_iter(src).remaining().unref();
    let ghost start = dst@;
    for x in it: src.iter()
        invariant
            rem == it.seq().unref(),
            dst@ == start.union(rem.take(it.index()).to_set()),
    {
        let ghost i = it.index();
        dst.insert(*x);
        proof {
            let a = rem.take(i);
            let b = rem.take(i + 1);
            assert(b =~= a.push(*x));
            assert forall|y: u128| b.to_set().contains(y) <==> a.to_set().insert(*x).contains(y) by {
                if b.contains(y) {
                    let k = choose|k: int| 0 <= k < b.len() && b[k] == y;
                    if k < a.len() {
                        assert(a[k] == y);
                    }
                }
                if a.contains(y) {
                    let k = choose|k: int| 0 <= k < a.len() && a[k] == y;
                    assert(b[k] == y);
                }
                if y == *x {
                    assert(b[a.len() as int] == y);
                }
            }
            assert(b.to_set() =~= a.to_set().insert(*x));
        }
    }
    proof {
        assert(rem.take(rem.len() as int) =~= rem);
        assert(rem.to_set() == src@);
        assert(dst@ =~= start.union(src@));
    }
}

/// Appends the change of `key` from `before` to `after`, when its values
/// differ.
fn push_change(v: &mut Vec<GlobalStateChange>, key: &String, before: &ReconstructedState, after: &ReconstructedState)
    ensures
        changes_view(final(v)@) == changes_view(old(v)@) + if text_get(before@.globals, key@) != text_get(
            after@.globals,
            key@,
        ) {
            seq![(key@, text_get(before@.globals, key@), text_get(after@.globals, key@))]
        } else {
            Seq::empty()
        },
{
    let bv = before.get_global(key.as_str());
    let av = after.get_global(key.as_str());
    let same = match (bv, av) {
        (Some(x), Some(y)) => bytes_eq(x, y),
        (None, None) => true,
        _ => false,
    };
    let ghost old_v = v@;
    if !same {
        let change = GlobalStateChange {
            key: key.clone(),
            old_value: match bv {
                Some(x) => Some(copy_bytes(x)),
                None => None,
            },
            new_value: match av {
                Some(y) => Some(copy_bytes(y)),
                None => None,
            },
        };
        v.push(change);
        assert(changes_view(v@) =~= changes_view(old_v).push(
            (key@, text_get(before@.globals, key@), text_get(after@.globals, key@)),
        ));
    } else {
        assert(changes_view(v@) =~= changes_view(old_v) + Seq::empty());
    }
}

impl Default for StateDiff {
    /// No differences.
    fn default() -> (d: Self)
        ensures
            d.added@.len() == 0,
            d.global_changes@.len() == 0,
    {
        StateDiff::new()
    }
}

/// The first position of a key in a prefix is its first position in the
/// whole, when it is found there.
proof fn lemma_take_key_pos(ns: Seq<(u128, NodeStateView)>, i: int)
    requires
        0 <= i < ns.len(),
    ensures
        forall|x: u128| #[trigger] key_pos(ns.take(i + 1), x) >= 0 <==> key_pos(ns.take(i), x) >= 0 || x == ns[i].0,
        forall|x: u128| key_pos(ns.take(i + 1), x) >= 0 ==> #[trigger] key_pos(ns, x) >= 0,
{
    assert(ns.take(i + 1).drop_last() =~= ns.take(i));
    assert forall|x: u128| key_pos(ns.take(i + 1), x) >= 0 implies #[trigger] key_pos(ns, x) >= 0 by {
        lemma_key_pos(ns.take(i + 1), x);
        lemma_key_pos(ns, x);
        let p = key_pos(ns.take(i + 1), x);
        if key_pos(ns, x) < 0 {
            assert(ns[p].0 != x);
            assert(ns.take(i + 1)[p] == ns[p]);
        }
    }
}

} // verus!
