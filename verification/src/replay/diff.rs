//! Comparing two rebuilt states: which nodes were added, removed or changed,
//! and line-by-line differences of outputs.
use vstd::prelude::*;
use std::collections::BTreeSet;
use vstd::std_specs::iter::IteratorSpec;
use vstd::utf8::{decode_utf8, valid_utf8};
use crate::core_types::error::CoreError;
use crate::core_types::id::NodeId;
use crate::core_types::text::{spec_split, split_char, str_eq, strings_view};
use crate::replay::maps::key_pos;
use crate::replay::state::{
    NodeStateView, ReconView, ReconstructedState, StateDiff, bytes_eq, copy_bytes, node_get, node_keys,
    spec_completed,
};

verus! {

/// The text that lossy UTF-8 decoding of `bytes` gives.
pub uninterp spec fn spec_utf8_lossy(bytes: Seq<u8>) -> Seq<char>;

/// The text of `bytes`, each invalid sequence replaced by U+FFFD.
///
/// Calls `String::from_utf8_lossy` and takes the text: valid UTF-8 decodes
/// as it is; the replacement of invalid sequences is named, not stated.
#[verifier::external_body]
fn utf8_lossy(bytes: &[u8]) -> (s: String)
    ensures
        s@ == spec_utf8_lossy(bytes@),
        valid_utf8(bytes@) ==> s@ == decode_utf8(bytes@),
{
    String::from_utf8_lossy(bytes).to_string()
}

/// A line without a carriage return that ended it before its line feed.
pub open spec fn strip_cr(line: Seq<char>) -> Seq<char> {
    if line.len() > 0 && line.last() == '\r' {
        line.drop_last()
    } else {
        line
    }
}

/// The lines of `s` as `str::lines` gives them: split at line feeds, a
/// carriage return before a line feed dropped, and no empty last line after
/// a final line feed.
pub open spec fn spec_lines(s: Seq<char>) -> Seq<Seq<char>> {
    let parts = spec_split(s, '\n');
    let body = parts.drop_last().map_values(|p: Seq<char>| strip_cr(p));
    if parts.last().len() == 0 {
        body
    } else {
        body.push(parts.last())
    }
}

/// The lines of `s`.
fn lines(s: &str) -> (v: Vec<String>)
    ensures
        strings_view(v@) == spec_lines(s@),
{
    let parts = split_char(s, '\n');
    let ghost ps = strings_view(parts@);
    proof {
        crate::core_types::text::lemma_split_nonempty(s@, '\n');
    }
    let n = parts.len();
    let mut v: Vec<String> = Vec::new();
    let mut i: usize = 0;
    while i + 1 < n
        invariant
            ps == strings_view(parts@),
            n == parts@.len(),
            n >= 1,
            i + 1 <= n,
            strings_view(v@) == ps.take(i as int).map_values(|p: Seq<char>| strip_cr(p)),
        decreases n - i,
    {
        let p = parts[i].as_str();
        let len = p.unicode_len();
        let piece = if len > 0 && p.get_char(len - 1) == '\r' {
            p.substring_char(0, len - 1).to_owned()
        } else {
            p.to_owned()
        };
        let ghost before = strings_view(v@);
        v.push(piece);
        proof {
            assert(ps[i as int] == p@);
            assert(strings_view(v@) =~= before.push(strip_cr(ps[i as int])));
            assert(ps.take(i + 1).map_values(|q: Seq<char>| strip_cr(q)) =~= ps.take(i as int).map_values(
                |q: Seq<char>| strip_cr(q),
            ).push(strip_cr(ps[i as int])));
        }
        i = i + 1;
    }
    proof {
        assert(ps.take(i as int) =~= ps.drop_last());
    }
    let last = parts[n - 1].as_str();
    if last.unicode_len() > 0 {
        let ghost before = strings_view(v@);
        v.push(last.to_owned());
        assert(strings_view(v@) =~= before.push(ps.last()));
    }
    v
}

/// A change of one line.
#[derive(Debug, Clone, PartialEq, Eq)]
pub enum LineChange {
    Added(String),
    Removed(String),
    Modified { old: String, new: String },
    Unchanged(String),
}

/// What a line change holds, as plain values.
pub enum LineView {
    Added(Seq<char>),
    Removed(Seq<char>),
    Modified(Seq<char>, Seq<char>),
    Unchanged(Seq<char>),
}

impl View for LineChange {
    type V = LineView;

    open spec fn view(&self) -> LineView {
        match self {
            LineChange::Added(s) => LineView::Added(s@),
            LineChange::Removed(s) => LineView::Removed(s@),
            LineChange::Modified { old, new } => LineView::Modified(old@, new@),
            LineChange::Unchanged(s) => LineView::Unchanged(s@),
        }
    }
}

/// The line at position `i` compared: the same line is unchanged, two
/// different lines are modified, a line only in the old text is removed, one
/// only in the new text is added.
pub open spec fn spec_line_change(o: Seq<Seq<char>>, n: Seq<Seq<char>>, i: int) -> LineView {
    if i < o.len() && i < n.len() {
        if o[i] == n[i] {
            LineView::Unchanged(o[i])
        } else {
            LineView::Modified(o[i], n[i])
        }
    } else if i < o.len() {
        LineView::Removed(o[i])
    } else {
        LineView::Added(n[i])
    }
}

/// The line-by-line difference of two lists of lines.
pub open spec fn spec_line_diff(o: Seq<Seq<char>>, n: Seq<Seq<char>>) -> Seq<LineView> {
    Seq::new(if o.len() >= n.len() { o.len() } else { n.len() }, |i: int| spec_line_change(o, n, i))
}

/// Two byte strings and the difference of their lines.
#[derive(Debug, Clone, PartialEq, Eq)]
pub struct StringDiff {
    pub old: Vec<u8>,
    pub new: Vec<u8>,
    pub line_diff: Vec<LineChange>,
}

/// The kind of change of a node.
#[derive(Debug, Clone, Copy, PartialEq, Eq, Structural)]
pub enum NodeChangeType {
    Added,
    Removed,
    OutputChanged,
    ErrorStatusChanged,
    SideEffectsChanged,
}

/// A change of one node.
#[derive(Debug, Clone, PartialEq, Eq)]
pub struct NodeChange {
    pub node_id: NodeId,
    pub change_type: NodeChangeType,
    pub output_diff: Option<StringDiff>,
}

/// Counts of the differences.
#[derive(Debug, Clone, Copy, PartialEq, Eq, Structural)]
pub struct DiffSummary {
    pub added_count: usize,
    pub removed_count: usize,
    pub modified_count: usize,
    pub state_change_count: usize,
}

/// The outcome of comparing two states.
#[derive(Debug)]
pub struct DiffResult {
    pub equivalent: bool,
    pub diff: StateDiff,
    pub divergence_point: Option<usize>,
}

/// A comparison with counts and one entry per changed node.
#[derive(Debug)]
pub struct DiffReport {
    pub result: DiffResult,
    pub summary: DiffSummary,
    pub node_changes: Vec<NodeChange>,
}

/// The kind of change between two states of one node: output first, then
/// error, then side effects; output when nothing of these differs.
pub open spec fn spec_change_type(b: NodeStateView, a: NodeStateView) -> NodeChangeType {
    if b.output != a.output {
        NodeChangeType::OutputChanged
    } else if b.error != a.error {
        NodeChangeType::ErrorStatusChanged
    } else if b.side_effects != a.side_effects {
        NodeChangeType::SideEffectsChanged
    } else {
        NodeChangeType::OutputChanged
    }
}

/// The bytes of an optional output; none when absent.
pub open spec fn output_bytes(o: Option<Seq<u8>>) -> Seq<u8> {
    match o {
        Some(v) => v,
        None => Seq::empty(),
    }
}

/// Whether `q` lists the values of `s` in ascending order.
pub open spec fn ascending_of(q: Seq<u128>, s: Set<u128>) -> bool {
    &&& q.to_set() == s
    &&& forall|i: int, j: int| 0 <= i < j < q.len() ==> q[i] < q[j]
}

/// The node identifier values of a list of changes.
pub open spec fn change_ids(cs: Seq<NodeChange>) -> Seq<u128> {
    cs.map_values(|c: NodeChange| c.node_id.value)
}

/// Whether some node, known in either state, has different states in the
/// two.
pub open spec fn spec_diverges(a: ReconView, b: ReconView) -> bool {
    exists|k: u128|
        (node_keys(a.nodes).contains(k) || node_keys(b.nodes).contains(k)) && #[trigger] node_get(a.nodes, k)
            != node_get(b.nodes, k)
}

/// Whether two states agree in what matters: the same numbers of nodes and
/// of completed nodes, and each node of the first known in the second with
/// the same completion and the same presence of an error.
pub open spec fn spec_semantically_equal(a: ReconView, b: ReconView) -> bool {
    &&& a.nodes.len() == b.nodes.len()
    &&& spec_completed(a.nodes) == spec_completed(b.nodes)
    &&& forall|i: int|
        0 <= i < a.nodes.len() ==> (#[trigger] node_get(b.nodes, a.nodes[i].0) matches Some(s) && s.completed
            == node_get(a.nodes, a.nodes[i].0)->0.completed && (s.error is Some) == (node_get(
            a.nodes,
            a.nodes[i].0,
        )->0.error is Some))
}

/// Lists the values of `s` in ascending order.
fn ascending(s: &BTreeSet<u128>) -> (v: Vec<u128>)
    ensures
        ascending_of(v@, s@),
        v@.len() == s@.len(),
{
    let ghost rem = vstd::std_specs::btree::spec_btree_keys_iter(s).remaining().unref();
    let mut v: Vec<u128> = Vec::new();
    for x in it: s.iter()
        invariant
            rem == it.seq().unref(),
            v@ == rem.take(it.index()),
    {
        v.push(*x);
        assert(v@ =~= rem.take(it.index() + 1));
    }
    proof {
        assert(rem.take(rem.len() as int) =~= rem);
        assert(v@ == rem);
        let remr = vstd::std_specs::btree::spec_btree_keys_iter(s).remaining();
        assert forall|i: int, j: int| 0 <= i < j < rem.len() implies rem[i] < rem[j] by {
            crate::runtime::order::lemma_increasing_u128(remr, i, j);
        }
    }
    v
}

/// Compares states.
#[derive(Debug, Clone, Copy, PartialEq, Eq)]
pub struct DiffEngine;

impl DiffEngine {
    /// The engine.
    pub fn new() -> (e: Self) {
        DiffEngine
    }

    /// The differences from `before` to `after`; equivalent when there are
    /// none.
    pub fn diff_states(&self, before: &ReconstructedState, after: &ReconstructedState) -> (r: Result<
        DiffResult,
        CoreError,
    >)
        ensures
            r matches Ok(d) && {
                &&& d.diff.added@ == node_keys(after@.nodes).difference(node_keys(before@.nodes))
                &&& d.diff.removed@ == node_keys(before@.nodes).difference(node_keys(after@.nodes))
                &&& d.diff.modified@ == Set::new(
                    |k: u128|
                        node_keys(after@.nodes).contains(k) && node_keys(before@.nodes).contains(k) && node_get(
                            before@.nodes,
                            k,
                        ) != node_get(after@.nodes, k),
                )
                &&& crate::replay::state::changes_view(d.diff.global_changes@)
                    == crate::replay::state::spec_global_changes(
                    crate::replay::state::text_keys(before@.globals) + crate::replay::state::text_keys(after@.globals),
                    before@.globals,
                    after@.globals,
                )
                &&& d.equivalent == !(d.diff.added@.len() > 0 || d.diff.removed@.len() > 0
                    || d.diff.modified@.len() > 0 || d.diff.global_changes@.len() > 0)
                &&& d.divergence_point is None
            },
    {
        let diff = StateDiff::compute(before, after);
        let equivalent = !diff.has_changes();
        Ok(DiffResult { equivalent, diff, divergence_point: None })
    }

    /// The line-by-line difference of two byte strings, each read as UTF-8
    /// text with invalid sequences replaced; valid UTF-8 is read as it is.
    pub fn diff_bytes(old: &[u8], new: &[u8]) -> (d: StringDiff)
        ensures
            d.old@ == old@,
            d.new@ == new@,
            d.line_diff@.map_values(|c: LineChange| c@) == spec_line_diff(
                spec_lines(spec_utf8_lossy(old@)),
                spec_lines(spec_utf8_lossy(new@)),
            ),
            valid_utf8(old@) && valid_utf8(new@) ==> d.line_diff@.map_values(|c: LineChange| c@)
                == spec_line_diff(spec_lines(decode_utf8(old@)), spec_lines(decode_utf8(new@))),
    {
        let old_str = utf8_lossy(old);
        let new_str = utf8_lossy(new);
        let old_lines = lines(old_str.as_str());
        let new_lines = lines(new_str.as_str());
        let ghost ol = strings_view(old_lines@);
        let ghost nl = strings_view(new_lines@);
        let max_len = if old_lines.len() >= new_lines.len() {
            old_lines.len()
        } else {
            new_lines.len()
        };
        let mut line_diff: Vec<LineChange> = Vec::new();
        let mut i: usize = 0;
        while i < max_len
            invariant
                ol == strings_view(old_lines@),
                nl == strings_view(new_lines@),
                max_len == (if ol.len() >= nl.len() { ol.len() } else { nl.len() }),
                i <= max_len,
                line_diff@.map_values(|c: LineChange| c@) == spec_line_diff(ol, nl).take(i as int),
            decreases max_len - i,
        {
            let ghost before = line_diff@.map_values(|c: LineChange| c@);
            let change = if i < old_lines.len() && i < new_lines.len() {
                let o = old_lines[i].clone();
                let n = new_lines[i].clone();
                if str_eq(o.as_str(), n.as_str()) {
                    LineChange::Unchanged(o)
                } else {
                    LineChange::Modified { old: o, new: n }
                }
            } else if i < old_lines.len() {
                LineChange::Removed(old_lines[i].clone())
            } else {
                LineChange::Added(new_lines[i].clone())
            };
            proof {
                assert(change@ == spec_line_change(ol, nl, i as int));
            }
            line_diff.push(change);
            proof {
                assert(line_diff@.map_values(|c: LineChange| c@) =~= before.push(spec_line_change(ol, nl, i as int)));
                assert(spec_line_diff(ol, nl).take(i + 1) =~= spec_line_diff(ol, nl).take(i as int).push(
                    spec_line_change(ol, nl, i as int),
                ));
            }
            i = i + 1;
        }
        proof {
            assert(spec_line_diff(ol, nl).take(max_len as int) =~= spec_line_diff(ol, nl));
        }
        StringDiff { old: copy_bytes(old), new: copy_bytes(new), line_diff }
    }

    /// A report of the differences from `before` to `after`: counts, then
    /// one entry per added node, per removed node and per modified node,
    /// each group in ascending order of identifier; a modified node whose
    /// output changed carries the difference of its outputs.
    pub fn generate_report(&self, before: &ReconstructedState, after: &ReconstructedState) -> (r: Result<
        DiffReport,
        CoreError,
    >)
        ensures
            r matches Ok(rep) && {
                let d = rep.result.diff;
                let na = d.added@.len();
                let nr = d.removed@.len();
                let nm = d.modified@.len();
                let cs = rep.node_changes@;
                &&& d.added@ == node_keys(after@.nodes).difference(node_keys(before@.nodes))
                &&& d.removed@ == node_keys(before@.nodes).difference(node_keys(after@.nodes))
                &&& d.modified@ == Set::new(
                    |k: u128|
                        node_keys(after@.nodes).contains(k) && node_keys(before@.nodes).contains(k) && node_get(
                            before@.nodes,
                            k,
                        ) != node_get(after@.nodes, k),
                )
                &&& rep.result.equivalent == !(na > 0 || nr > 0 || nm > 0 || d.global_changes@.len() > 0)
                &&& rep.summary == (DiffSummary {
                    added_count: na as usize,
                    removed_count: nr as usize,
                    modified_count: nm as usize,
                    state_change_count: d.global_changes@.len() as usize,
                })
                &&& cs.len() == na + nr + nm
                &&& ascending_of(change_ids(cs).subrange(0, na as int), d.added@)
                &&& ascending_of(change_ids(cs).subrange(na as int, (na + nr) as int), d.removed@)
                &&& ascending_of(change_ids(cs).subrange((na + nr) as int, cs.len() as int), d.modified@)
                &&& forall|i: int| 0 <= i < na ==> (#[trigger] cs[i]).change_type == NodeChangeType::Added
                    && cs[i].output_diff is None
                &&& forall|i: int|
                    na <= i < na + nr ==> (#[trigger] cs[i]).change_type == NodeChangeType::Removed
                        && cs[i].output_diff is None
                &&& forall|i: int|
                    na + nr <= i < cs.len() ==> {
                        let b = node_get(before@.nodes, (#[trigger] cs[i]).node_id.value)->0;
                        let a = node_get(after@.nodes, cs[i].node_id.value)->0;
                        &&& cs[i].change_type == spec_change_type(b, a)
                        &&& (b.output != a.output) == (cs[i].output_diff is Some)
                        &&& cs[i].output_diff matches Some(sd) ==> sd.old@ == output_bytes(b.output) && sd.new@
                            == output_bytes(a.output)
                    }
            },
    {
        let result = match self.diff_states(before, after) {
            Ok(r) => r,
            Err(e) => {
                return Err(e);
            },
        };
        let summary = DiffSummary {
            added_count: result.diff.added.len(),
            removed_count: result.diff.removed.len(),
            modified_count: result.diff.modified.len(),
            state_change_count: result.diff.global_changes.len(),
        };
        let added = ascending(&result.diff.added);
        let removed = ascending(&result.diff.removed);
        let modified = ascending(&result.diff.modified);
        let ghost bn = before@.nodes;
        let ghost an = after@.nodes;
        let mut node_changes: Vec<NodeChange> = Vec::new();
        let mut i: usize = 0;
        while i < added.len()
            invariant
                i <= added@.len(),
                node_changes@.len() == i,
                forall|k: int| 0 <= k < i ==> (#[trigger] node_changes@[k]).node_id.value == added@[k]
                    && node_changes@[k].change_type == NodeChangeType::Added && node_changes@[k].output_diff is None,
            decreases added@.len() - i,
        {
            node_changes.push(
                NodeChange { node_id: NodeId { value: added[i] }, change_type: NodeChangeType::Added, output_diff: None },
            );
            i = i + 1;
        }
        let na = added.len();
        let mut j: usize = 0;
        while j < removed.len()
            invariant
                na == added@.len(),
                j <= removed@.len(),
                node_changes@.len() == na + j,
                forall|k: int| 0 <= k < na ==> (#[trigger] node_changes@[k]).node_id.value == added@[k]
                    && node_changes@[k].change_type == NodeChangeType::Added && node_changes@[k].output_diff is None,
                forall|k: int|
                    na <= k < na + j ==> (#[trigger] node_changes@[k]).node_id.value == removed@[k - na]
                        && node_changes@[k].change_type == NodeChangeType::Removed
                        && node_changes@[k].output_diff is None,
            decreases removed@.len() - j,
        {
            node_changes.push(
                NodeChange {
                    node_id: NodeId { value: removed[j] },
                    change_type: NodeChangeType::Removed,
                    output_diff: None,
                },
            );
            j = j + 1;
        }
        let nr = removed.len();
        let mut m: usize = 0;
        while m < modified.len()
            invariant
                na == added@.len(),
                nr == removed@.len(),
                bn == before@.nodes,
                an == after@.nodes,
                ascending_of(modified@, result.diff.modified@),
                result.diff.modified@ == Set::new(
                    |k: u128|
                        node_keys(an).contains(k) && node_keys(bn).contains(k) && node_get(bn, k) != node_get(an, k),
                ),
                m <= modified@.len(),
                node_changes@.len() == na + nr + m,
                forall|k: int| 0 <= k < na ==> (#[trigger] node_changes@[k]).node_id.value == added@[k]
                    && node_changes@[k].change_type == NodeChangeType::Added && node_changes@[k].output_diff is None,
                forall|k: int|
                    na <= k < na + nr ==> (#[trigger] node_changes@[k]).node_id.value == removed@[k - na]
                        && node_changes@[k].change_type == NodeChangeType::Removed
                        && node_changes@[k].output_diff is None,
                forall|k: int|
                    na + nr <= k < na + nr + m ==> {
                        let b = node_get(bn, (#[trigger] node_changes@[k]).node_id.value)->0;
                        let a = node_get(an, node_changes@[k].node_id.value)->0;
                        &&& node_changes@[k].node_id.value == modified@[k - na - nr]
                        &&& node_changes@[k].change_type == spec_change_type(b, a)
                        &&& (b.output != a.output) == (node_changes@[k].output_diff is Some)
                        &&& node_changes@[k].output_diff matches Some(sd) ==> sd.old@ == output_bytes(b.output)
                            && sd.new@ == output_bytes(a.output)
                    },
            decreases modified@.len() - m,
        {
            let id = NodeId { value: modified[m] };
            proof {
                assert(modified@.to_set().contains(modified@[m as int]));
                assert(result.diff.modified@.contains(id.value));
            }
            let bs = before.get_node_state(id).unwrap();
            let as_ = after.get_node_state(id).unwrap();
            let out_same = match (&bs.output, &as_.output) {
                (Some(x), Some(y)) => bytes_eq(x.as_slice(), y.as_slice()),
                (None, None) => true,
                _ => false,
            };
            let err_same = match (&bs.error, &as_.error) {
                (Some(x), Some(y)) => str_eq(x.as_str(), y.as_str()),
                (None, None) => true,
                _ => false,
            };
            let fx_same = strings_same(&bs.side_effects, &as_.side_effects);
            let change_type = if !out_same {
                NodeChangeType::OutputChanged
            } else if !err_same {
                NodeChangeType::ErrorStatusChanged
            } else if !fx_same {
                NodeChangeType::SideEffectsChanged
            } else {
                NodeChangeType::OutputChanged
            };
            let output_diff = if !out_same {
                let empty: Vec<u8> = Vec::new();
                let o: &[u8] = match &bs.output {
                    Some(x) => x.as_slice(),
                    None => empty.as_slice(),
                };
                let n: &[u8] = match &as_.output {
                    Some(y) => y.as_slice(),
                    None => empty.as_slice(),
                };
                proof {
                    assert(empty@ =~= Seq::<u8>::empty());
                }
                Some(DiffEngine::diff_bytes(o, n))
            } else {
                None
            };
            node_changes.push(NodeChange { node_id: id, change_type, output_diff });
            m = m + 1;
        }
        proof {
            let cs = node_changes@;
            assert(change_ids(cs).subrange(0, na as int) =~= added@);
            assert(change_ids(cs).subrange(na as int, na + nr) =~= removed@);
            assert(change_ids(cs).subrange(na + nr, cs.len() as int) =~= modified@);
        }
        Ok(DiffReport { result, summary, node_changes })
    }

    /// Whether the states diverge: `Some(0)` when some node, known in either
    /// state, has different states in the two; `None` otherwise.
    pub fn find_divergence(&self, state1: &ReconstructedState, state2: &ReconstructedState) -> (r: Result<
        Option<usize>,
        CoreError,
    >)
        ensures
            r == Ok::<Option<usize>, CoreError>(
                if spec_diverges(state1@, state2@) {
                    Some(0usize)
                } else {
                    None
                },
            ),
    {
        let ghost a = state1@.nodes;
        let ghost b = state2@.nodes;
        let n1 = state1.total_nodes();
        let mut i: usize = 0;
        while i < n1
            invariant
                a == state1@.nodes,
                b == state2@.nodes,
                n1 == a.len(),
                i <= n1,
                forall|k: int| 0 <= k < i ==> node_get(a, #[trigger] a[k].0) == node_get(b, a[k].0),
            decreases n1 - i,
        {
            let k = crate::replay::maps::node_states_key_at(&state1.node_outputs, i);
            if !same_entry(state1, state2, k) {
                proof {
                    crate::replay::maps::lemma_key_pos(a, k.value);
                    assert(a[i as int].0 == k.value);
                    assert(key_pos(a, k.value) >= 0) by {
                        if key_pos(a, k.value) < 0 {
                            assert(a[i as int].0 != k.value);
                        }
                    }
                    assert(node_get(a, k.value) != node_get(b, k.value));
                }
                return Ok(Some(0));
            }
            i = i + 1;
        }
        let n2 = state2.total_nodes();
        let mut j: usize = 0;
        while j < n2
            invariant
                a == state1@.nodes,
                b == state2@.nodes,
                n2 == b.len(),
                j <= n2,
                forall|k: int| 0 <= k < a.len() ==> node_get(a, #[trigger] a[k].0) == node_get(b, a[k].0),
                forall|k: int| 0 <= k < j ==> node_get(a, #[trigger] b[k].0) == node_get(b, b[k].0),
            decreases n2 - j,
        {
            let k = crate::replay::maps::node_states_key_at(&state2.node_outputs, j);
            if !same_entry(state1, state2, k) {
                proof {
                    crate::replay::maps::lemma_key_pos(b, k.value);
                    assert(b[j as int].0 == k.value);
                    assert(key_pos(b, k.value) >= 0) by {
                        if key_pos(b, k.value) < 0 {
                            assert(b[j as int].0 != k.value);
                        }
                    }
                    assert(node_get(a, k.value) != node_get(b, k.value));
                }
                return Ok(Some(0));
            }
            j = j + 1;
        }
        proof {
            assert forall|k: u128|
                (node_keys(a).contains(k) || node_keys(b).contains(k)) implies #[trigger] node_get(a, k) == node_get(
                b,
                k,
            ) by {
                crate::replay::maps::lemma_key_pos(a, k);
                crate::replay::maps::lemma_key_pos(b, k);
                if node_keys(a).contains(k) {
                    let p = key_pos(a, k);
                    assert(a[p].0 == k);
                } else {
                    let p = key_pos(b, k);
                    assert(b[p].0 == k);
                }
            }
        }
        Ok(None)
    }

    /// Whether two states agree in what matters: node counts, completed
    /// counts, and for each node of the first, its completion and whether it
    /// has an error.
    pub fn is_semantically_equivalent(&self, state1: &ReconstructedState, state2: &ReconstructedState) -> (r:
        Result<bool, CoreError>)
        ensures
            r == Ok::<bool, CoreError>(spec_semantically_equal(state1@, state2@)),
    {
        let ghost a = state1@.nodes;
        let ghost b = state2@.nodes;
        if state1.total_nodes() != state2.total_nodes() {
            return Ok(false);
        }
        if state1.completed_count() != state2.completed_count() {
            return Ok(false);
        }
        let n = state1.total_nodes();
        let mut i: usize = 0;
        while i < n
            invariant
                a == state1@.nodes,
                b == state2@.nodes,
                n == a.len(),
                a.len() == b.len(),
                spec_completed(a) == spec_completed(b),
                i <= n,
                forall|k: int|
                    0 <= k < i ==> (#[trigger] node_get(b, a[k].0) matches Some(s) && s.completed == node_get(
                        a,
                        a[k].0,
                    )->0.completed && (s.error is Some) == (node_get(a, a[k].0)->0.error is Some)),
            decreases n - i,
        {
            let k = crate::replay::maps::node_states_key_at(&state1.node_outputs, i);
            let s1 = state1.get_node_state(k);
            let s2 = state2.get_node_state(k);
            proof {
                crate::replay::maps::lemma_key_pos(a, k.value);
                assert(a[i as int].0 == k.value);
                assert(key_pos(a, k.value) >= 0) by {
                    if key_pos(a, k.value) < 0 {
                        assert(a[i as int].0 != k.value);
                    }
                }
            }
            match (s1, s2) {
                (Some(n1), Some(n2)) => {
                    if n1.completed != n2.completed {
                        return Ok(false);
                    }
                    if n1.error.is_some() != n2.error.is_some() {
                        return Ok(false);
                    }
                },
                _ => {
                    return Ok(false);
                },
            }
            i = i + 1;
        }
        Ok(true)
    }
}

/// Whether the two states of node `k` are the same, or both absent.
fn same_entry(a: &ReconstructedState, b: &ReconstructedState, k: NodeId) -> (r: bool)
    ensures
        r == (node_get(a@.nodes, k.value) == node_get(b@.nodes, k.value)),
{
    match (a.get_node_state(k), b.get_node_state(k)) {
        (Some(x), Some(y)) => x.same_as(y),
        (None, None) => true,
        _ => false,
    }
}

/// Whether two lists of strings hold the same texts.
fn strings_same(a: &Vec<String>, b: &Vec<String>) -> (r: bool)
    ensures
        r == (strings_view(a@) == strings_view(b@)),
{
    if a.len() != b.len() {
        assert(strings_view(a@).len() != strings_view(b@).len());
        return false;
    }
    let mut i: usize = 0;
    while i < a.len()
        invariant
            a@.len() == b@.len(),
            i <= a@.len(),
            forall|k: int| 0 <= k < i ==> a@[k]@ == b@[k]@,
        decreases a@.len() - i,
    {
        if !str_eq(a[i].as_str(), b[i].as_str()) {
            assert(strings_view(a@)[i as int] != strings_view(b@)[i as int]);
            return false;
        }
        i = i + 1;
    }
    assert(strings_view(a@) =~= strings_view(b@));
    true
}

impl Default for DiffEngine {
    fn default() -> (e: Self) {
        DiffEngine
    }
}

/// No global value changes between a list of entries and itself, whatever
/// keys are compared.
proof fn lemma_no_global_changes_with_itself(keys: Seq<Seq<char>>, g: Seq<(Seq<char>, Seq<u8>)>)
    ensures
        crate::replay::state::spec_global_changes(keys, g, g) == Seq::<
            (Seq<char>, Option<Seq<u8>>, Option<Seq<u8>>),
        >::empty(),
    decreases keys.len(),
{
    if keys.len() > 0 {
        lemma_no_global_changes_with_itself(keys.drop_last(), g);
        assert(crate::replay::state::spec_global_changes(keys, g, g) =~= crate::replay::state::spec_global_changes(
            keys.drop_last(),
            g,
            g,
        ));
    }
}

/// A state compared with itself differs nowhere: no node is added, removed
/// or modified and no global value changes, so `diff_states` calls the two
/// equivalent.
pub proof fn lemma_diff_with_itself_is_empty(s: ReconView)
    ensures
        node_keys(s.nodes).difference(node_keys(s.nodes)) == Set::<u128>::empty(),
        Set::new(
            |k: u128|
                node_keys(s.nodes).contains(k) && node_keys(s.nodes).contains(k) && node_get(s.nodes, k) != node_get(
                    s.nodes,
                    k,
                ),
        ) == Set::<u128>::empty(),
        crate::replay::state::spec_global_changes(
            crate::replay::state::text_keys(s.globals) + crate::replay::state::text_keys(s.globals),
            s.globals,
            s.globals,
        ).len() == 0,
{
    assert(node_keys(s.nodes).difference(node_keys(s.nodes)) =~= Set::<u128>::empty());
    assert(Set::new(
        |k: u128|
            node_keys(s.nodes).contains(k) && node_keys(s.nodes).contains(k) && node_get(s.nodes, k) != node_get(
                s.nodes,
                k,
            ),
    ) =~= Set::<u128>::empty());
    lemma_no_global_changes_with_itself(
        crate::replay::state::text_keys(s.globals) + crate::replay::state::text_keys(s.globals),
        s.globals,
    );
}

} // verus!
