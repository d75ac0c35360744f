//! The compiler from workflow ASTs to DAGs.
use vstd::prelude::*;
use crate::core_types::capability::{Capability, CapView};
use crate::core_types::error::{CoreError, cat2};
use crate::core_types::id::NodeId;
use crate::core_types::text::str_eq;
use crate::plan::collections::{node_map_entries, id_set_items, id_set_new, id_set_insert, has_key};
use crate::plan::dag::{Dag, Node, NodeKind, Edge, ResourceRequirements, edge_ends_known};
use crate::plan::dag::{closes_cycle, ids};
use crate::plan::reach::{has_edge, is_walk};

verus! {

/// The result of compiling a workflow.
#[derive(Debug, Clone)]
pub struct CompilerOutput {
    pub dag: Dag,
    pub warnings: Vec<CompilerWarning>,
}

/// A compilation warning.
#[derive(Debug, Clone, PartialEq, Eq)]
pub enum CompilerWarning {
    UnusedVariable { name: String },
    Deprecated { feature: String },
    ResourceLimit { resource: String },
}

/// A statement of a workflow.
#[derive(Debug, PartialEq, Eq)]
pub enum Statement {
    /// Runs a tool.
    ToolCall { name: String, args: Vec<Expr>, output: Option<String> },
    /// Declares an input.
    Input { name: String, schema: String },
    /// Declares an output.
    Output { name: String, value: Expr },
    /// Runs statements one after another.
    Sequence { statements: Vec<Statement> },
    /// Runs statements side by side.
    Parallel { branches: Vec<Statement> },
}

/// An expression.
#[derive(Debug, PartialEq, Eq)]
pub enum Expr {
    String(String),
    Integer(i64),
    Variable(String),
    Call { function: String, args: Vec<Expr> },
}

/// Whether `b` is a copy of `a`: the same variant, the same texts and
/// numbers, and arguments that are copies in turn.
pub open spec fn expr_alike(a: Expr, b: Expr) -> bool
    decreases a,
{
    match a {
        Expr::String(s) => b matches Expr::String(t) && t@ == s@,
        Expr::Integer(n) => b matches Expr::Integer(m) && m == n,
        Expr::Variable(v) => b matches Expr::Variable(w) && w@ == v@,
        Expr::Call { function, args } => b matches Expr::Call { function: f, args: bs } && f@ == function@
            && exprs_alike(args@, bs@),
    }
}

/// Whether `ys` copies `xs`, expression by expression.
pub open spec fn exprs_alike(xs: Seq<Expr>, ys: Seq<Expr>) -> bool
    decreases xs,
{
    if xs.len() == 0 {
        ys.len() == 0
    } else {
        ys.len() == xs.len() && exprs_alike(xs.drop_last(), ys.drop_last()) && expr_alike(xs.last(), ys.last())
    }
}

/// Whether `b` is a copy of `a`, statement by statement.
pub open spec fn stmt_alike(a: Statement, b: Statement) -> bool
    decreases a,
{
    match a {
        Statement::ToolCall { name, args, output } => b matches Statement::ToolCall {
            name: n2,
            args: a2,
            output: o2,
        } && n2@ == name@ && exprs_alike(args@, a2@) && match output {
            Some(o) => o2 matches Some(p) && p@ == o@,
            None => o2 is None,
        },
        Statement::Input { name, schema } => b matches Statement::Input { name: n2, schema: s2 } && n2@ == name@
            && s2@ == schema@,
        Statement::Output { name, value } => b matches Statement::Output { name: n2, value: v2 } && n2@ == name@
            && expr_alike(value, v2),
        Statement::Sequence { statements } => b matches Statement::Sequence { statements: s2 } && stmts_alike(
            statements@,
            s2@,
        ),
        Statement::Parallel { branches } => b matches Statement::Parallel { branches: b2 } && stmts_alike(
            branches@,
            b2@,
        ),
    }
}

/// Whether `ys` copies `xs`, statement by statement.
pub open spec fn stmts_alike(xs: Seq<Statement>, ys: Seq<Statement>) -> bool
    decreases xs,
{
    if xs.len() == 0 {
        ys.len() == 0
    } else {
        ys.len() == xs.len() && stmts_alike(xs.drop_last(), ys.drop_last()) && stmt_alike(xs.last(), ys.last())
    }
}

impl Expr {
    /// A deep copy of this expression.
    pub fn duplicate(&self) -> (e: Expr)
        ensures
            expr_alike(*self, e),
        decreases self,
    {
        match self {
            Expr::String(s) => Expr::String(s.clone()),
            Expr::Integer(n) => Expr::Integer(*n),
            Expr::Variable(v) => Expr::Variable(v.clone()),
            Expr::Call { function, args } => Expr::Call { function: function.clone(), args: duplicate_exprs(args) },
        }
    }
}

/// A deep copy of a list of expressions.
fn duplicate_exprs(args: &Vec<Expr>) -> (v: Vec<Expr>)
    ensures
        exprs_alike(args@, v@),
    decreases args,
{
    let mut v: Vec<Expr> = Vec::new();
    let mut i: usize = 0;
    while i < args.len()
        invariant
            i <= args@.len(),
            exprs_alike(args@.take(i as int), v@),
        decreases args@.len() - i,
    {
        assert(decreases_to!(args => args@[i as int]));
        let ghost before = v@;
        v.push(args[i].duplicate());
        assert(args@.take(i + 1).drop_last() =~= args@.take(i as int));
        assert(v@.drop_last() =~= before);
        i = i + 1;
    }
    assert(args@.take(i as int) =~= args@);
    v
}

impl Clone for Expr {
    fn clone(&self) -> (e: Expr) {
        self.duplicate()
    }
}

impl Statement {
    /// A deep copy of this statement.
    pub fn duplicate(&self) -> (s: Statement)
        ensures
            stmt_alike(*self, s),
        decreases self,
    {
        match self {
            Statement::ToolCall { name, args, output } => Statement::ToolCall {
                name: name.clone(),
                args: duplicate_exprs(args),
                output: match output {
                    Some(o) => Some(o.clone()),
                    None => None,
                },
            },
            Statement::Input { name, schema } => Statement::Input { name: name.clone(), schema: schema.clone() },
            Statement::Output { name, value } => Statement::Output { name: name.clone(), value: value.duplicate() },
            Statement::Sequence { statements } => Statement::Sequence { statements: duplicate_statements(statements) },
            Statement::Parallel { branches } => Statement::Parallel { branches: duplicate_statements(branches) },
        }
    }
}

/// A deep copy of a list of statements.
fn duplicate_statements(stmts: &Vec<Statement>) -> (v: Vec<Statement>)
    ensures
        stmts_alike(stmts@, v@),
    decreases stmts,
{
    let mut v: Vec<Statement> = Vec::new();
    let mut i: usize = 0;
    while i < stmts.len()
        invariant
            i <= stmts@.len(),
            stmts_alike(stmts@.take(i as int), v@),
        decreases stmts@.len() - i,
    {
        assert(decreases_to!(stmts => stmts@[i as int]));
        let ghost before = v@;
        v.push(stmts[i].duplicate());
        assert(stmts@.take(i + 1).drop_last() =~= stmts@.take(i as int));
        assert(v@.drop_last() =~= before);
        i = i + 1;
    }
    assert(stmts@.take(i as int) =~= stmts@);
    v
}

impl Clone for Statement {
    fn clone(&self) -> (s: Statement) {
        self.duplicate()
    }
}

/// A workflow program.
#[derive(Debug, Clone, PartialEq, Eq)]
pub struct Ast {
    pub statements: Vec<Statement>,
}

impl Ast {
    /// An empty program.
    pub fn new() -> (a: Self)
        ensures
            a.statements@.len() == 0,
    {
        Ast { statements: Vec::new() }
    }

    /// Appends a statement.
    pub fn add_statement(&mut self, stmt: Statement)
        ensures
            final(self).statements@ == old(self).statements@.push(stmt),
    {
        self.statements.push(stmt);
    }
}

impl Default for Ast {
    fn default() -> (a: Self)
        ensures
            a.statements@.len() == 0,
    {
        Ast::new()
    }
}

/// What a node kind holds, as plain values.
pub enum KindView {
    Input(Seq<char>),
    Output(Seq<char>),
    Tool(Seq<char>, Seq<char>),
    Transform(Seq<char>),
    Filter(Seq<char>),
    Reduce(Seq<char>, Seq<u8>),
    Parallel(usize),
    Sequence(usize),
    Condition(Seq<char>),
    Loop(Seq<char>, Option<u64>),
}

/// The plain values of a node kind.
pub open spec fn kind_view(k: NodeKind) -> KindView {
    match k {
        NodeKind::Input { schema } => KindView::Input(schema@),
        NodeKind::Output { schema } => KindView::Output(schema@),
        NodeKind::Tool { name, version } => KindView::Tool(name@, version@),
        NodeKind::Transform { function } => KindView::Transform(function@),
        NodeKind::Filter { predicate } => KindView::Filter(predicate@),
        NodeKind::Reduce { function, initial } => KindView::Reduce(function@, initial@),
        NodeKind::Parallel { branches } => KindView::Parallel(branches),
        NodeKind::Sequence { steps } => KindView::Sequence(steps),
        NodeKind::Condition { condition } => KindView::Condition(condition@),
        NodeKind::Loop { condition, max_iterations } => KindView::Loop(condition@, max_iterations),
    }
}

/// A node's kind and capabilities, as plain values.
pub open spec fn node_shape(n: Node) -> (KindView, Seq<CapView>) {
    (kind_view(n.kind), n.capabilities@.map_values(|c: Capability| c@))
}


/// The capabilities a tool is assumed to need, by its name.
pub open spec fn spec_infer_capabilities(name: Seq<char>) -> Seq<CapView> {
    if name == "read_file"@ || name == "read_files"@ {
        seq![CapView::FsRead(seq!["."@])]
    } else if name == "write_file"@ {
        seq![CapView::FsWrite(seq!["./outputs"@])]
    } else if name == "http_get"@ || name == "http_post"@ {
        seq![CapView::NetRead(seq!["*"@])]
    } else if name == "exec"@ {
        seq![CapView::Exec("1000"@, "1GB"@)]
    } else {
        Seq::empty()
    }
}





/// A spec node of a compiled plan: the position of its identifier among the
/// identifiers drawn, its kind and capabilities, and the positions of its
/// dependencies.
pub type PlanNode = (nat, (KindView, Seq<CapView>), Seq<nat>);

/// What compiling adds, with identifiers given by their draw positions: the
/// nodes in the order they are added, the edges (from, to) in the order they
/// are added, the result positions of the statements compiled, and how many
/// identifiers were drawn.
pub struct Plan {
    pub nodes: Seq<PlanNode>,
    pub edges: Seq<(nat, nat)>,
    pub results: Seq<nat>,
    pub used: nat,
}

/// A plan whose draw positions start at `o`.
pub open spec fn shift_plan(p: Plan, o: nat) -> Plan {
    Plan {
        nodes: p.nodes.map_values(|n: PlanNode| ((n.0 + o) as nat, n.1, n.2.map_values(|d: nat| (d + o) as nat))),
        edges: p.edges.map_values(|e: (nat, nat)| ((e.0 + o) as nat, (e.1 + o) as nat)),
        results: p.results.map_values(|r: nat| (r + o) as nat),
        used: p.used,
    }
}

/// The plan of one statement; its one result is the node standing for it.
/// A tool call, input or output draws one identifier and adds one node. A
/// sequence compiles its statements in turn, linking each result to the
/// next, and stands for its last result; an empty one draws an identifier
/// of no node. A parallel block compiles its branches, then draws the merge
/// node, which depends on every branch result and gets an edge from each.
pub open spec fn spec_plan(stmt: Statement) -> Plan
    decreases stmt,
{
    match stmt {
        Statement::ToolCall { name, .. } => Plan {
            nodes: seq![(0nat, (KindView::Tool(name@, "1.0.0"@), spec_infer_capabilities(name@)), Seq::empty())],
            edges: Seq::empty(),
            results: seq![0nat],
            used: 1,
        },
        Statement::Input { name, .. } => Plan {
            nodes: seq![(0nat, (KindView::Input("schema_"@ + name@), Seq::empty()), Seq::empty())],
            edges: Seq::empty(),
            results: seq![0nat],
            used: 1,
        },
        Statement::Output { name, .. } => Plan {
            nodes: seq![(0nat, (KindView::Output("schema_"@ + name@), Seq::empty()), Seq::empty())],
            edges: Seq::empty(),
            results: seq![0nat],
            used: 1,
        },
        Statement::Sequence { statements } => {
            let l = spec_seq_plan(statements@);
            if statements@.len() == 0 {
                Plan { nodes: Seq::empty(), edges: Seq::empty(), results: seq![0nat], used: 1 }
            } else {
                Plan { results: seq![l.results.last()], ..l }
            }
        },
        Statement::Parallel { branches } => {
            let l = spec_par_plan(branches@);
            Plan {
                nodes: l.nodes.push((l.used, (KindView::Reduce("merge"@, Seq::empty()), Seq::empty()), l.results)),
                edges: l.edges + l.results.map_values(|r: nat| (r, l.used)),
                results: seq![l.used],
                used: l.used + 1,
            }
        },
    }
}

/// The plan of statements compiled in turn without links; the results are
/// the statements' results, in order.
pub open spec fn spec_par_plan(stmts: Seq<Statement>) -> Plan
    decreases stmts,
{
    if stmts.len() == 0 {
        Plan { nodes: Seq::empty(), edges: Seq::empty(), results: Seq::empty(), used: 0 }
    } else {
        let p = spec_par_plan(stmts.drop_last());
        let c = shift_plan(spec_plan(stmts.last()), p.used);
        Plan {
            nodes: p.nodes + c.nodes,
            edges: p.edges + c.edges,
            results: p.results.push(c.results[0]),
            used: p.used + c.used,
        }
    }
}

/// The plan of statements compiled in turn, each result linked to the next.
pub open spec fn spec_seq_plan(stmts: Seq<Statement>) -> Plan
    decreases stmts,
{
    if stmts.len() == 0 {
        Plan { nodes: Seq::empty(), edges: Seq::empty(), results: Seq::empty(), used: 0 }
    } else {
        let p = spec_seq_plan(stmts.drop_last());
        let c = shift_plan(spec_plan(stmts.last()), p.used);
        Plan {
            nodes: p.nodes + c.nodes,
            edges: p.edges + c.edges + (if stmts.len() > 1 {
                seq![(p.results.last(), c.results[0])]
            } else {
                Seq::empty()
            }),
            results: p.results.push(c.results[0]),
            used: p.used + c.used,
        }
    }
}

/// The items of an insertion-ordered set after inserting each of `xs` in turn.
pub open spec fn set_insert_all(items: Seq<u128>, xs: Seq<u128>) -> Seq<u128>
    decreases xs.len(),
{
    if xs.len() == 0 {
        items
    } else {
        let s = set_insert_all(items, xs.drop_last());
        if s.contains(xs.last()) {
            s
        } else {
            s.push(xs.last())
        }
    }
}

/// The identifiers at the given draw positions.
pub open spec fn at_positions(ds: Seq<u128>, ps: Seq<nat>) -> Seq<u128> {
    ps.map_values(|q: nat| ds[q as int])
}

/// Whether a node entry of a DAG is the spec node `n`, with identifiers
/// drawn as `ds`: the identifier drawn at its position, its kind and
/// capabilities, its dependencies inserted in order, no resource bounds.
pub open spec fn entry_is(e: (u128, Node), ds: Seq<u128>, n: PlanNode) -> bool {
    &&& e.0 == ds[n.0 as int]
    &&& e.1.id.value == ds[n.0 as int]
    &&& node_shape(e.1) == n.1
    &&& id_set_items(e.1.dependencies) == set_insert_all(Seq::empty(), at_positions(ds, n.2))
    &&& e.1.resources == ResourceRequirements::spec_none()
}

/// The DAG edge for a spec edge, with identifiers drawn as `ds`.
pub open spec fn edge_at(ds: Seq<u128>, e: (nat, nat)) -> Edge {
    Edge { from: NodeId { value: ds[e.0 as int] }, to: NodeId { value: ds[e.1 as int] }, from_port: None, to_port: None }
}

/// The DAG edges for spec edges, with identifiers drawn as `ds`.
pub open spec fn edges_at(ds: Seq<u128>, es: Seq<(nat, nat)>) -> Seq<Edge> {
    es.map_values(|e: (nat, nat)| edge_at(ds, e))
}

/// Whether `after` is `before` with plan `p` added, identifiers drawn as `ds`:
/// the node entries and edges of `before` are kept and the plan's follow in order.
pub open spec fn adds_plan(before: Dag, after: Dag, ds: Seq<u128>, p: Plan) -> bool {
    let b = node_map_entries(before.nodes);
    let a = node_map_entries(after.nodes);
    &&& a.len() == b.len() + p.nodes.len()
    &&& a.take(b.len() as int) == b
    &&& forall|k: int| 0 <= k < p.nodes.len() ==> #[trigger] entry_is(a[b.len() + k], ds, p.nodes[k])
    &&& after.edges@ == before.edges@ + edges_at(ds, p.edges)
}

/// Whether every draw position a plan mentions is below the number it draws.
pub open spec fn plan_bounded(p: Plan) -> bool {
    &&& forall|k: int| 0 <= k < p.nodes.len() ==> #[trigger] p.nodes[k].0 < p.used
    &&& forall|k: int, j: int|
        0 <= k < p.nodes.len() && 0 <= j < p.nodes[k].2.len() ==> #[trigger] p.nodes[k].2[j] < p.used
    &&& forall|k: int| 0 <= k < p.edges.len() ==> #[trigger] p.edges[k].0 < p.used && p.edges[k].1 < p.used
    &&& forall|k: int| 0 <= k < p.results.len() ==> #[trigger] p.results[k] < p.used
}

/// Shifting keeps a plan within its draws, moved by the shift.
proof fn lemma_shift_bounded(p: Plan, o: nat)
    requires
        plan_bounded(p),
    ensures
        forall|k: int| 0 <= k < p.nodes.len() ==> o <= #[trigger] shift_plan(p, o).nodes[k].0 < o + p.used,
        forall|k: int, j: int|
            0 <= k < p.nodes.len() && 0 <= j < p.nodes[k].2.len() ==> o <= #[trigger] shift_plan(p, o).nodes[k].2[j]
                < o + p.used,
        forall|k: int| 0 <= k < p.edges.len() ==> o <= #[trigger] shift_plan(p, o).edges[k].0 < o + p.used
            && o <= shift_plan(p, o).edges[k].1 < o + p.used,
        forall|k: int| 0 <= k < p.results.len() ==> o <= #[trigger] shift_plan(p, o).results[k] < o + p.used,
        shift_plan(p, o).nodes.len() == p.nodes.len(),
        shift_plan(p, o).edges.len() == p.edges.len(),
        shift_plan(p, o).results.len() == p.results.len(),
        forall|k: int| 0 <= k < p.nodes.len() ==> (#[trigger] shift_plan(p, o).nodes[k]).2.len() == p.nodes[k].2.len(),
{
    assert forall|k: int, j: int|
        0 <= k < p.nodes.len() && 0 <= j < p.nodes[k].2.len() implies o <= #[trigger] shift_plan(p, o).nodes[k].2[j]
            < o + p.used by {
        assert(p.nodes[k].2[j] < p.used);
    }
}

/// A statement's plan has one result and stays within its draws.
proof fn lemma_plan_facts(stmt: Statement)
    ensures
        plan_bounded(spec_plan(stmt)),
        spec_plan(stmt).results.len() == 1,
        spec_plan(stmt).used >= 1,
    decreases stmt,
{
    match stmt {
        Statement::Sequence { statements } => {
            lemma_seq_plan_facts(statements@);
        },
        Statement::Parallel { branches } => {
            lemma_par_plan_facts(branches@);
            let l = spec_par_plan(branches@);
            let p = spec_plan(stmt);
            assert forall|k: int, j: int|
                0 <= k < p.nodes.len() && 0 <= j < p.nodes[k].2.len() implies #[trigger] p.nodes[k].2[j] < p.used by {
                if k < l.nodes.len() {
                    assert(p.nodes[k] == l.nodes[k]);
                    assert(l.nodes[k].2[j] < l.used);
                } else {
                    assert(p.nodes[k].2 == l.results);
                    assert(l.results[j] < l.used);
                }
            }
            assert forall|k: int| 0 <= k < p.edges.len() implies #[trigger] p.edges[k].0 < p.used && p.edges[k].1
                < p.used by {
                if k < l.edges.len() {
                    assert(p.edges[k] == l.edges[k]);
                } else {
                    assert(p.edges[k] == (l.results[k - l.edges.len()], l.used));
                }
            }
        },
        _ => {},
    }
}

/// Statements compiled in turn without links: one result each, within the draws.
proof fn lemma_par_plan_facts(stmts: Seq<Statement>)
    ensures
        plan_bounded(spec_par_plan(stmts)),
        spec_par_plan(stmts).results.len() == stmts.len(),
    decreases stmts,
{
    if stmts.len() > 0 {
        lemma_par_plan_facts(stmts.drop_last());
        lemma_plan_facts(stmts.last());
        let p = spec_par_plan(stmts.drop_last());
        let c0 = spec_plan(stmts.last());
        lemma_shift_bounded(c0, p.used);
        let c = shift_plan(c0, p.used);
        let q = spec_par_plan(stmts);
        assert(q.edges.take((p.edges.len() + c.edges.len()) as int) =~= p.edges + c.edges);
        lemma_combine_bounded(p, c, c0.used, q);
    }
}

/// Statements compiled in turn with links: one result each, within the draws.
proof fn lemma_seq_plan_facts(stmts: Seq<Statement>)
    ensures
        plan_bounded(spec_seq_plan(stmts)),
        spec_seq_plan(stmts).results.len() == stmts.len(),
        stmts.len() > 0 ==> spec_seq_plan(stmts).used >= 1,
    decreases stmts,
{
    if stmts.len() > 0 {
        lemma_seq_plan_facts(stmts.drop_last());
        lemma_plan_facts(stmts.last());
        let p = spec_seq_plan(stmts.drop_last());
        let c0 = spec_plan(stmts.last());
        let c = shift_plan(c0, p.used);
        lemma_shift_bounded(c0, p.used);
        let q = spec_seq_plan(stmts);
        let base = Plan { nodes: p.nodes + c.nodes, edges: p.edges + c.edges, results: p.results.push(c.results[0]), used: p.used + c.used };
        assert(base.edges.take((p.edges.len() + c.edges.len()) as int) =~= p.edges + c.edges);
        lemma_combine_bounded(p, c, c0.used, base);
        assert forall|k: int| 0 <= k < q.edges.len() implies #[trigger] q.edges[k].0 < q.used && q.edges[k].1
            < q.used by {
            if k < base.edges.len() {
                assert(q.edges[k] == base.edges[k]);
            } else {
                assert(q.edges[k] == (p.results.last(), c.results[0]));
                assert(p.results[p.results.len() - 1] < p.used);
            }
        }
    }
}

/// Joining a plan with one drawn after it stays within the joint draws.
proof fn lemma_combine_bounded(p: Plan, c: Plan, cu: nat, q: Plan)
    requires
        plan_bounded(p),
        c.results.len() >= 1,
        forall|k: int| 0 <= k < c.nodes.len() ==> #[trigger] c.nodes[k].0 < p.used + cu,
        forall|k: int, j: int|
            0 <= k < c.nodes.len() && 0 <= j < c.nodes[k].2.len() ==> #[trigger] c.nodes[k].2[j] < p.used + cu,
        forall|k: int| 0 <= k < c.edges.len() ==> #[trigger] c.edges[k].0 < p.used + cu && c.edges[k].1 < p.used + cu,
        forall|k: int| 0 <= k < c.results.len() ==> #[trigger] c.results[k] < p.used + cu,
        q.nodes == p.nodes + c.nodes,
        q.edges.take((p.edges.len() + c.edges.len()) as int) == p.edges + c.edges,
        q.edges.len() >= p.edges.len() + c.edges.len(),
        q.results == p.results.push(c.results[0]),
        q.used == p.used + cu,
    ensures
        forall|k: int| 0 <= k < q.nodes.len() ==> #[trigger] q.nodes[k].0 < q.used,
        forall|k: int, j: int|
            0 <= k < q.nodes.len() && 0 <= j < q.nodes[k].2.len() ==> #[trigger] q.nodes[k].2[j] < q.used,
        forall|k: int| 0 <= k < p.edges.len() + c.edges.len() ==> #[trigger] q.edges[k].0 < q.used && q.edges[k].1
            < q.used,
        forall|k: int| 0 <= k < q.results.len() ==> #[trigger] q.results[k] < q.used,
        q.edges.len() == p.edges.len() + c.edges.len() ==> plan_bounded(q),
{
    assert forall|k: int| 0 <= k < q.nodes.len() implies #[trigger] q.nodes[k].0 < q.used by {
        if k < p.nodes.len() {
            assert(q.nodes[k] == p.nodes[k]);
        } else {
            assert(q.nodes[k] == c.nodes[k - p.nodes.len()]);
        }
    }
    assert forall|k: int, j: int|
        0 <= k < q.nodes.len() && 0 <= j < q.nodes[k].2.len() implies #[trigger] q.nodes[k].2[j] < q.used by {
        if k < p.nodes.len() {
            assert(q.nodes[k] == p.nodes[k]);
        } else {
            assert(q.nodes[k] == c.nodes[k - p.nodes.len()]);
        }
    }
    assert forall|k: int| 0 <= k < p.edges.len() + c.edges.len() implies #[trigger] q.edges[k].0 < q.used
        && q.edges[k].1 < q.used by {
        assert(q.edges[k] == q.edges.take((p.edges.len() + c.edges.len()) as int)[k]);
        if k < p.edges.len() {
            assert((p.edges + c.edges)[k] == p.edges[k]);
        } else {
            assert((p.edges + c.edges)[k] == c.edges[k - p.edges.len()]);
        }
    }
    assert forall|k: int| 0 <= k < q.results.len() implies #[trigger] q.results[k] < q.used by {
        if k < p.results.len() {
            assert(q.results[k] == p.results[k]);
        }
    }
}

/// Adding a plan and then one drawn after it adds their join.
proof fn lemma_adds_compose(d0: Dag, d1: Dag, d2: Dag, ds1: Seq<u128>, ds2: Seq<u128>, p: Plan, c: Plan)
    requires
        adds_plan(d0, d1, ds1, p),
        adds_plan(d1, d2, ds2, c),
        plan_bounded(p),
        p.used <= ds1.len(),
        plan_bounded(c),
        c.used <= ds2.len(),
    ensures
        adds_plan(
            d0,
            d2,
            ds1 + ds2,
            Plan {
                nodes: p.nodes + shift_plan(c, ds1.len()).nodes,
                edges: p.edges + shift_plan(c, ds1.len()).edges,
                results: p.results,
                used: p.used,
            },
        ),
{
    let o = ds1.len();
    let ds = ds1 + ds2;
    let sc = shift_plan(c, o);
    let q = Plan { nodes: p.nodes + sc.nodes, edges: p.edges + sc.edges, results: p.results, used: p.used };
    let a0 = node_map_entries(d0.nodes);
    let a1 = node_map_entries(d1.nodes);
    let a2 = node_map_entries(d2.nodes);
    lemma_shift_bounded(c, o);
    assert(a2.take(a0.len() as int) =~= a0) by {
        assert forall|k: int| 0 <= k < a0.len() implies a2[k] == a0[k] by {
            assert(a2.take(a1.len() as int)[k] == a2[k]);
            assert(a1.take(a0.len() as int)[k] == a1[k]);
        }
    }
    assert forall|k: int| 0 <= k < q.nodes.len() implies #[trigger] entry_is(a2[a0.len() + k], ds, q.nodes[k]) by {
        if k < p.nodes.len() {
            let n = p.nodes[k];
            assert(q.nodes[k] == n);
            assert(entry_is(a1[a0.len() + k], ds1, n));
            assert(a2.take(a1.len() as int)[a0.len() + k] == a2[a0.len() + k]);
            assert(n.0 < p.used);
            assert(ds[n.0 as int] == ds1[n.0 as int]);
            assert(at_positions(ds, n.2) =~= at_positions(ds1, n.2)) by {
                assert forall|j: int| 0 <= j < n.2.len() implies at_positions(ds, n.2)[j] == at_positions(ds1, n.2)[j] by {
                    assert(p.nodes[k].2[j] < p.used);
                }
            }
        } else {
            let m = k - p.nodes.len();
            let n = c.nodes[m];
            assert(q.nodes[k] == sc.nodes[m]);
            assert(entry_is(a2[a1.len() + m], ds2, n));
            assert(sc.nodes[m].0 == n.0 + o);
            assert(n.0 < c.used);
            assert(ds[(n.0 + o) as int] == ds2[n.0 as int]);
            assert(at_positions(ds, sc.nodes[m].2) =~= at_positions(ds2, n.2)) by {
                assert forall|j: int| 0 <= j < n.2.len() implies at_positions(ds, sc.nodes[m].2)[j] == at_positions(ds2, n.2)[j] by {
                    assert(c.nodes[m].2[j] < c.used);
                    assert(sc.nodes[m].2[j] == n.2[j] + o);
                }
            }
        }
    }
    assert(edges_at(ds, q.edges) =~= edges_at(ds1, p.edges) + edges_at(ds2, c.edges)) by {
        assert forall|k: int| 0 <= k < q.edges.len() implies #[trigger] edges_at(ds, q.edges)[k]
            == (edges_at(ds1, p.edges) + edges_at(ds2, c.edges))[k] by {
            if k < p.edges.len() {
                assert(p.edges[k].0 < p.used && p.edges[k].1 < p.used);
                assert(q.edges[k] == p.edges[k]);
            } else {
                let m = k - p.edges.len();
                assert(c.edges[m].0 < c.used && c.edges[m].1 < c.used);
                assert(q.edges[k] == sc.edges[m]);
                assert(sc.edges[m] == ((c.edges[m].0 + o) as nat, (c.edges[m].1 + o) as nat));
            }
        }
    }
    assert(d2.edges@ =~= d0.edges@ + edges_at(ds, q.edges));
    assert(a2.len() == a0.len() + q.nodes.len());
}

/// A node entry of a plan stays the same entry when more identifiers are
/// drawn after the plan's.
proof fn lemma_entry_extend(e: (u128, Node), ds: Seq<u128>, ext: Seq<u128>, p: Plan, k: int)
    requires
        plan_bounded(p),
        p.used <= ds.len(),
        0 <= k < p.nodes.len(),
        entry_is(e, ds, p.nodes[k]),
    ensures
        entry_is(e, ds + ext, p.nodes[k]),
{
    let n = p.nodes[k];
    assert(n.0 < p.used);
    assert(at_positions(ds + ext, n.2) =~= at_positions(ds, n.2)) by {
        assert forall|j: int| 0 <= j < n.2.len() implies at_positions(ds + ext, n.2)[j] == at_positions(ds, n.2)[j] by {
            assert(p.nodes[k].2[j] < p.used);
        }
    }
}

/// Whether a DAG holds exactly plan `p`, with identifiers drawn as `ds`.
pub open spec fn dag_is_plan(d: Dag, ds: Seq<u128>, p: Plan) -> bool {
    let a = node_map_entries(d.nodes);
    &&& a.len() == p.nodes.len()
    &&& forall|k: int| 0 <= k < p.nodes.len() ==> #[trigger] entry_is(a[k], ds, p.nodes[k])
    &&& d.edges@ == edges_at(ds, p.edges)
}

/// Whether identifiers drawn as `ds` are fresh for `d`: all different, and
/// none a node of `d` or an end of one of its edges.
pub open spec fn fresh_draws(d: Dag, ds: Seq<u128>) -> bool {
    &&& ds.no_duplicates()
    &&& forall|k: int| 0 <= k < ds.len() ==> !has_key(node_map_entries(d.nodes), #[trigger] ds[k])
    &&& forall|i: int, k: int|
        0 <= i < d.edges@.len() && 0 <= k < ds.len() ==> #[trigger] d.edges@[i].from.value != #[trigger] ds[k]
            && d.edges@[i].to.value != ds[k]
}

/// Whether every edge of a plan leads from an earlier draw to a later one.
pub open spec fn plan_forward(p: Plan) -> bool {
    forall|k: int| 0 <= k < p.edges.len() ==> #[trigger] p.edges[k].0 < p.edges[k].1
}

/// Whether the plan has a node at draw position `q`.
pub open spec fn plan_has_node(p: Plan, q: nat) -> bool {
    exists|k: int| 0 <= k < p.nodes.len() && #[trigger] p.nodes[k].0 == q
}

/// Whether both ends of every edge of a plan are nodes of the plan: false
/// only where an empty sequence is linked or merged, whose identifier is
/// of no node.
pub open spec fn plan_edges_known(p: Plan) -> bool {
    forall|k: int| 0 <= k < p.edges.len() ==> plan_has_node(p, #[trigger] p.edges[k].0) && plan_has_node(p, p.edges[k].1)
}

/// A statement's plan leads its edges forward.
proof fn lemma_plan_forward(stmt: Statement)
    ensures
        plan_forward(spec_plan(stmt)),
    decreases stmt,
{
    match stmt {
        Statement::Sequence { statements } => {
            lemma_seq_forward(statements@);
        },
        Statement::Parallel { branches } => {
            lemma_par_forward(branches@);
            lemma_par_plan_facts(branches@);
            let l = spec_par_plan(branches@);
            let p = spec_plan(stmt);
            assert forall|k: int| 0 <= k < p.edges.len() implies #[trigger] p.edges[k].0 < p.edges[k].1 by {
                if k < l.edges.len() {
                    assert(p.edges[k] == l.edges[k]);
                } else {
                    assert(p.edges[k] == (l.results[k - l.edges.len()], l.used));
                }
            }
        },
        _ => {},
    }
}

/// Shifting a plan keeps its edges forward.
proof fn lemma_shift_forward(p: Plan, o: nat)
    requires
        plan_forward(p),
    ensures
        plan_forward(shift_plan(p, o)),
{
    let q = shift_plan(p, o);
    assert forall|k: int| 0 <= k < q.edges.len() implies #[trigger] q.edges[k].0 < q.edges[k].1 by {
        assert(p.edges[k].0 < p.edges[k].1);
    }
}

/// Statements compiled in turn without links lead their edges forward.
proof fn lemma_par_forward(stmts: Seq<Statement>)
    ensures
        plan_forward(spec_par_plan(stmts)),
    decreases stmts,
{
    if stmts.len() > 0 {
        lemma_par_forward(stmts.drop_last());
        lemma_plan_forward(stmts.last());
        let p = spec_par_plan(stmts.drop_last());
        let c = shift_plan(spec_plan(stmts.last()), p.used);
        lemma_shift_forward(spec_plan(stmts.last()), p.used);
        let q = spec_par_plan(stmts);
        assert forall|k: int| 0 <= k < q.edges.len() implies #[trigger] q.edges[k].0 < q.edges[k].1 by {
            if k < p.edges.len() {
                assert(q.edges[k] == p.edges[k]);
            } else {
                assert(q.edges[k] == c.edges[k - p.edges.len()]);
            }
        }
    }
}

/// Statements compiled in turn with links lead their edges forward.
proof fn lemma_seq_forward(stmts: Seq<Statement>)
    ensures
        plan_forward(spec_seq_plan(stmts)),
    decreases stmts,
{
    if stmts.len() > 0 {
        lemma_seq_forward(stmts.drop_last());
        lemma_plan_forward(stmts.last());
        lemma_seq_plan_facts(stmts.drop_last());
        lemma_plan_facts(stmts.last());
        let p = spec_seq_plan(stmts.drop_last());
        let c0 = spec_plan(stmts.last());
        let c = shift_plan(c0, p.used);
        lemma_shift_forward(c0, p.used);
        lemma_shift_bounded(c0, p.used);
        let q = spec_seq_plan(stmts);
        assert forall|k: int| 0 <= k < q.edges.len() implies #[trigger] q.edges[k].0 < q.edges[k].1 by {
            if k < p.edges.len() {
                assert(q.edges[k] == p.edges[k]);
            } else if k < p.edges.len() + c.edges.len() {
                assert(q.edges[k] == c.edges[k - p.edges.len()]);
            } else {
                assert(q.edges[k] == (p.results.last(), c.results[0]));
                assert(p.results[p.results.len() - 1] < p.used);
            }
        }
    }
}

/// A walk that starts at a drawn identifier, along edges that leave drawn
/// identifiers only forward, ends at a drawn identifier no earlier, and
/// later when it takes a step.
#[verifier::spinoff_prover]
proof fn lemma_walk_rises(old_edges: Seq<Edge>, ds: Seq<u128>, es: Seq<(nat, nat)>, p: Seq<u128>, q0: int)
    requires
        ds.no_duplicates(),
        forall|i: int, k: int|
            0 <= i < old_edges.len() && 0 <= k < ds.len() ==> #[trigger] old_edges[i].from.value != #[trigger] ds[k],
        forall|k: int| 0 <= k < es.len() ==> #[trigger] es[k].0 < es[k].1 && es[k].1 < ds.len(),
        is_walk(old_edges + edges_at(ds, es), p),
        0 <= q0 < ds.len(),
        p[0] == ds[q0],
    ensures
        exists|q: int| q0 <= q < ds.len() && p.last() == #[trigger] ds[q] && (p.len() > 1 ==> q0 < q),
    decreases p.len(),
{
    let e = old_edges + edges_at(ds, es);
    if p.len() == 1 {
        assert(p.last() == ds[q0]);
    } else {
        let pp = p.drop_last();
        assert forall|i: int| 0 <= i < pp.len() - 1 implies #[trigger] has_edge(e, pp[i], pp[i + 1]) by {
            assert(has_edge(e, p[i], p[i + 1]));
        }
        lemma_walk_rises(old_edges, ds, es, pp, q0);
        let q = choose|q: int| q0 <= q < ds.len() && pp.last() == #[trigger] ds[q] && (pp.len() > 1 ==> q0 < q);
        let n = p.len() - 2;
        assert(has_edge(e, p[n], p[n + 1]));
        let i = choose|i: int| 0 <= i < e.len() && #[trigger] e[i].from.value == p[n] && e[i].to.value == p[n + 1];
        assert(p[n] == ds[q]);
        if i < old_edges.len() {
            assert(e[i] == old_edges[i]);
            assert(old_edges[i].from.value != ds[q]);
        } else {
            let m = i - old_edges.len();
            assert(e[i] == edge_at(ds, es[m]));
            assert(es[m].0 < es[m].1 && es[m].1 < ds.len());
            assert(ds[es[m].0 as int] == ds[q]);
            assert(es[m].0 == q);
            assert(p.last() == ds[es[m].1 as int]);
        }
    }
}

/// The edges of a plan and of one drawn after it lead forward, within the
/// joint draws.
#[verifier::spinoff_prover]
proof fn lemma_joined_forward(pl: Plan, c0: Plan, o: nat, n: nat, es: Seq<(nat, nat)>)
    requires
        plan_bounded(pl),
        plan_forward(pl),
        plan_bounded(c0),
        plan_forward(c0),
        pl.used <= o,
        o + c0.used <= n,
        es == pl.edges + shift_plan(c0, o).edges,
    ensures
        forall|k: int| 0 <= k < es.len() ==> #[trigger] es[k].0 < es[k].1 && es[k].1 < n,
{
    lemma_shift_bounded(c0, o);
    lemma_shift_forward(c0, o);
    assert forall|k: int| 0 <= k < es.len() implies #[trigger] es[k].0 < es[k].1 && es[k].1 < n by {
        if k < pl.edges.len() {
            assert(es[k] == pl.edges[k]);
            assert(pl.edges[k].0 < pl.used);
        } else {
            assert(es[k] == shift_plan(c0, o).edges[k - pl.edges.len()]);
        }
    }
}

/// The edges of a plan followed by the first `j` merge edges lead forward,
/// within `n` draws.
#[verifier::spinoff_prover]
proof fn lemma_merge_forward(l: Plan, m: Seq<(nat, nat)>, j: int, n: nat, es: Seq<(nat, nat)>)
    requires
        plan_bounded(l),
        plan_forward(l),
        m == l.results.map_values(|r: nat| (r, l.used)),
        0 <= j <= l.results.len(),
        l.used < n,
        es == l.edges + m.take(j),
    ensures
        forall|k: int| 0 <= k < es.len() ==> #[trigger] es[k].0 < es[k].1 && es[k].1 < n,
{
    assert forall|k: int| 0 <= k < es.len() implies #[trigger] es[k].0 < es[k].1 && es[k].1 < n by {
        if k < l.edges.len() {
            assert(es[k] == l.edges[k]);
            assert(l.edges[k].0 < l.used);
        } else {
            assert(es[k] == m[k - l.edges.len()]);
            assert(l.results[k - l.edges.len()] < l.used);
        }
    }
}

/// An edge leading forward between drawn identifiers closes no cycle among
/// edges that leave drawn identifiers only forward.
#[verifier::spinoff_prover]
proof fn lemma_forward_acyclic(old_edges: Seq<Edge>, ds: Seq<u128>, es: Seq<(nat, nat)>, link: (nat, nat))
    requires
        ds.no_duplicates(),
        forall|i: int, k: int|
            0 <= i < old_edges.len() && 0 <= k < ds.len() ==> #[trigger] old_edges[i].from.value != #[trigger] ds[k],
        forall|k: int| 0 <= k < es.len() ==> #[trigger] es[k].0 < es[k].1 && es[k].1 < ds.len(),
        link.0 < link.1 < ds.len(),
    ensures
        !closes_cycle(old_edges + edges_at(ds, es), edge_at(ds, link)),
{
    let e = old_edges + edges_at(ds, es);
    if closes_cycle(e, edge_at(ds, link)) {
        let p = choose|p: Seq<u128>| #[trigger] is_walk(e, p) && p[0] == ds[link.1 as int] && p.last() == ds[link.0 as int];
        lemma_walk_rises(old_edges, ds, es, p, link.1 as int);
        let q = choose|q: int| link.1 <= q < ds.len() && p.last() == #[trigger] ds[q] && (p.len() > 1 ==> link.1 < q);
        assert(ds[q] == ds[link.0 as int]);
    }
}

/// Identifiers drawn after a plan's are still fresh once the plan is added,
/// when all the draws were fresh before.
#[verifier::spinoff_prover]
#[verifier::rlimit(40)]
proof fn lemma_fresh_after(g0: Dag, d: Dag, ds: Seq<u128>, p: Plan, dc: Seq<u128>)
    requires
        adds_plan(g0, d, ds, p),
        plan_bounded(p),
        p.used <= ds.len(),
        fresh_draws(g0, ds + dc),
    ensures
        fresh_draws(d, dc),
{
    let all = ds + dc;
    let o = ds.len() as int;
    let b = node_map_entries(g0.nodes);
    let a = node_map_entries(d.nodes);
    assert forall|x: int, y: int| 0 <= x < dc.len() && 0 <= y < dc.len() && x != y implies dc[x] != dc[y] by {
        assert(all[o + x] == dc[x] && all[o + y] == dc[y]);
    }
    assert forall|m: int| 0 <= m < dc.len() implies !has_key(a, #[trigger] dc[m]) by {
        assert(all[o + m] == dc[m]);
        assert(!has_key(b, all[o + m]));
        if has_key(a, dc[m]) {
            let i = choose|i: int| 0 <= i < a.len() && #[trigger] a[i].0 == dc[m];
            if i < b.len() {
                assert(a.take(b.len() as int)[i] == a[i]);
                assert(b[i].0 == dc[m]);
            } else {
                let k = i - b.len();
                assert(entry_is(a[b.len() + k], ds, p.nodes[k]));
                assert(p.nodes[k].0 < p.used);
                assert(all[p.nodes[k].0 as int] == ds[p.nodes[k].0 as int]);
            }
        }
    }
    assert forall|i: int, m: int| 0 <= i < d.edges@.len() && 0 <= m < dc.len() implies #[trigger] d.edges@[i].from.value
        != #[trigger] dc[m] && d.edges@[i].to.value != dc[m] by {
        assert(all[o + m] == dc[m]);
        if i < g0.edges@.len() {
            assert(d.edges@[i] == g0.edges@[i]);
            assert(g0.edges@[i].from.value != all[o + m]);
        } else {
            let k = i - g0.edges@.len();
            assert(d.edges@[i] == edge_at(ds, p.edges[k]));
            assert(p.edges[k].0 < p.used && p.edges[k].1 < p.used);
            assert(all[p.edges[k].0 as int] == ds[p.edges[k].0 as int]);
            assert(all[p.edges[k].1 as int] == ds[p.edges[k].1 as int]);
        }
    }
    assert(dc.no_duplicates());
    assert(forall|k: int| 0 <= k < dc.len() ==> !has_key(node_map_entries(d.nodes), #[trigger] dc[k]));
    assert(forall|i: int, k: int|
        0 <= i < d.edges@.len() && 0 <= k < dc.len() ==> #[trigger] d.edges@[i].from.value != #[trigger] dc[k]
            && d.edges@[i].to.value != dc[k]);
}

/// A list holding one string.
fn one_string(s: &str) -> (v: Vec<String>)
    ensures
        v.deep_view() == seq![s@],
{
    let mut v: Vec<String> = Vec::new();
    v.push(s.to_owned());
    assert(v.deep_view() =~= seq![s@]);
    v
}

/// Compiles workflow ASTs into DAGs.
pub struct Compiler {
    /// The number of node identifiers drawn so far.
    pub next_id: u64,
    /// The identifiers drawn so far, in order.
    pub drawn: Ghost<Seq<u128>>,
}

impl Compiler {
    /// The identifiers drawn so far, in order.
    pub open spec fn drawn(&self) -> Seq<u128> {
        self.drawn@
    }

    /// A compiler that has drawn no identifiers.
    pub fn new() -> (c: Self)
        ensures
            c.next_id == 0,
            c.drawn() == Seq::<u128>::empty(),
    {
        Compiler { next_id: 0, drawn: Ghost(Seq::empty()) }
    }

    /// A fresh random node identifier; counts and records the draw.
    fn next_node_id(&mut self) -> (id: NodeId)
        ensures
            final(self).next_id == old(self).next_id.wrapping_add(1),
            final(self).drawn() == old(self).drawn().push(id.value),
    {
        let id = NodeId::new();
        self.next_id = self.next_id.wrapping_add(1);
        self.drawn = Ghost(self.drawn@.push(id.value));
        id
    }

    /// The capabilities a tool is assumed to need, by its name.
    pub fn infer_capabilities(&self, name: &str, args: &[Expr]) -> (caps: Vec<Capability>)
        ensures
            caps@.map_values(|c: Capability| c@) == spec_infer_capabilities(name@),
    {
        proof {
            reveal_strlit(".");
            reveal_strlit("./outputs");
            reveal_strlit("*");
            reveal_strlit("1000");
            reveal_strlit("1GB");
        }
        let mut caps: Vec<Capability> = Vec::new();
        if str_eq(name, "read_file") || str_eq(name, "read_files") {
            caps.push(Capability::FsRead { prefixes: one_string(".") });
            assert(caps@.map_values(|c: Capability| c@) =~= seq![CapView::FsRead(seq!["."@])]);
        } else if str_eq(name, "write_file") {
            caps.push(Capability::FsWrite { prefixes: one_string("./outputs") });
            assert(caps@.map_values(|c: Capability| c@) =~= seq![CapView::FsWrite(seq!["./outputs"@])]);
        } else if str_eq(name, "http_get") || str_eq(name, "http_post") {
            caps.push(Capability::NetRead { allowlist: one_string("*") });
            assert(caps@.map_values(|c: Capability| c@) =~= seq![CapView::NetRead(seq!["*"@])]);
        } else if str_eq(name, "exec") {
            caps.push(Capability::Exec { cpu_limit: "1000".to_owned(), mem_limit: "1GB".to_owned() });
            assert(caps@.map_values(|c: Capability| c@) =~= seq![CapView::Exec("1000"@, "1GB"@)]);
        } else {
            assert(caps@.map_values(|c: Capability| c@) =~= Seq::<CapView>::empty());
        }
        caps
    }

    /// Adds a node with a fresh identifier, the given kind and capabilities,
    /// no dependencies and no resource requirements; refused when a node
    /// with the drawn identifier exists.
    fn add_simple_node(&mut self, dag: &mut Dag, kind: NodeKind, capabilities: Vec<Capability>) -> (r: Result<
        NodeId,
        CoreError,
    >)
        ensures
            final(self).drawn().len() == old(self).drawn().len() + 1,
            final(self).drawn().drop_last() == old(self).drawn(),
            r matches Ok(id) ==> id.value == final(self).drawn().last() && adds_plan(
                *old(dag),
                *final(dag),
                seq![id.value],
                Plan {
                    nodes: seq![(0nat, (kind_view(kind), capabilities@.map_values(|c: Capability| c@)), Seq::empty())],
                    edges: Seq::empty(),
                    results: seq![0nat],
                    used: 1,
                },
            ),
            r matches Err(e) ==> e is AlreadyExists && has_key(
                node_map_entries(old(dag).nodes),
                final(self).drawn().last(),
            ),
    {
        let id = self.next_node_id();
        let ghost kv = kind_view(kind);
        let ghost cv = capabilities@.map_values(|c: Capability| c@);
        let node = Node { id, kind, dependencies: id_set_new(), capabilities, resources: ResourceRequirements::new() };
        let ghost nd = node;
        match dag.add_node(node) {
            Ok(()) => {
                proof {
                    let ds = seq![id.value];
                    let a = node_map_entries(dag.nodes);
                    let b = node_map_entries(old(dag).nodes);
                    assert(a.take(b.len() as int) =~= b);
                    assert(a[b.len() as int] == (id.value, nd));
                    assert(at_positions(ds, Seq::<nat>::empty()) =~= Seq::<u128>::empty());
                    assert(set_insert_all(Seq::empty(), Seq::<u128>::empty()) == Seq::<u128>::empty());
                    assert(edges_at(ds, Seq::<(nat, nat)>::empty()) =~= Seq::<Edge>::empty());
                    assert(dag.edges@ =~= old(dag).edges@ + edges_at(ds, Seq::<(nat, nat)>::empty()));
                }
                Ok(id)
            },
            Err(e) => Err(e),
        }
    }

    /// Compiles one statement into `dag`, returning the node that stands
    /// for its result: the DAG gains exactly the nodes and edges of the
    /// statement's plan, with identifiers drawn as recorded.
    fn compile_statement(
        &mut self,
        stmt: &Statement,
        dag: &mut Dag,
        warnings: &mut Vec<CompilerWarning>,
    ) -> (r: Result<NodeId, CoreError>)
        ensures
            final(self).drawn().len() >= old(self).drawn().len(),
            final(self).drawn().take(old(self).drawn().len() as int) == old(self).drawn(),
            r matches Ok(id) ==> ({
                let ds = final(self).drawn().skip(old(self).drawn().len() as int);
                let p = spec_plan(*stmt);
                &&& ds.len() == p.used
                &&& id.value == ds[p.results[0] as int]
                &&& adds_plan(*old(dag), *final(dag), ds, p)
            }),
            r matches Err(e) ==> (e is AlreadyExists || e is Validation) && !fresh_draws(
                *old(dag),
                final(self).drawn().skip(old(self).drawn().len() as int),
            ),
            *final(warnings) == *old(warnings),
        decreases stmt,
    {
        let ghost d0 = self.drawn();
        match stmt {
            Statement::ToolCall { name, args, .. } => {
                let caps = self.infer_capabilities(name.as_str(), args.as_slice());
                let kind = NodeKind::Tool { name: name.clone(), version: "1.0.0".to_owned() };
                let r = self.add_simple_node(dag, kind, caps);
                proof {
                    assert(self.drawn().take(d0.len() as int) =~= d0);
                    assert(self.drawn().skip(d0.len() as int) =~= seq![self.drawn().last()]);
                    assert(self.drawn().skip(d0.len() as int)[0] == self.drawn().last());
                }
                r
            },
            Statement::Input { name, .. } => {
                let kind = NodeKind::Input { schema: cat2("schema_", name.as_str()) };
                let caps: Vec<Capability> = Vec::new();
                assert(caps@.map_values(|c: Capability| c@) =~= Seq::<CapView>::empty());
                let r = self.add_simple_node(dag, kind, caps);
                proof {
                    assert(self.drawn().take(d0.len() as int) =~= d0);
                    assert(self.drawn().skip(d0.len() as int) =~= seq![self.drawn().last()]);
                    assert(self.drawn().skip(d0.len() as int)[0] == self.drawn().last());
                }
                r
            },
            Statement::Output { name, .. } => {
                let kind = NodeKind::Output { schema: cat2("schema_", name.as_str()) };
                let caps: Vec<Capability> = Vec::new();
                assert(caps@.map_values(|c: Capability| c@) =~= Seq::<CapView>::empty());
                let r = self.add_simple_node(dag, kind, caps);
                proof {
                    assert(self.drawn().take(d0.len() as int) =~= d0);
                    assert(self.drawn().skip(d0.len() as int) =~= seq![self.drawn().last()]);
                    assert(self.drawn().skip(d0.len() as int)[0] == self.drawn().last());
                }
                r
            },
            Statement::Sequence { statements } => self.compile_sequence(statements, dag, warnings),
            Statement::Parallel { branches } => self.compile_parallel(branches, dag, warnings),
        }
    }

    /// Compiles statements one after another, linking each result to the
    /// next; stands for the last result. An empty sequence stands for a
    /// fresh identifier of no node.
    #[verifier::spinoff_prover]
    fn compile_sequence(
        &mut self,
        statements: &Vec<Statement>,
        dag: &mut Dag,
        warnings: &mut Vec<CompilerWarning>,
    ) -> (r: Result<NodeId, CoreError>)
        ensures
            final(self).drawn().len() >= old(self).drawn().len(),
            final(self).drawn().take(old(self).drawn().len() as int) == old(self).drawn(),
            r matches Ok(id) ==> ({
                let ds = final(self).drawn().skip(old(self).drawn().len() as int);
                let p = spec_plan(Statement::Sequence { statements: *statements });
                &&& ds.len() == p.used
                &&& id.value == ds[p.results[0] as int]
                &&& adds_plan(*old(dag), *final(dag), ds, p)
            }),
            r matches Err(e) ==> (e is AlreadyExists || e is Validation) && !fresh_draws(
                *old(dag),
                final(self).drawn().skip(old(self).drawn().len() as int),
            ),
            *final(warnings) == *old(warnings),
        decreases statements,
    {
        let ghost d0 = self.drawn();
        let ghost g0 = *dag;
        let ghost mut ds: Seq<u128> = Seq::empty();
        let mut prev_id: Option<NodeId> = None;
        let mut i: usize = 0;
        proof {
            assert(self.drawn() =~= d0 + ds);
            let a = node_map_entries(dag.nodes);
            assert(a.take(a.len() as int) =~= a);
            assert(edges_at(ds, Seq::<(nat, nat)>::empty()) =~= Seq::<Edge>::empty());
            assert(dag.edges@ =~= g0.edges@ + edges_at(ds, Seq::<(nat, nat)>::empty()));
            assert(statements@.take(0) =~= Seq::<Statement>::empty());
        }
        while i < statements.len()
            invariant
                i <= statements@.len(),
                g0 == *old(dag),
                d0 == old(self).drawn(),
                self.drawn() == d0 + ds,
                ds.len() == spec_seq_plan(statements@.take(i as int)).used,
                adds_plan(g0, *dag, ds, spec_seq_plan(statements@.take(i as int))),
                prev_id is Some <==> i > 0,
                i > 0 ==> prev_id->0.value == ds[spec_seq_plan(statements@.take(i as int)).results.last() as int],
                *warnings == *old(warnings),
            decreases statements@.len() - i,
        {
            let ghost pl = spec_seq_plan(statements@.take(i as int));
            let ghost mid = *dag;
            let ghost dm = self.drawn();
            proof {
                lemma_seq_plan_facts(statements@.take(i as int));
                assert(statements@.take(i + 1).drop_last() =~= statements@.take(i as int));
                assert(statements@.take(i + 1).last() == statements@[i as int]);
            }
            assert(decreases_to!(statements => statements@[i as int]));
            let id = match self.compile_statement(&statements[i], dag, warnings) {
                Ok(id) => id,
                Err(e) => {
                    proof {
                        assert(self.drawn().take(d0.len() as int) =~= d0) by {
                            assert(self.drawn().take(dm.len() as int) == dm);
                        }
                        let dcp = self.drawn().skip(dm.len() as int);
                        assert(self.drawn() =~= dm + dcp) by {
                            assert(self.drawn().take(dm.len() as int) == dm);
                        }
                        assert(self.drawn().skip(d0.len() as int) =~= ds + dcp);
                        if fresh_draws(g0, ds + dcp) {
                            lemma_fresh_after(g0, mid, ds, pl, dcp);
                        }
                    }
                    return Err(e);
                },
            };
            let ghost dc = self.drawn().skip(dm.len() as int);
            let ghost c0 = spec_plan(statements@[i as int]);
            let ghost after_stmt = *dag;
            proof {
                lemma_plan_facts(statements@[i as int]);
                assert(self.drawn() =~= dm + dc) by {
                    assert(self.drawn().take(dm.len() as int) == dm);
                }
                lemma_adds_compose(g0, mid, after_stmt, ds, dc, pl, c0);
                lemma_shift_bounded(c0, ds.len());
            }
            let ghost c = shift_plan(c0, ds.len());
            let ghost dsn = ds + dc;
            let ghost joined = Plan { nodes: pl.nodes + c.nodes, edges: pl.edges + c.edges, results: pl.results, used: pl.used };
            if let Some(prev) = prev_id {
                let ghost e = Edge { from: prev, to: id, from_port: None, to_port: None };
                match dag.add_edge(Edge::new(prev, id)) {
                    Ok(()) => {},
                    Err(err) => {
                        proof {
                            assert(self.drawn().take(d0.len() as int) =~= d0);
                            assert(self.drawn().skip(d0.len() as int) =~= dsn);
                            let link = (pl.results.last(), c.results[0]);
                            assert(pl.results.last() < pl.used);
                            assert(dsn[pl.results.last() as int] == ds[pl.results.last() as int]);
                            assert(dsn[c.results[0] as int] == dc[c0.results[0] as int]);
                            assert(edge_at(dsn, link) == e);
                            assert(!fresh_draws(g0, dsn)) by {
                                if fresh_draws(g0, dsn) {
                                    lemma_seq_forward(statements@.take(i as int));
                                    lemma_plan_forward(statements@[i as int]);
                                    lemma_joined_forward(pl, c0, ds.len(), dsn.len(), joined.edges);
                                    lemma_forward_acyclic(g0.edges@, dsn, joined.edges, link);
                                    assert(closes_cycle(dag.edges@, e));
                                }
                            }
                        }
                        return Err(err);
                    },
                }
                proof {
                    let link = (pl.results.last(), c.results[0]);
                    assert(pl.results.last() < pl.used);
                    assert(dsn[pl.results.last() as int] == ds[pl.results.last() as int]);
                    assert(dsn[c.results[0] as int] == dc[c0.results[0] as int]);
                    assert(edge_at(dsn, link) == e);
                    assert(edges_at(dsn, joined.edges.push(link)) =~= edges_at(dsn, joined.edges).push(edge_at(dsn, link)));
                    assert(dag.edges@ =~= g0.edges@ + edges_at(dsn, joined.edges.push(link)));
                }
            }
            proof {
                let np = spec_seq_plan(statements@.take(i + 1));
                assert(np.nodes == joined.nodes);
                assert(np.used == ds.len() + dc.len());
                assert(np.results.last() == c.results[0]);
                if i == 0 {
                    assert(np.edges =~= joined.edges);
                } else {
                    assert(np.edges =~= joined.edges.push((pl.results.last(), c.results[0])));
                }
                assert(dsn[c.results[0] as int] == dc[c0.results[0] as int]);
            }
            prev_id = Some(id);
            proof {
                ds = dsn;
            }
            i = i + 1;
        }
        proof {
            assert(statements@.take(statements@.len() as int) =~= statements@);
            lemma_seq_plan_facts(statements@);
        }
        match prev_id {
            Some(id) => {
                proof {
                    assert(self.drawn().take(d0.len() as int) =~= d0);
                    assert(self.drawn().skip(d0.len() as int) =~= ds);
                }
                Ok(id)
            },
            None => {
                let id = self.next_node_id();
                proof {
                    assert(self.drawn().take(d0.len() as int) =~= d0);
                    assert(self.drawn().skip(d0.len() as int) =~= seq![id.value]);
                    let a = node_map_entries(dag.nodes);
                    assert(a.take(a.len() as int) =~= a);
                    assert(edges_at(seq![id.value], Seq::<(nat, nat)>::empty()) =~= Seq::<Edge>::empty());
                    assert(dag.edges@ =~= g0.edges@ + edges_at(seq![id.value], Seq::<(nat, nat)>::empty()));
                }
                Ok(id)
            },
        }
    }

    /// Compiles branches side by side, then adds a merge node depending on
    /// every branch result, with an edge from each; stands for the merge node.
    #[verifier::spinoff_prover]
    fn compile_parallel(
        &mut self,
        branches: &Vec<Statement>,
        dag: &mut Dag,
        warnings: &mut Vec<CompilerWarning>,
    ) -> (r: Result<NodeId, CoreError>)
        ensures
            final(self).drawn().len() >= old(self).drawn().len(),
            final(self).drawn().take(old(self).drawn().len() as int) == old(self).drawn(),
            r matches Ok(id) ==> ({
                let ds = final(self).drawn().skip(old(self).drawn().len() as int);
                let p = spec_plan(Statement::Parallel { branches: *branches });
                &&& ds.len() == p.used
                &&& id.value == ds[p.results[0] as int]
                &&& adds_plan(*old(dag), *final(dag), ds, p)
            }),
            r matches Err(e) ==> (e is AlreadyExists || e is Validation) && !fresh_draws(
                *old(dag),
                final(self).drawn().skip(old(self).drawn().len() as int),
            ),
            *final(warnings) == *old(warnings),
        decreases branches,
    {
        let ghost d0 = self.drawn();
        let ghost g0 = *dag;
        let ghost mut ds: Seq<u128> = Seq::empty();
        let mut branch_ids: Vec<NodeId> = Vec::new();
        let mut i: usize = 0;
        proof {
            assert(self.drawn() =~= d0 + ds);
            let a = node_map_entries(dag.nodes);
            assert(a.take(a.len() as int) =~= a);
            assert(edges_at(ds, Seq::<(nat, nat)>::empty()) =~= Seq::<Edge>::empty());
            assert(dag.edges@ =~= g0.edges@ + edges_at(ds, Seq::<(nat, nat)>::empty()));
            assert(branches@.take(0) =~= Seq::<Statement>::empty());
            assert(ids(branch_ids@) =~= at_positions(ds, Seq::<nat>::empty()));
        }
        while i < branches.len()
            invariant
                i <= branches@.len(),
                g0 == *old(dag),
                d0 == old(self).drawn(),
                self.drawn() == d0 + ds,
                ds.len() == spec_par_plan(branches@.take(i as int)).used,
                adds_plan(g0, *dag, ds, spec_par_plan(branches@.take(i as int))),
                ids(branch_ids@) == at_positions(ds, spec_par_plan(branches@.take(i as int)).results),
                *warnings == *old(warnings),
            decreases branches@.len() - i,
        {
            let ghost pl = spec_par_plan(branches@.take(i as int));
            let ghost mid = *dag;
            let ghost dm = self.drawn();
            proof {
                lemma_par_plan_facts(branches@.take(i as int));
                assert(branches@.take(i + 1).drop_last() =~= branches@.take(i as int));
                assert(branches@.take(i + 1).last() == branches@[i as int]);
            }
            assert(decreases_to!(branches => branches@[i as int]));
            let id = match self.compile_statement(&branches[i], dag, warnings) {
                Ok(id) => id,
                Err(e) => {
                    proof {
                        assert(self.drawn().take(d0.len() as int) =~= d0) by {
                            assert(self.drawn().take(dm.len() as int) == dm);
                        }
                        let dcp = self.drawn().skip(dm.len() as int);
                        assert(self.drawn() =~= dm + dcp) by {
                            assert(self.drawn().take(dm.len() as int) == dm);
                        }
                        assert(self.drawn().skip(d0.len() as int) =~= ds + dcp);
                        if fresh_draws(g0, ds + dcp) {
                            lemma_fresh_after(g0, mid, ds, pl, dcp);
                        }
                    }
                    return Err(e);
                },
            };
            let ghost dc = self.drawn().skip(dm.len() as int);
            let ghost c0 = spec_plan(branches@[i as int]);
            proof {
                lemma_plan_facts(branches@[i as int]);
                assert(self.drawn() =~= dm + dc) by {
                    assert(self.drawn().take(dm.len() as int) == dm);
                }
                lemma_adds_compose(g0, mid, *dag, ds, dc, pl, c0);
                lemma_shift_bounded(c0, ds.len());
            }
            let ghost c = shift_plan(c0, ds.len());
            let ghost dsn = ds + dc;
            let ghost old_ids = ids(branch_ids@);
            branch_ids.push(id);
            proof {
                assert(ids(branch_ids@) =~= old_ids.push(id.value));
                assert(old_ids.len() == pl.results.len());
                let np = spec_par_plan(branches@.take(i + 1));
                assert(np.nodes == pl.nodes + c.nodes);
                assert(np.edges == pl.edges + c.edges);
                assert(np.results == pl.results.push(c.results[0]));
                assert(dsn[c.results[0] as int] == dc[c0.results[0] as int]);
                assert(ids(branch_ids@) =~= at_positions(dsn, np.results)) by {
                    assert forall|k: int| 0 <= k < np.results.len() implies ids(branch_ids@)[k] == at_positions(dsn, np.results)[k] by {
                        if k < pl.results.len() {
                            assert(pl.results[k] < pl.used);
                            assert(old_ids[k] == at_positions(ds, pl.results)[k]);
                            assert(np.results[k] == pl.results[k]);
                        } else {
                            assert(np.results[k] == c.results[0]);
                        }
                    }
                }
                ds = dsn;
            }
            i = i + 1;
        }
        proof {
            assert(branches@.take(branches@.len() as int) =~= branches@);
            lemma_par_plan_facts(branches@);
            lemma_par_forward(branches@);
        }
        let ghost l = spec_par_plan(branches@);
        let ghost dl = self.drawn();
        let agg_id = self.next_node_id();
        let ghost dsa = ds.push(agg_id.value);
        let mut dependencies = id_set_new();
        let mut k: usize = 0;
        while k < branch_ids.len()
            invariant
                k <= branch_ids@.len(),
                id_set_items(dependencies) == set_insert_all(Seq::empty(), ids(branch_ids@).take(k as int)),
            decreases branch_ids@.len() - k,
        {
            proof {
                assert(ids(branch_ids@).take(k + 1).drop_last() =~= ids(branch_ids@).take(k as int));
                assert(ids(branch_ids@).take(k + 1).last() == branch_ids@[k as int].value);
            }
            id_set_insert(&mut dependencies, branch_ids[k]);
            k = k + 1;
        }
        proof {
            assert(ids(branch_ids@).take(branch_ids@.len() as int) =~= ids(branch_ids@));
            assert(at_positions(dsa, l.results) =~= at_positions(ds, l.results)) by {
                assert forall|j: int| 0 <= j < l.results.len() implies at_positions(dsa, l.results)[j] == at_positions(ds, l.results)[j] by {
                    assert(l.results[j] < l.used);
                }
            }
        }
        let agg_node = Node {
            id: agg_id,
            kind: NodeKind::Reduce { function: "merge".to_owned(), initial: Vec::new() },
            dependencies,
            capabilities: Vec::new(),
            resources: ResourceRequirements::new(),
        };
        let ghost nd = agg_node;
        let ghost before_agg = *dag;
        match dag.add_node(agg_node) {
            Ok(()) => {},
            Err(e) => {
                proof {
                    assert(self.drawn().take(d0.len() as int) =~= d0);
                    assert(self.drawn().skip(d0.len() as int) =~= ds + seq![agg_id.value]);
                    if fresh_draws(g0, ds + seq![agg_id.value]) {
                        lemma_fresh_after(g0, before_agg, ds, l, seq![agg_id.value]);
                        assert(seq![agg_id.value][0] == agg_id.value);
                    }
                }
                return Err(e);
            },
        }
        let ghost merge_edges = l.results.map_values(|r: nat| (r, l.used));
        let ghost full = spec_plan(Statement::Parallel { branches: *branches });
        proof {
            assert(nd.capabilities@.map_values(|c: Capability| c@) =~= Seq::<CapView>::empty());
            assert(kind_view(nd.kind) == KindView::Reduce("merge"@, Seq::empty()));
            assert(self.drawn() =~= d0 + dsa);
            assert(full.nodes == l.nodes.push((l.used, (KindView::Reduce("merge"@, Seq::empty()), Seq::empty()), l.results)));
            assert(full.edges == l.edges + merge_edges);
            let b0 = node_map_entries(g0.nodes);
            let a1 = node_map_entries(before_agg.nodes);
            let a2 = node_map_entries(dag.nodes);
            assert(a2 == a1.push((agg_id.value, nd)));
            assert(a2.take(b0.len() as int) =~= b0) by {
                assert forall|q: int| 0 <= q < b0.len() implies a2[q] == b0[q] by {
                    assert(a1.take(b0.len() as int)[q] == a1[q]);
                }
            }
            assert forall|q: int| 0 <= q < full.nodes.len() implies #[trigger] entry_is(a2[b0.len() + q], dsa, full.nodes[q]) by {
                if q < l.nodes.len() {
                    assert(a2[b0.len() + q] == a1[b0.len() + q]);
                    assert(entry_is(a1[b0.len() + q], ds, l.nodes[q]));
                    assert(dsa =~= ds + seq![agg_id.value]);
                    lemma_entry_extend(a1[b0.len() + q], ds, seq![agg_id.value], l, q);
                    assert(full.nodes[q] == l.nodes[q]);
                } else {
                    assert(q == l.nodes.len());
                    assert(a2[b0.len() + q] == (agg_id.value, nd));
                    assert(full.nodes[q] == (l.used, (KindView::Reduce("merge"@, Seq::empty()), Seq::<CapView>::empty()), l.results));
                    assert(node_shape(nd) == full.nodes[q].1);
                    assert(id_set_items(nd.dependencies) == set_insert_all(Seq::empty(), at_positions(dsa, l.results)));
                    assert(dsa[l.used as int] == agg_id.value);
                    assert(nd.resources == ResourceRequirements::spec_none());
                }
            }
            assert(edges_at(dsa, l.edges) =~= edges_at(ds, l.edges)) by {
                assert forall|q: int| 0 <= q < l.edges.len() implies edges_at(dsa, l.edges)[q] == edges_at(ds, l.edges)[q] by {
                    assert(l.edges[q].0 < l.used && l.edges[q].1 < l.used);
                }
            }
            assert(dag.edges@ =~= g0.edges@ + edges_at(dsa, l.edges) + edges_at(dsa, merge_edges.take(0)));
        }
        let ghost na = node_map_entries(dag.nodes);
        let mut j: usize = 0;
        while j < branch_ids.len()
            invariant
                j <= branch_ids@.len(),
                branch_ids@.len() == l.results.len(),
                merge_edges == l.results.map_values(|r: nat| (r, l.used)),
                ids(branch_ids@) == at_positions(ds, l.results),
                dsa == ds.push(agg_id.value),
                ds.len() == l.used,
                plan_bounded(l),
                plan_forward(l),
                g0 == *old(dag),
                node_map_entries(dag.nodes) == na,
                dag.edges@ == g0.edges@ + edges_at(dsa, l.edges) + edges_at(dsa, merge_edges.take(j as int)),
                self.drawn() == d0 + dsa,
                d0 == old(self).drawn(),
                *warnings == *old(warnings),
            decreases branch_ids@.len() - j,
        {
            let ghost e = Edge { from: branch_ids[j as int], to: agg_id, from_port: None, to_port: None };
            proof {
                assert(l.results[j as int] < l.used);
                assert(ids(branch_ids@)[j as int] == branch_ids@[j as int].value);
                assert(dsa[l.results[j as int] as int] == ds[l.results[j as int] as int]);
                assert(merge_edges[j as int] == (l.results[j as int], l.used));
                assert(edge_at(dsa, merge_edges[j as int]) == e);
            }
            match dag.add_edge(Edge::new(branch_ids[j], agg_id)) {
                Ok(()) => {},
                Err(err) => {
                    proof {
                        assert(self.drawn().take(d0.len() as int) =~= d0);
                        assert(self.drawn().skip(d0.len() as int) =~= dsa);
                        assert(!fresh_draws(g0, dsa)) by {
                            if fresh_draws(g0, dsa) {
                                let es = l.edges + merge_edges.take(j as int);
                                assert(edges_at(dsa, es) =~= edges_at(dsa, l.edges) + edges_at(dsa, merge_edges.take(j as int)));
                                assert(dag.edges@ =~= g0.edges@ + edges_at(dsa, es));
                                lemma_merge_forward(l, merge_edges, j as int, dsa.len(), es);
                                lemma_forward_acyclic(g0.edges@, dsa, es, merge_edges[j as int]);
                                assert(closes_cycle(dag.edges@, e));
                            }
                        }
                    }
                    return Err(err);
                },
            }
            proof {
                assert(l.results[j as int] < l.used);
                assert(ids(branch_ids@)[j as int] == branch_ids@[j as int].value);
                assert(dsa[l.results[j as int] as int] == ds[l.results[j as int] as int]);
                assert(merge_edges[j as int] == (l.results[j as int], l.used));
                assert(edge_at(dsa, merge_edges[j as int]) == e);
                assert(merge_edges.take(j + 1) =~= merge_edges.take(j as int).push(merge_edges[j as int]));
                assert(edges_at(dsa, merge_edges.take(j + 1)) =~= edges_at(dsa, merge_edges.take(j as int)).push(e));
            }
            j = j + 1;
        }
        proof {
            assert(merge_edges.take(branch_ids@.len() as int) =~= merge_edges);
            assert(edges_at(dsa, full.edges) =~= edges_at(dsa, l.edges) + edges_at(dsa, merge_edges));
            assert(dag.edges@ =~= g0.edges@ + edges_at(dsa, full.edges));
            assert(self.drawn().take(d0.len() as int) =~= d0);
            assert(self.drawn().skip(d0.len() as int) =~= dsa);
            assert(dsa[full.results[0] as int] == agg_id.value);
        }
        Ok(agg_id)
    }

    /// Compiles every statement of `ast` into a fresh DAG, each standing on
    /// its own, and validates it: the DAG holds exactly the plans of the
    /// statements, with identifiers drawn as recorded.
    #[verifier::spinoff_prover]
    pub fn compile(&mut self, ast: &Ast) -> (r: Result<CompilerOutput, CoreError>)
        ensures
            final(self).drawn().len() >= old(self).drawn().len(),
            final(self).drawn().take(old(self).drawn().len() as int) == old(self).drawn(),
            r matches Ok(out) ==> ({
                let ds = final(self).drawn().skip(old(self).drawn().len() as int);
                let p = spec_par_plan(ast.statements@);
                &&& ds.len() == p.used
                &&& dag_is_plan(out.dag, ds, p)
                &&& out.warnings@.len() == 0
                &&& forall|i: int| 0 <= i < out.dag.edges@.len() ==> #[trigger] edge_ends_known(
                    node_map_entries(out.dag.nodes),
                    out.dag.edges@[i],
                )
                &&& forall|i: int| 0 <= i < out.dag.edges@.len() ==> !#[trigger] closes_cycle(out.dag.edges@, out.dag.edges@[i])
            }),
            final(self).drawn().skip(old(self).drawn().len() as int).no_duplicates() && plan_edges_known(
                spec_par_plan(ast.statements@),
            ) ==> r is Ok,
            r matches Err(e) ==> ({
                let ds = final(self).drawn().skip(old(self).drawn().len() as int);
                &&& e is AlreadyExists || e is Validation || e is NotFound
                &&& (e is AlreadyExists || e is Validation) ==> !ds.no_duplicates()
                &&& e is NotFound ==> !plan_edges_known(spec_par_plan(ast.statements@))
            }),
    {
        let ghost d0 = self.drawn();
        let mut dag = Dag::new();
        let ghost g0 = dag;
        let mut warnings: Vec<CompilerWarning> = Vec::new();
        let ghost mut ds: Seq<u128> = Seq::empty();
        let mut i: usize = 0;
        proof {
            assert(self.drawn() =~= d0 + ds);
            let a = node_map_entries(dag.nodes);
            assert(a.take(a.len() as int) =~= a);
            assert(edges_at(ds, Seq::<(nat, nat)>::empty()) =~= Seq::<Edge>::empty());
            assert(dag.edges@ =~= g0.edges@ + edges_at(ds, Seq::<(nat, nat)>::empty()));
            assert(ast.statements@.take(0) =~= Seq::<Statement>::empty());
        }
        while i < ast.statements.len()
            invariant
                i <= ast.statements@.len(),
                node_map_entries(g0.nodes).len() == 0,
                g0.edges@.len() == 0,
                d0 == old(self).drawn(),
                self.drawn() == d0 + ds,
                ds.len() == spec_par_plan(ast.statements@.take(i as int)).used,
                adds_plan(g0, dag, ds, spec_par_plan(ast.statements@.take(i as int))),
                warnings@.len() == 0,
            decreases ast.statements@.len() - i,
        {
            let ghost pl = spec_par_plan(ast.statements@.take(i as int));
            let ghost mid = dag;
            let ghost dm = self.drawn();
            proof {
                lemma_par_plan_facts(ast.statements@.take(i as int));
                assert(ast.statements@.take(i + 1).drop_last() =~= ast.statements@.take(i as int));
                assert(ast.statements@.take(i + 1).last() == ast.statements@[i as int]);
            }
            match self.compile_statement(&ast.statements[i], &mut dag, &mut warnings) {
                Ok(_) => {},
                Err(e) => {
                    proof {
                        assert(self.drawn().take(d0.len() as int) =~= d0) by {
                            assert(self.drawn().take(dm.len() as int) == dm);
                        }
                        let dcp = self.drawn().skip(dm.len() as int);
                        assert(self.drawn() =~= dm + dcp) by {
                            assert(self.drawn().take(dm.len() as int) == dm);
                        }
                        assert(self.drawn().skip(d0.len() as int) =~= ds + dcp);
                        if (ds + dcp).no_duplicates() {
                            assert(fresh_draws(g0, ds + dcp));
                            lemma_fresh_after(g0, mid, ds, pl, dcp);
                        }
                    }
                    return Err(e);
                },
            }
            let ghost dc = self.drawn().skip(dm.len() as int);
            let ghost c0 = spec_plan(ast.statements@[i as int]);
            proof {
                lemma_plan_facts(ast.statements@[i as int]);
                assert(self.drawn() =~= dm + dc) by {
                    assert(self.drawn().take(dm.len() as int) == dm);
                }
                lemma_adds_compose(g0, mid, dag, ds, dc, pl, c0);
                let np = spec_par_plan(ast.statements@.take(i + 1));
                let c = shift_plan(c0, ds.len());
                assert(np.nodes == pl.nodes + c.nodes);
                assert(np.edges == pl.edges + c.edges);
                ds = ds + dc;
            }
            i = i + 1;
        }
        proof {
            assert(ast.statements@.take(ast.statements@.len() as int) =~= ast.statements@);
            let a = node_map_entries(dag.nodes);
            assert(a.take(0) =~= Seq::<(u128, Node)>::empty());
            assert(dag.edges@ =~= edges_at(ds, spec_par_plan(ast.statements@).edges));
            assert(self.drawn().take(d0.len() as int) =~= d0);
            assert(self.drawn().skip(d0.len() as int) =~= ds);
            assert forall|k: int| 0 <= k < spec_par_plan(ast.statements@).nodes.len() implies #[trigger] entry_is(
                a[k],
                ds,
                spec_par_plan(ast.statements@).nodes[k],
            ) by {
                assert(entry_is(a[0 + k], ds, spec_par_plan(ast.statements@).nodes[k]));
            }
        }
        match dag.validate() {
            Ok(()) => Ok(CompilerOutput { dag, warnings }),
            Err(e) => {
                proof {
                    let p = spec_par_plan(ast.statements@);
                    let a = node_map_entries(dag.nodes);
                    lemma_par_plan_facts(ast.statements@);
                    if ds.no_duplicates() {
                        lemma_par_forward(ast.statements@);
                        assert(Seq::<Edge>::empty() + edges_at(ds, p.edges) =~= dag.edges@);
                        assert forall|k: int| 0 <= k < p.edges.len() implies #[trigger] p.edges[k].0 < p.edges[k].1
                            && p.edges[k].1 < ds.len() by {
                            assert(p.edges[k].0 < p.used);
                        }
                        assert forall|i: int| 0 <= i < dag.edges@.len() implies !#[trigger] closes_cycle(
                            dag.edges@,
                            dag.edges@[i],
                        ) by {
                            lemma_forward_acyclic(Seq::empty(), ds, p.edges, p.edges[i]);
                            assert(dag.edges@[i] == edge_at(ds, p.edges[i]));
                        }
                    }
                    if plan_edges_known(p) {
                        assert forall|i: int| 0 <= i < dag.edges@.len() implies #[trigger] edge_ends_known(
                            a,
                            dag.edges@[i],
                        ) by {
                            assert(plan_has_node(p, p.edges[i].0) && plan_has_node(p, p.edges[i].1));
                            let k1 = choose|k: int| 0 <= k < p.nodes.len() && #[trigger] p.nodes[k].0 == p.edges[i].0;
                            let k2 = choose|k: int| 0 <= k < p.nodes.len() && #[trigger] p.nodes[k].0 == p.edges[i].1;
                            assert(entry_is(a[k1], ds, p.nodes[k1]));
                            assert(entry_is(a[k2], ds, p.nodes[k2]));
                            assert(dag.edges@[i] == edge_at(ds, p.edges[i]));
                            assert(a[k1].0 == dag.edges@[i].from.value);
                            assert(a[k2].0 == dag.edges@[i].to.value);
                        }
                    }
                }
                Err(e)
            },
        }
    }
}

impl Default for Compiler {
    fn default() -> (c: Self)
        ensures
            c.next_id == 0,
    {
        Compiler::new()
    }
}

} // verus!
