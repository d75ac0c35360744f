//! The policy language: rules that allow or deny, and named constants.
//!
//! A policy is a list of lines. A line is a list of words separated by
//! spaces; an empty line is skipped. `allow E` and `deny E` add a rule, and
//! `let NAME = E` defines a constant, where `E` is one word: `true`,
//! `false`, a string in double quotes, or the name of a variable.
use vstd::prelude::*;
use crate::core_types::capability::Capability;
use crate::core_types::error::{CoreError, cat2};
use crate::core_types::text::{spec_split, split_char, strings_view, str_eq, to_owned_string};

verus! {

/// A comparison operator.
#[derive(Debug, Clone, Copy, PartialEq, Eq, Structural)]
pub enum CompareOp {
    Eq,
    Ne,
    Lt,
    Le,
    Gt,
    Ge,
}

/// An expression of the policy language.
#[derive(Debug, PartialEq, Eq)]
pub enum PolicyExpr {
    Bool(bool),
    String(String),
    /// Whether the requested capability's text contains this text.
    CapabilityCheck { capability: String },
    And(Box<PolicyExpr>, Box<PolicyExpr>),
    Or(Box<PolicyExpr>, Box<PolicyExpr>),
    Not(Box<PolicyExpr>),
    Var(String),
    Compare { op: CompareOp, left: Box<PolicyExpr>, right: Box<PolicyExpr> },
    Call { func: String, args: Vec<PolicyExpr> },
}

/// A rule: an optional name, the condition, and the capabilities it grants.
#[derive(Debug, PartialEq, Eq)]
pub struct PolicyRule {
    pub name: Option<String>,
    pub expr: PolicyExpr,
    pub capabilities: Vec<Capability>,
}

/// A statement of a policy.
#[derive(Debug, PartialEq, Eq)]
pub enum PolicyStmt {
    Allow(PolicyRule),
    Deny(PolicyRule),
    Let(String, PolicyExpr),
}

/// A parsed policy.
#[derive(Debug, PartialEq, Eq)]
pub struct PolicyAst {
    pub statements: Vec<PolicyStmt>,
}

/// The shape of a one-word expression, as plain values.
pub enum AtomView {
    Bool(bool),
    Str(Seq<char>),
    Var(Seq<char>),
}

/// The expression a word stands for.
pub open spec fn spec_atom(w: Seq<char>) -> AtomView {
    if w == "true"@ {
        AtomView::Bool(true)
    } else if w == "false"@ {
        AtomView::Bool(false)
    } else if w.len() >= 2 && w[0] == '"' && w[w.len() - 1] == '"' {
        AtomView::Str(w.subrange(1, w.len() - 1))
    } else {
        AtomView::Var(w)
    }
}

/// The plain shape of a one-word expression, when it is one.
pub open spec fn atom_view(e: PolicyExpr) -> Option<AtomView> {
    match e {
        PolicyExpr::Bool(b) => Some(AtomView::Bool(b)),
        PolicyExpr::String(s) => Some(AtomView::Str(s@)),
        PolicyExpr::Var(v) => Some(AtomView::Var(v@)),
        _ => None,
    }
}

/// The shape of a statement, as plain values.
pub enum StmtView {
    Allow(AtomView),
    Deny(AtomView),
    Let(Seq<char>, AtomView),
}

/// The plain shape of a parsed statement: rules without a name or
/// capabilities, one-word expressions.
pub open spec fn stmt_view(s: PolicyStmt) -> Option<StmtView> {
    match s {
        PolicyStmt::Allow(r) => if r.name is None && r.capabilities@.len() == 0 && atom_view(r.expr) is Some {
            Some(StmtView::Allow(atom_view(r.expr).unwrap()))
        } else {
            None
        },
        PolicyStmt::Deny(r) => if r.name is None && r.capabilities@.len() == 0 && atom_view(r.expr) is Some {
            Some(StmtView::Deny(atom_view(r.expr).unwrap()))
        } else {
            None
        },
        PolicyStmt::Let(n, e) => if atom_view(e) is Some {
            Some(StmtView::Let(n@, atom_view(e).unwrap()))
        } else {
            None
        },
    }
}

/// The non-empty words of a line.
pub open spec fn spec_words(line: Seq<char>) -> Seq<Seq<char>> {
    spec_split(line, ' ').filter(|w: Seq<char>| w.len() > 0)
}

/// What a line says: nothing (`Some(None)`), a statement, or an error (`None`).
pub open spec fn spec_line(line: Seq<char>) -> Option<Option<StmtView>> {
    let w = spec_words(line);
    if w.len() == 0 {
        Some(None)
    } else if w.len() == 2 && w[0] == "allow"@ {
        Some(Some(StmtView::Allow(spec_atom(w[1]))))
    } else if w.len() == 2 && w[0] == "deny"@ {
        Some(Some(StmtView::Deny(spec_atom(w[1]))))
    } else if w.len() == 4 && w[0] == "let"@ && w[2] == "="@ {
        Some(Some(StmtView::Let(w[1], spec_atom(w[3]))))
    } else {
        None
    }
}

/// The statements of the lines, or the position of the first line that
/// says nothing the language knows.
pub open spec fn spec_parse_lines(lines: Seq<Seq<char>>) -> Result<Seq<StmtView>, int>
    decreases lines.len(),
{
    if lines.len() == 0 {
        Ok(Seq::empty())
    } else {
        match spec_parse_lines(lines.drop_last()) {
            Err(i) => Err(i),
            Ok(stmts) => match spec_line(lines.last()) {
                None => Err(lines.len() - 1),
                Some(None) => Ok(stmts),
                Some(Some(s)) => Ok(stmts.push(s)),
            },
        }
    }
}

/// The shapes of parsed statements.
pub open spec fn stmts_view(s: Seq<PolicyStmt>) -> Seq<Option<StmtView>> {
    s.map_values(|x: PolicyStmt| stmt_view(x))
}

/// The expression a word stands for.
fn parse_atom(w: &str) -> (e: PolicyExpr)
    ensures
        atom_view(e) == Some(spec_atom(w@)),
{
    proof {
        reveal_strlit("true");
        reveal_strlit("false");
    }
    if str_eq(w, "true") {
        return PolicyExpr::Bool(true);
    }
    if str_eq(w, "false") {
        return PolicyExpr::Bool(false);
    }
    let n = w.unicode_len();
    if n >= 2 && w.get_char(0) == '"' && w.get_char(n - 1) == '"' {
        return PolicyExpr::String(to_owned_string(w.substring_char(1, n - 1)));
    }
    PolicyExpr::Var(to_owned_string(w))
}

/// The non-empty words of a line.
fn words(line: &str) -> (v: Vec<String>)
    ensures
        strings_view(v@) == spec_words(line@),
{
    let parts = split_char(line, ' ');
    let ghost pred = |w: Seq<char>| w.len() > 0;
    let mut v: Vec<String> = Vec::new();
    let mut i: usize = 0;
    while i < parts.len()
        invariant
            i <= parts@.len(),
            pred == (|w: Seq<char>| w.len() > 0),
            strings_view(v@) == strings_view(parts@).take(i as int).filter(pred),
        decreases parts@.len() - i,
    {
        reveal_with_fuel(Seq::<_>::filter, 1);
        assert(strings_view(parts@).take(i + 1).drop_last() =~= strings_view(parts@).take(i as int));
        let ghost before = strings_view(v@);
        if parts[i].as_str().unicode_len() > 0 {
            v.push(parts[i].clone());
            assert(strings_view(v@) =~= before.push(parts@[i as int]@));
        } else {
            assert(strings_view(v@) =~= before);
        }
        i = i + 1;
    }
    assert(strings_view(parts@).take(parts@.len() as int) =~= strings_view(parts@));
    v
}

/// A rule with no name and no capabilities.
fn plain_rule(expr: PolicyExpr) -> (r: PolicyRule)
    ensures
        r.name is None,
        r.capabilities@.len() == 0,
        r.expr == expr,
{
    PolicyRule { name: None, expr, capabilities: Vec::new() }
}

/// Parses policy text.
pub struct PolicyParser;

impl PolicyParser {
    /// A parser.
    pub fn new() -> (p: Self) {
        PolicyParser
    }

    /// Parses one line.
    fn parse_line(&self, line: &str) -> (r: Option<Option<PolicyStmt>>)
        ensures
            match spec_line(line@) {
                None => r is None,
                Some(None) => r == Some(None::<PolicyStmt>),
                Some(Some(s)) => r matches Some(Some(st)) && stmt_view(st) == Some(s),
            },
    {
        proof {
            reveal_strlit("allow");
            reveal_strlit("deny");
            reveal_strlit("let");
            reveal_strlit("=");
        }
        let w = words(line);
        assert(strings_view(w@).len() == w@.len());
        if w.len() == 0 {
            return Some(None);
        }
        if w.len() == 2 && str_eq(w[0].as_str(), "allow") {
            assert(strings_view(w@)[0] == w@[0]@ && strings_view(w@)[1] == w@[1]@);
            return Some(Some(PolicyStmt::Allow(plain_rule(parse_atom(w[1].as_str())))));
        }
        if w.len() == 2 && str_eq(w[0].as_str(), "deny") {
            assert(strings_view(w@)[0] == w@[0]@ && strings_view(w@)[1] == w@[1]@);
            return Some(Some(PolicyStmt::Deny(plain_rule(parse_atom(w[1].as_str())))));
        }
        if w.len() == 4 && str_eq(w[0].as_str(), "let") && str_eq(w[2].as_str(), "=") {
            assert(strings_view(w@)[0] == w@[0]@ && strings_view(w@)[1] == w@[1]@);
            assert(strings_view(w@)[2] == w@[2]@ && strings_view(w@)[3] == w@[3]@);
            return Some(Some(PolicyStmt::Let(w[1].clone(), parse_atom(w[3].as_str()))));
        }
        assert(w@.len() == 2 ==> strings_view(w@)[0] == w@[0]@);
        assert(w@.len() == 4 ==> strings_view(w@)[0] == w@[0]@ && strings_view(w@)[2] == w@[2]@);
        None
    }

    /// Parses policy text line by line; refused at the first line the
    /// language does not know.
    pub fn parse(&self, input: &str) -> (r: Result<PolicyAst, CoreError>)
        ensures
            match spec_parse_lines(spec_split(input@, '\n')) {
                Ok(stmts) => r matches Ok(ast) && stmts_view(ast.statements@) == stmts.map_values(
                    |s: StmtView| Some(s),
                ),
                Err(i) => r matches Err(CoreError::ParseError { message }) && message@ == "unrecognised policy line: "@
                    + spec_split(input@, '\n')[i],
            },
    {
        let lines = split_char(input, '\n');
        let ghost lv = strings_view(lines@);
        let mut statements: Vec<PolicyStmt> = Vec::new();
        let mut i: usize = 0;
        while i < lines.len()
            invariant
                i <= lines@.len(),
                lv == strings_view(lines@),
                lv == spec_split(input@, '\n'),
                spec_parse_lines(lv.take(i as int)) matches Ok(stmts) && stmts_view(statements@) == stmts.map_values(
                    |s: StmtView| Some(s),
                ),
            decreases lines@.len() - i,
        {
            assert(lv.take(i + 1).drop_last() =~= lv.take(i as int));
            assert(lv.take(i + 1).last() == lines@[i as int]@);
            let ghost before = stmts_view(statements@);
            match self.parse_line(lines[i].as_str()) {
                None => {
                    let message = cat2("unrecognised policy line: ", lines[i].as_str());
                    proof {
                        assert(spec_parse_lines(lv.take(i + 1)) == Err::<Seq<StmtView>, int>(i as int));
                        assert(lv =~= lv.take(i + 1) + lv.skip(i + 1));
                        lemma_parse_error_stays(lv, i as int + 1);
                        assert(lv[i as int] == lines@[i as int]@);
                    }
                    return Err(CoreError::ParseError { message });
                },
                Some(None) => {},
                Some(Some(st)) => {
                    statements.push(st);
                    assert(stmts_view(statements@) =~= before.push(stmt_view(st)));
                },
            }
            i = i + 1;
            proof {
                let prev = spec_parse_lines(lv.take(i - 1)).get_Ok_0();
                assert(spec_parse_lines(lv.take(i as int)) matches Ok(stmts) && stmts_view(statements@) =~= stmts.map_values(
                    |s: StmtView| Some(s),
                ));
            }
        }
        assert(lv.take(lines@.len() as int) =~= lv);
        Ok(PolicyAst { statements })
    }
}

/// An error at a line stays the error of every longer prefix.
proof fn lemma_parse_error_stays(lines: Seq<Seq<char>>, k: int)
    requires
        0 <= k <= lines.len(),
        spec_parse_lines(lines.take(k)) is Err,
    ensures
        spec_parse_lines(lines) == spec_parse_lines(lines.take(k)),
    decreases lines.len() - k,
{
    if k < lines.len() {
        assert(lines.take(k + 1).drop_last() =~= lines.take(k));
        lemma_parse_error_stays(lines, k + 1);
    } else {
        assert(lines.take(k) =~= lines);
    }
}

impl Default for PolicyParser {
    fn default() -> (p: Self) {
        PolicyParser::new()
    }
}

} // verus!
