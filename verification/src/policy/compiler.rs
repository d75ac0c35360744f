//! Compilation of parsed policies and their evaluation against a context.
use vstd::prelude::*;
use crate::core_types::capability::{Capability, CapView, spec_cap_display};
use crate::core_types::error::{CoreError, cat2, cat4};
use crate::core_types::id::{EventId, NodeId, random_uuid, uuid_text};
use crate::core_types::text::{spec_contains, contains_str, str_eq, strings_view};
use crate::policy::lang::{CompareOp, PolicyAst, PolicyExpr, PolicyParser, PolicyStmt, StmtView, AtomView, atom_view};
use crate::policy::matcher::opt_cap_view;

verus! {

/// A policy error.
#[derive(Debug, Clone, PartialEq, Eq)]
pub enum PolicyError {
    UnknownVar { name: String },
    TypeMismatch { expected: String, actual: String },
    Runtime { message: String },
}

/// The message of a policy error.
pub open spec fn spec_policy_error_text(e: PolicyError) -> Seq<char> {
    match e {
        PolicyError::UnknownVar { name } => "Unknown variable: "@ + name@,
        PolicyError::TypeMismatch { expected, actual } => "Type mismatch: expected "@ + expected@ + ", got "@
            + actual@,
        PolicyError::Runtime { message } => "Runtime error: "@ + message@,
    }
}

impl PolicyError {
    /// The error message.
    pub fn to_string(&self) -> (s: String)
        ensures
            s@ == spec_policy_error_text(*self),
    {
        match self {
            PolicyError::UnknownVar { name } => cat2("Unknown variable: ", name.as_str()),
            PolicyError::TypeMismatch { expected, actual } => cat4(
                "Type mismatch: expected ",
                expected.as_str(),
                ", got ",
                actual.as_str(),
            ),
            PolicyError::Runtime { message } => cat2("Runtime error: ", message.as_str()),
        }
    }

    /// The core error this becomes: a validation error of field `policy`.
    pub fn into_core(&self) -> (e: CoreError)
        ensures
            e matches CoreError::Validation { field, reason } && field@ == "policy"@ && reason@
                == spec_policy_error_text(*self),
    {
        CoreError::Validation { field: "policy".to_owned(), reason: self.to_string() }
    }
}

/// A value of the policy language.
#[derive(Debug, Clone, PartialEq, Eq)]
pub enum PolicyValue {
    Bool(bool),
    String(String),
    Int(i64),
}

/// What a policy value holds, as plain values.
pub enum ValueView {
    Bool(bool),
    Str(Seq<char>),
    Int(i64),
}

impl View for PolicyValue {
    type V = ValueView;

    open spec fn view(&self) -> ValueView {
        match self {
            PolicyValue::Bool(b) => ValueView::Bool(*b),
            PolicyValue::String(s) => ValueView::Str(s@),
            PolicyValue::Int(i) => ValueView::Int(*i),
        }
    }
}

impl PolicyValue {
    /// A copy of the value.
    pub fn duplicate(&self) -> (v: PolicyValue)
        ensures
            v@ == self@,
    {
        match self {
            PolicyValue::Bool(b) => PolicyValue::Bool(*b),
            PolicyValue::String(s) => PolicyValue::String(s.clone()),
            PolicyValue::Int(i) => PolicyValue::Int(*i),
        }
    }
}

/// The value of the last entry with key `k`.
pub open spec fn spec_lookup(es: Seq<(String, PolicyValue)>, k: Seq<char>) -> Option<ValueView>
    decreases es.len(),
{
    if es.len() == 0 {
        None
    } else if es.last().0@ == k {
        Some(es.last().1@)
    } else {
        spec_lookup(es.drop_last(), k)
    }
}

/// Named policy values; setting a name again replaces its value.
#[derive(Debug)]
pub struct ValueMap {
    entries: Vec<(String, PolicyValue)>,
}

impl View for ValueMap {
    type V = Map<Seq<char>, ValueView>;

    closed spec fn view(&self) -> Map<Seq<char>, ValueView> {
        Map::new(
            |k: Seq<char>| spec_lookup(self.entries@, k) is Some,
            |k: Seq<char>| spec_lookup(self.entries@, k).unwrap(),
        )
    }
}

impl ValueMap {
    /// No names.
    pub fn new() -> (m: Self)
        ensures
            m@ == Map::<Seq<char>, ValueView>::empty(),
    {
        let m = ValueMap { entries: Vec::new() };
        assert(m@ =~= Map::<Seq<char>, ValueView>::empty());
        m
    }

    /// Sets `name` to `value`.
    pub fn insert(&mut self, name: String, value: PolicyValue)
        ensures
            final(self)@ == old(self)@.insert(name@, value@),
    {
        let ghost old_entries = self.entries@;
        self.entries.push((name, value));
        proof {
            assert(self.entries@.drop_last() =~= old_entries);
            assert(self@ =~= old(self)@.insert(name@, value@));
        }
    }

    /// The value of `name`.
    pub fn get(&self, name: &str) -> (r: Option<&PolicyValue>)
        ensures
            match r {
                Some(v) => self@.contains_key(name@) && self@[name@] == v@,
                None => !self@.contains_key(name@),
            },
    {
        let mut i: usize = self.entries.len();
        assert(self.entries@.take(i as int) =~= self.entries@);
        while i > 0
            invariant
                i <= self.entries@.len(),
                spec_lookup(self.entries@, name@) == spec_lookup(self.entries@.take(i as int), name@),
            decreases i,
        {
            assert(self.entries@.take(i as int).drop_last() =~= self.entries@.take(i - 1));
            if str_eq(self.entries[i - 1].0.as_str(), name) {
                return Some(&self.entries[i - 1].1);
            }
            i = i - 1;
        }
        assert(self.entries@.take(0) =~= Seq::<(String, PolicyValue)>::empty());
        None
    }
}

/// A compiled rule.
#[derive(Debug, PartialEq, Eq)]
pub struct CompiledRule {
    pub name: Option<String>,
    pub expr: PolicyExpr,
    /// An allow rule when true, a deny rule when false.
    pub is_allow: bool,
    pub capabilities: Vec<Capability>,
}

/// A policy ready for evaluation.
#[derive(Debug)]
pub struct CompiledPolicy {
    pub id: String,
    pub rules: Vec<CompiledRule>,
    pub vars: ValueMap,
}

/// The context a policy is evaluated in.
#[derive(Debug)]
pub struct EvalContext {
    pub node_id: Option<NodeId>,
    pub event_id: Option<EventId>,
    pub requested_capability: Option<Capability>,
    pub vars: ValueMap,
}

impl EvalContext {
    /// An empty context.
    pub fn new() -> (c: Self)
        ensures
            c.node_id is None,
            c.event_id is None,
            c.requested_capability is None,
            c.vars@ == Map::<Seq<char>, ValueView>::empty(),
    {
        EvalContext { node_id: None, event_id: None, requested_capability: None, vars: ValueMap::new() }
    }

    /// The context for node `node_id`.
    pub fn with_node(self, node_id: NodeId) -> (c: Self)
        ensures
            c == (EvalContext { node_id: Some(node_id), ..self }),
    {
        EvalContext { node_id: Some(node_id), ..self }
    }

    /// The context for event `event_id`.
    pub fn with_event(self, event_id: EventId) -> (c: Self)
        ensures
            c == (EvalContext { event_id: Some(event_id), ..self }),
    {
        EvalContext { event_id: Some(event_id), ..self }
    }

    /// The context requesting `capability`.
    pub fn with_capability(self, capability: Capability) -> (c: Self)
        ensures
            c == (EvalContext { requested_capability: Some(capability), ..self }),
    {
        EvalContext { requested_capability: Some(capability), ..self }
    }

    /// The context with variable `name` set to `value`.
    pub fn with_var(self, name: String, value: PolicyValue) -> (c: Self)
        ensures
            c.vars@ == self.vars@.insert(name@, value@),
            c.node_id == self.node_id,
            c.event_id == self.event_id,
            c.requested_capability == self.requested_capability,
    {
        let mut c = self;
        c.vars.insert(name, value);
        c
    }
}

impl Default for EvalContext {
    fn default() -> (c: Self)
        ensures
            c.node_id is None,
            c.event_id is None,
            c.requested_capability is None,
            c.vars@ == Map::<Seq<char>, ValueView>::empty(),
    {
        EvalContext::new()
    }
}

/// The outcome of evaluating a policy.
#[derive(Debug, Clone, PartialEq, Eq)]
pub struct PolicyDecision {
    pub allowed: bool,
    pub matched_rules: Vec<String>,
    pub reason: String,
}

/// The boolean a variable holds: the policy's own constant when it is a
/// boolean, else the context's variable when that is a boolean.
pub open spec fn spec_var_bool(pv: Map<Seq<char>, ValueView>, cv: Map<Seq<char>, ValueView>, n: Seq<char>) -> Option<
    bool,
> {
    if pv.contains_key(n) && pv[n] is Bool {
        Some(pv[n]->Bool_0)
    } else if cv.contains_key(n) && cv[n] is Bool {
        Some(cv[n]->Bool_0)
    } else {
        None
    }
}

/// The value an operand of a comparison stands for.
pub open spec fn spec_value(e: PolicyExpr, pv: Map<Seq<char>, ValueView>, cv: Map<Seq<char>, ValueView>) -> ValueView {
    match e {
        PolicyExpr::Bool(b) => ValueView::Bool(b),
        PolicyExpr::String(s) => ValueView::Str(s@),
        PolicyExpr::Var(n) => if pv.contains_key(n@) {
            pv[n@]
        } else if cv.contains_key(n@) {
            cv[n@]
        } else {
            ValueView::Bool(false)
        },
        _ => ValueView::Bool(false),
    }
}

/// A comparison of two values: strings and booleans compare for
/// (in)equality, integers by every operator, and anything else is false.
pub open spec fn spec_compare(op: CompareOp, l: ValueView, r: ValueView) -> bool {
    match (l, r) {
        (ValueView::Str(a), ValueView::Str(b)) => match op {
            CompareOp::Eq => a == b,
            CompareOp::Ne => a != b,
            _ => false,
        },
        (ValueView::Int(a), ValueView::Int(b)) => match op {
            CompareOp::Eq => a == b,
            CompareOp::Ne => a != b,
            CompareOp::Lt => a < b,
            CompareOp::Le => a <= b,
            CompareOp::Gt => a > b,
            CompareOp::Ge => a >= b,
        },
        (ValueView::Bool(a), ValueView::Bool(b)) => match op {
            CompareOp::Eq => a == b,
            CompareOp::Ne => a != b,
            _ => false,
        },
        _ => false,
    }
}

/// The result of a built-in function: `is_authenticated` holds,
/// `has_capability` holds when a capability is requested, and every other
/// function (`is_admin` among them) does not hold.
pub open spec fn spec_call(func: Seq<char>, cap: Option<CapView>) -> bool {
    if func == "is_authenticated"@ {
        true
    } else if func == "has_capability"@ {
        cap is Some
    } else {
        false
    }
}

/// The truth of an expression, or the name of the unknown variable that
/// stopped its evaluation; `and` and `or` evaluate their right side only
/// when the left side does not decide.
pub open spec fn spec_eval(
    e: PolicyExpr,
    pv: Map<Seq<char>, ValueView>,
    cv: Map<Seq<char>, ValueView>,
    cap: Option<CapView>,
) -> Result<bool, Seq<char>>
    decreases e,
{
    match e {
        PolicyExpr::Bool(b) => Ok(b),
        PolicyExpr::String(_) => Ok(false),
        PolicyExpr::CapabilityCheck { capability } => Ok(
            cap is Some && spec_contains(spec_cap_display(cap.unwrap()), capability@),
        ),
        PolicyExpr::And(l, r) => match spec_eval(*l, pv, cv, cap) {
            Err(x) => Err(x),
            Ok(false) => Ok(false),
            Ok(true) => spec_eval(*r, pv, cv, cap),
        },
        PolicyExpr::Or(l, r) => match spec_eval(*l, pv, cv, cap) {
            Err(x) => Err(x),
            Ok(true) => Ok(true),
            Ok(false) => spec_eval(*r, pv, cv, cap),
        },
        PolicyExpr::Not(i) => match spec_eval(*i, pv, cv, cap) {
            Err(x) => Err(x),
            Ok(b) => Ok(!b),
        },
        PolicyExpr::Var(n) => match spec_var_bool(pv, cv, n@) {
            Some(b) => Ok(b),
            None => Err(n@),
        },
        PolicyExpr::Compare { op, left, right } => Ok(
            spec_compare(op, spec_value(*left, pv, cv), spec_value(*right, pv, cv)),
        ),
        PolicyExpr::Call { func, .. } => Ok(spec_call(func@, cap)),
    }
}

/// Integer comparisons follow the order of the integers, left operand
/// first: `<` holds exactly when the left value is the smaller, `>` when it
/// is the larger, `<=` and `>=` are their negations with the operands
/// swapped, and `==` / `!=` test equality.
pub proof fn lemma_compare_integers(a: i64, b: i64)
    ensures
        spec_compare(CompareOp::Lt, ValueView::Int(a), ValueView::Int(b)) <==> a < b,
        spec_compare(CompareOp::Gt, ValueView::Int(a), ValueView::Int(b)) <==> b < a,
        spec_compare(CompareOp::Le, ValueView::Int(a), ValueView::Int(b)) <==> !(b < a),
        spec_compare(CompareOp::Ge, ValueView::Int(a), ValueView::Int(b)) <==> !(a < b),
        spec_compare(CompareOp::Eq, ValueView::Int(a), ValueView::Int(b)) <==> a == b,
        spec_compare(CompareOp::Ne, ValueView::Int(a), ValueView::Int(b)) <==> a != b,
        spec_compare(CompareOp::Lt, ValueView::Int(a), ValueView::Int(b)) <==> spec_compare(
            CompareOp::Gt,
            ValueView::Int(b),
            ValueView::Int(a),
        ),
{
}

/// Texts and booleans compare only for equality: `==` and `!=` test it and
/// the order comparisons are false; values of different kinds never compare.
pub proof fn lemma_compare_other_values(op: CompareOp, a: ValueView, b: ValueView)
    ensures
        (a is Str && b is Str) || (a is Bool && b is Bool) ==> (spec_compare(op, a, b) <==> (op == CompareOp::Eq
            && a == b || op == CompareOp::Ne && a != b)),
        !(a is Str && b is Str) && !(a is Bool && b is Bool) && !(a is Int && b is Int) ==> !spec_compare(op, a, b),
{
}

/// A policy of one allow rule comparing two integer operands with `<`
/// allows exactly when the left value is smaller, and then records the
/// rule as matched; otherwise nothing matches.
pub proof fn lemma_allow_when_less(
    r: CompiledRule,
    left: Box<PolicyExpr>,
    right: Box<PolicyExpr>,
    pv: Map<Seq<char>, ValueView>,
    cv: Map<Seq<char>, ValueView>,
    cap: Option<CapView>,
    a: i64,
    b: i64,
)
    requires
        r.is_allow,
        r.expr == (PolicyExpr::Compare { op: CompareOp::Lt, left, right }),
        spec_value(*left, pv, cv) == ValueView::Int(a),
        spec_value(*right, pv, cv) == ValueView::Int(b),
    ensures
        a < b ==> spec_eval_rules(seq![r], pv, cv, cap) == EvalState::Running(true, seq![rule_label(r)]),
        !(a < b) ==> spec_eval_rules(seq![r], pv, cv, cap) == EvalState::Running(false, Seq::<Seq<char>>::empty()),
{
    let rs = seq![r];
    assert(rs.drop_last() =~= Seq::<CompiledRule>::empty());
    assert(rs.last() == r);
    lemma_compare_integers(a, b);
    assert(spec_eval_rules(rs.drop_last(), pv, cv, cap) == EvalState::Running(false, Seq::<Seq<char>>::empty()));
    assert(spec_eval(r.expr, pv, cv, cap) == Ok::<bool, Seq<char>>(a < b));
    assert(Seq::<Seq<char>>::empty().push(rule_label(r)) =~= seq![rule_label(r)]);
}

/// Where evaluating the rules stands: stopped by an unknown variable,
/// stopped by a deny rule, or still running with the allow flag.
pub enum EvalState {
    Failed(Seq<char>),
    Denied(Seq<Seq<char>>),
    Running(bool, Seq<Seq<char>>),
}

/// The name recorded for a matched rule.
pub open spec fn rule_label(r: CompiledRule) -> Seq<char> {
    match r.name {
        Some(n) => n@,
        None => "unnamed"@,
    }
}

/// Evaluating the rules in order: a matching deny rule stops with a denial,
/// a matching allow rule allows.
pub open spec fn spec_eval_rules(
    rules: Seq<CompiledRule>,
    pv: Map<Seq<char>, ValueView>,
    cv: Map<Seq<char>, ValueView>,
    cap: Option<CapView>,
) -> EvalState
    decreases rules.len(),
{
    if rules.len() == 0 {
        EvalState::Running(false, Seq::empty())
    } else {
        match spec_eval_rules(rules.drop_last(), pv, cv, cap) {
            EvalState::Failed(x) => EvalState::Failed(x),
            EvalState::Denied(m) => EvalState::Denied(m),
            EvalState::Running(a, m) => {
                let r = rules.last();
                match spec_eval(r.expr, pv, cv, cap) {
                    Err(x) => EvalState::Failed(x),
                    Ok(false) => EvalState::Running(a, m),
                    Ok(true) => if r.is_allow {
                        EvalState::Running(true, m.push(rule_label(r)))
                    } else {
                        EvalState::Denied(m.push(rule_label(r)))
                    },
                }
            },
        }
    }
}

/// Whether the decision is the one the evaluation state gives.
pub open spec fn decision_is(d: PolicyDecision, st: EvalState) -> bool {
    match st {
        EvalState::Failed(_) => false,
        EvalState::Denied(m) => !d.allowed && strings_view(d.matched_rules@) == m && d.reason@ == "Deny rule matched"@,
        EvalState::Running(a, m) => d.allowed == a && strings_view(d.matched_rules@) == m && d.reason@ == (if a {
            "Allowed by policy"@
        } else {
            "No matching allow rule"@
        }),
    }
}

/// Whether some allow rule that holds grants a capability equal to `c`.
pub open spec fn spec_grants(
    rules: Seq<CompiledRule>,
    pv: Map<Seq<char>, ValueView>,
    cv: Map<Seq<char>, ValueView>,
    cap: Option<CapView>,
    c: CapView,
) -> bool {
    exists|i: int|
        0 <= i < rules.len() && #[trigger] rules[i].is_allow && (exists|j: int|
            0 <= j < rules[i].capabilities@.len() && #[trigger] rules[i].capabilities@[j]@ == c) && spec_eval(
            rules[i].expr,
            pv,
            cv,
            cap,
        ) == Ok::<bool, Seq<char>>(true)
}

impl CompiledPolicy {
    /// The value an operand stands for.
    fn eval_to_value(&self, expr: &PolicyExpr, ctx: &EvalContext) -> (v: PolicyValue)
        ensures
            v@ == spec_value(*expr, self.vars@, ctx.vars@),
    {
        match expr {
            PolicyExpr::Bool(b) => PolicyValue::Bool(*b),
            PolicyExpr::String(s) => PolicyValue::String(s.clone()),
            PolicyExpr::Var(name) => {
                match self.vars.get(name.as_str()) {
                    Some(val) => val.duplicate(),
                    None => match ctx.vars.get(name.as_str()) {
                        Some(val) => val.duplicate(),
                        None => PolicyValue::Bool(false),
                    },
                }
            },
            _ => PolicyValue::Bool(false),
        }
    }

    /// Compares two operands.
    fn eval_compare(&self, op: CompareOp, left: &PolicyExpr, right: &PolicyExpr, ctx: &EvalContext) -> (r: bool)
        ensures
            r == spec_compare(op, spec_value(*left, self.vars@, ctx.vars@), spec_value(*right, self.vars@, ctx.vars@)),
    {
        let l = self.eval_to_value(left, ctx);
        let r = self.eval_to_value(right, ctx);
        match (l, r) {
            (PolicyValue::String(a), PolicyValue::String(b)) => match op {
                CompareOp::Eq => str_eq(a.as_str(), b.as_str()),
                CompareOp::Ne => !str_eq(a.as_str(), b.as_str()),
                _ => false,
            },
            (PolicyValue::Int(a), PolicyValue::Int(b)) => match op {
                CompareOp::Eq => a == b,
                CompareOp::Ne => a != b,
                CompareOp::Lt => a < b,
                CompareOp::Le => a <= b,
                CompareOp::Gt => a > b,
                CompareOp::Ge => a >= b,
            },
            (PolicyValue::Bool(a), PolicyValue::Bool(b)) => match op {
                CompareOp::Eq => a == b,
                CompareOp::Ne => a != b,
                _ => false,
            },
            _ => false,
        }
    }

    /// Runs a built-in function.
    fn eval_call(&self, func: &str, args: &[PolicyExpr], ctx: &EvalContext) -> (r: bool)
        ensures
            r == spec_call(func@, opt_cap_view(ctx.requested_capability)),
    {
        proof {
            reveal_strlit("is_authenticated");
            reveal_strlit("has_capability");
        }
        if str_eq(func, "is_authenticated") {
            true
        } else if str_eq(func, "has_capability") {
            match &ctx.requested_capability {
                Some(_) => true,
                None => false,
            }
        } else {
            false
        }
    }

    /// Evaluates an expression.
    fn eval_expr(&self, expr: &PolicyExpr, ctx: &EvalContext) -> (r: Result<bool, CoreError>)
        ensures
            match spec_eval(*expr, self.vars@, ctx.vars@, opt_cap_view(ctx.requested_capability)) {
                Ok(b) => r == Ok::<bool, CoreError>(b),
                Err(n) => r matches Err(CoreError::Validation { field, reason }) && field@ == "policy"@ && reason@
                    == "Unknown variable: "@ + n,
            },
        decreases expr,
    {
        match expr {
            PolicyExpr::Bool(b) => Ok(*b),
            PolicyExpr::String(_) => Ok(false),
            PolicyExpr::CapabilityCheck { capability } => {
                match &ctx.requested_capability {
                    Some(req) => {
                        let text = req.to_string();
                        Ok(contains_str(text.as_str(), capability.as_str()))
                    },
                    None => Ok(false),
                }
            },
            PolicyExpr::And(left, right) => {
                let l = match self.eval_expr(left, ctx) {
                    Ok(b) => b,
                    Err(e) => {
                        return Err(e);
                    },
                };
                if !l {
                    return Ok(false);
                }
                self.eval_expr(right, ctx)
            },
            PolicyExpr::Or(left, right) => {
                let l = match self.eval_expr(left, ctx) {
                    Ok(b) => b,
                    Err(e) => {
                        return Err(e);
                    },
                };
                if l {
                    return Ok(true);
                }
                self.eval_expr(right, ctx)
            },
            PolicyExpr::Not(inner) => {
                match self.eval_expr(inner, ctx) {
                    Ok(b) => Ok(!b),
                    Err(e) => Err(e),
                }
            },
            PolicyExpr::Var(name) => {
                match self.vars.get(name.as_str()) {
                    Some(PolicyValue::Bool(b)) => {
                        return Ok(*b);
                    },
                    _ => {},
                }
                match ctx.vars.get(name.as_str()) {
                    Some(PolicyValue::Bool(b)) => Ok(*b),
                    _ => Err(PolicyError::UnknownVar { name: name.clone() }.into_core()),
                }
            },
            PolicyExpr::Compare { op, left, right } => Ok(self.eval_compare(*op, left, right, ctx)),
            PolicyExpr::Call { func, args } => Ok(self.eval_call(func.as_str(), args.as_slice(), ctx)),
        }
    }

    /// Evaluates the rules in order: a matching deny rule denies at once; a
    /// matching allow rule allows unless a later deny rule matches.
    pub fn evaluate(&self, ctx: &EvalContext) -> (r: Result<PolicyDecision, CoreError>)
        ensures
            match spec_eval_rules(self.rules@, self.vars@, ctx.vars@, opt_cap_view(ctx.requested_capability)) {
                EvalState::Failed(n) => r matches Err(CoreError::Validation { field, reason }) && field@ == "policy"@
                    && reason@ == "Unknown variable: "@ + n,
                st => r matches Ok(d) && decision_is(d, st),
            },
    {
        let ghost cap = opt_cap_view(ctx.requested_capability);
        let mut allowed = false;
        let mut matched_rules: Vec<String> = Vec::new();
        let mut i: usize = 0;
        assert(self.rules@.take(0) =~= Seq::<CompiledRule>::empty());
        assert(strings_view(matched_rules@) =~= Seq::<Seq<char>>::empty());
        while i < self.rules.len()
            invariant
                i <= self.rules@.len(),
                cap == opt_cap_view(ctx.requested_capability),
                spec_eval_rules(self.rules@.take(i as int), self.vars@, ctx.vars@, cap) == EvalState::Running(
                    allowed,
                    strings_view(matched_rules@),
                ),
            decreases self.rules@.len() - i,
        {
            assert(self.rules@.take(i + 1).drop_last() =~= self.rules@.take(i as int));
            let rule = &self.rules[i];
            let result = match self.eval_expr(&rule.expr, ctx) {
                Ok(b) => b,
                Err(e) => {
                    proof {
                        lemma_eval_rules_stops(self.rules@, self.vars@, ctx.vars@, cap, i as int + 1);
                    }
                    return Err(e);
                },
            };
            if result {
                let ghost before = strings_view(matched_rules@);
                let label = match &rule.name {
                    Some(n) => n.clone(),
                    None => "unnamed".to_owned(),
                };
                matched_rules.push(label);
                assert(strings_view(matched_rules@) =~= before.push(rule_label(*rule)));
                if !rule.is_allow {
                    proof {
                        lemma_eval_rules_stops(self.rules@, self.vars@, ctx.vars@, cap, i as int + 1);
                    }
                    return Ok(PolicyDecision {
                        allowed: false,
                        matched_rules,
                        reason: "Deny rule matched".to_owned(),
                    });
                }
                allowed = true;
            }
            i = i + 1;
        }
        assert(self.rules@.take(self.rules@.len() as int) =~= self.rules@);
        let reason = if allowed {
            "Allowed by policy".to_owned()
        } else {
            "No matching allow rule".to_owned()
        };
        Ok(PolicyDecision { allowed, matched_rules, reason })
    }

    /// Evaluates the policy and allows only when, besides, some allow rule
    /// that holds grants `capability`.
    pub fn check_capability(&self, ctx: &EvalContext, capability: &Capability) -> (r: Result<PolicyDecision, CoreError>)
        ensures
            match spec_eval_rules(self.rules@, self.vars@, ctx.vars@, opt_cap_view(ctx.requested_capability)) {
                EvalState::Failed(n) => r matches Err(CoreError::Validation { field, reason }) && field@ == "policy"@
                    && reason@ == "Unknown variable: "@ + n,
                st => r matches Ok(d) && exists|d0: PolicyDecision|
                    decision_is(d0, st) && d.allowed == (d0.allowed && spec_grants(
                        self.rules@,
                        self.vars@,
                        ctx.vars@,
                        opt_cap_view(ctx.requested_capability),
                        capability@,
                    )) && d.matched_rules == d0.matched_rules && d.reason == d0.reason,
            },
    {
        let decision = match self.evaluate(ctx) {
            Ok(d) => d,
            Err(e) => {
                return Err(e);
            },
        };
        let ghost cap = opt_cap_view(ctx.requested_capability);
        let mut has_capability = false;
        let mut i: usize = 0;
        while i < self.rules.len()
            invariant
                i <= self.rules@.len(),
                cap == opt_cap_view(ctx.requested_capability),
                !has_capability ==> forall|k: int|
                    0 <= k < i ==> !(#[trigger] self.rules@[k].is_allow && (exists|j: int|
                        0 <= j < self.rules@[k].capabilities@.len() && #[trigger] self.rules@[k].capabilities@[j]@
                            == capability@) && spec_eval(self.rules@[k].expr, self.vars@, ctx.vars@, cap) == Ok::<
                        bool,
                        Seq<char>,
                    >(true)),
                has_capability ==> spec_grants(self.rules@, self.vars@, ctx.vars@, cap, capability@),
            decreases self.rules@.len() - i,
        {
            let rule = &self.rules[i];
            if rule.is_allow && !has_capability {
                let mut found = false;
                let mut j: usize = 0;
                while j < rule.capabilities.len()
                    invariant
                        j <= rule.capabilities@.len(),
                        found == exists|k: int| 0 <= k < j && #[trigger] rule.capabilities@[k]@ == capability@,
                    decreases rule.capabilities@.len() - j,
                {
                    if rule.capabilities[j].same_as(capability) {
                        found = true;
                    }
                    j = j + 1;
                }
                if found {
                    let holds = match self.eval_expr(&rule.expr, ctx) {
                        Ok(b) => b,
                        Err(_) => false,
                    };
                    if holds {
                        has_capability = true;
                    }
                }
            }
            i = i + 1;
        }
        Ok(PolicyDecision {
            allowed: decision.allowed && has_capability,
            matched_rules: decision.matched_rules,
            reason: decision.reason,
        })
    }
}

/// Once the evaluation stops, further rules do not change the outcome.
proof fn lemma_eval_rules_stops(
    rules: Seq<CompiledRule>,
    pv: Map<Seq<char>, ValueView>,
    cv: Map<Seq<char>, ValueView>,
    cap: Option<CapView>,
    k: int,
)
    requires
        0 <= k <= rules.len(),
        !(spec_eval_rules(rules.take(k), pv, cv, cap) is Running),
    ensures
        spec_eval_rules(rules, pv, cv, cap) == spec_eval_rules(rules.take(k), pv, cv, cap),
    decreases rules.len() - k,
{
    if k < rules.len() {
        assert(rules.take(k + 1).drop_last() =~= rules.take(k));
        lemma_eval_rules_stops(rules, pv, cv, cap, k + 1);
    } else {
        assert(rules.take(k) =~= rules);
    }
}

/// The rule a statement compiles to, if it is a rule.
pub open spec fn rule_of(s: PolicyStmt) -> Option<CompiledRule> {
    match s {
        PolicyStmt::Allow(r) => Some(
            CompiledRule { name: r.name, expr: r.expr, is_allow: true, capabilities: r.capabilities },
        ),
        PolicyStmt::Deny(r) => Some(
            CompiledRule { name: r.name, expr: r.expr, is_allow: false, capabilities: r.capabilities },
        ),
        PolicyStmt::Let(..) => None,
    }
}

/// The rules of the statements, in order.
pub open spec fn spec_rules(stmts: Seq<PolicyStmt>) -> Seq<CompiledRule>
    decreases stmts.len(),
{
    if stmts.len() == 0 {
        Seq::empty()
    } else {
        match rule_of(stmts.last()) {
            Some(r) => spec_rules(stmts.drop_last()).push(r),
            None => spec_rules(stmts.drop_last()),
        }
    }
}

/// The value a constant definition binds: booleans and strings as they
/// are, anything else as `false`.
pub open spec fn let_value(e: PolicyExpr) -> ValueView {
    match e {
        PolicyExpr::Bool(b) => ValueView::Bool(b),
        PolicyExpr::String(s) => ValueView::Str(s@),
        _ => ValueView::Bool(false),
    }
}

/// The constants the statements define; later definitions replace earlier ones.
pub open spec fn spec_vars(stmts: Seq<PolicyStmt>) -> Map<Seq<char>, ValueView>
    decreases stmts.len(),
{
    if stmts.len() == 0 {
        Map::empty()
    } else {
        match stmts.last() {
            PolicyStmt::Let(n, e) => spec_vars(stmts.drop_last()).insert(n@, let_value(e)),
            _ => spec_vars(stmts.drop_last()),
        }
    }
}

/// Compiles parsed policies.
pub struct PolicyCompiler;

impl PolicyCompiler {
    /// A compiler.
    pub fn new() -> (c: Self) {
        PolicyCompiler
    }

    /// Compiles a policy: its rules in order, its constants, and a fresh
    /// random identifier.
    pub fn compile(&self, ast: PolicyAst) -> (r: Result<CompiledPolicy, CoreError>)
        ensures
            r matches Ok(p) && p.rules@ == spec_rules(ast.statements@) && p.vars@ == spec_vars(ast.statements@),
    {
        let ghost stmts = ast.statements@;
        let mut rules: Vec<CompiledRule> = Vec::new();
        let mut vars = ValueMap::new();
        let mut statements = ast.statements;
        let n = statements.len();
        let mut i: usize = 0;
        assert(stmts.skip(0) =~= stmts);
        while statements.len() > 0
            invariant
                n == stmts.len(),
                statements@ == stmts.skip(i as int),
                i <= stmts.len(),
                rules@ == spec_rules(stmts.take(i as int)),
                vars@ == spec_vars(stmts.take(i as int)),
            decreases statements@.len(),
        {
            let stmt = statements.remove(0);
            proof {
                assert(stmts[i as int] == stmt);
                assert(statements@ =~= stmts.skip(i + 1));
                assert(stmts.take(i + 1).drop_last() =~= stmts.take(i as int));
                assert(stmts.take(i + 1).last() == stmt);
            }
            match stmt {
                PolicyStmt::Allow(rule) => {
                    rules.push(
                        CompiledRule { name: rule.name, expr: rule.expr, is_allow: true, capabilities: rule.capabilities },
                    );
                },
                PolicyStmt::Deny(rule) => {
                    rules.push(
                        CompiledRule { name: rule.name, expr: rule.expr, is_allow: false, capabilities: rule.capabilities },
                    );
                },
                PolicyStmt::Let(name, expr) => {
                    match expr {
                        PolicyExpr::Bool(b) => vars.insert(name, PolicyValue::Bool(b)),
                        PolicyExpr::String(s) => vars.insert(name, PolicyValue::String(s)),
                        _ => vars.insert(name, PolicyValue::Bool(false)),
                    }
                },
            }
            i = i + 1;
        }
        assert(stmts.take(i as int) =~= stmts);
        let id = uuid_text(random_uuid());
        Ok(CompiledPolicy { id, rules, vars })
    }

    /// Parses and compiles policy text: its rules are those of the parsed
    /// statements that are not constant definitions, in order, each an
    /// allow or deny rule with the statement's one-word expression, no name
    /// and no capabilities.
    pub fn compile_from_source(&self, source: &str) -> (r: Result<CompiledPolicy, CoreError>)
        ensures
            match crate::policy::lang::spec_parse_lines(crate::core_types::text::spec_split(source@, '\n')) {
                Ok(stmts) => r matches Ok(p) && p.rules@.map_values(|c: CompiledRule| rule_shape(c)) == shapes_of(
                    stmts,
                ),
                Err(_) => r matches Err(CoreError::ParseError { .. }),
            },
    {
        let parser = PolicyParser::new();
        let ast = match parser.parse(source) {
            Ok(a) => a,
            Err(e) => {
                return Err(e);
            },
        };
        let ghost sts = ast.statements@;
        let r = self.compile(ast);
        proof {
            let stmts = crate::policy::lang::spec_parse_lines(crate::core_types::text::spec_split(source@, '\n')).get_Ok_0();
            lemma_rules_shape(sts, stmts);
        }
        r
    }
}

/// The plain shape of a compiled rule: whether it allows, its expression as
/// a word's value, whether it is unnamed, and how many capabilities it grants.
pub open spec fn rule_shape(r: CompiledRule) -> (bool, Option<AtomView>, bool, nat) {
    (r.is_allow, atom_view(r.expr), r.name is None, r.capabilities@.len())
}

/// The shapes of the rules that parsed statements compile to, in order: one
/// per allow or deny statement, unnamed and granting nothing.
pub open spec fn shapes_of(views: Seq<StmtView>) -> Seq<(bool, Option<AtomView>, bool, nat)>
    decreases views.len(),
{
    if views.len() == 0 {
        Seq::empty()
    } else {
        match views.last() {
            StmtView::Allow(a) => shapes_of(views.drop_last()).push((true, Some(a), true, 0nat)),
            StmtView::Deny(a) => shapes_of(views.drop_last()).push((false, Some(a), true, 0nat)),
            StmtView::Let(..) => shapes_of(views.drop_last()),
        }
    }
}

/// The rules of parsed statements have the shapes of their views.
proof fn lemma_rules_shape(sts: Seq<PolicyStmt>, views: Seq<StmtView>)
    requires
        crate::policy::lang::stmts_view(sts) == views.map_values(|s: StmtView| Some(s)),
    ensures
        spec_rules(sts).map_values(|c: CompiledRule| rule_shape(c)) == shapes_of(views),
    decreases sts.len(),
{
    assert(sts.len() == views.len()) by {
        assert(crate::policy::lang::stmts_view(sts).len() == sts.len());
    }
    if sts.len() == 0 {
        assert(spec_rules(sts).map_values(|c: CompiledRule| rule_shape(c)) =~= Seq::empty());
    } else {
        assert(crate::policy::lang::stmts_view(sts.drop_last()) =~= views.drop_last().map_values(
            |s: StmtView| Some(s),
        )) by {
            assert forall|k: int| 0 <= k < sts.len() - 1 implies crate::policy::lang::stmts_view(sts.drop_last())[k]
                == views.drop_last().map_values(|s: StmtView| Some(s))[k] by {
                assert(crate::policy::lang::stmts_view(sts)[k] == views.map_values(|s: StmtView| Some(s))[k]);
            }
        }
        lemma_rules_shape(sts.drop_last(), views.drop_last());
        assert(crate::policy::lang::stmts_view(sts)[sts.len() - 1] == Some(views.last()));
        let prev = spec_rules(sts.drop_last());
        match rule_of(sts.last()) {
            Some(c) => {
                assert(spec_rules(sts).map_values(|c: CompiledRule| rule_shape(c)) =~= prev.map_values(
                    |c: CompiledRule| rule_shape(c),
                ).push(rule_shape(c)));
            },
            None => {},
        }
    }
}

impl Default for PolicyCompiler {
    fn default() -> (c: Self) {
        PolicyCompiler::new()
    }
}

} // verus!
