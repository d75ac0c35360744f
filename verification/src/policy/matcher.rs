//! Matching of policy patterns against a context of variables and a
//! requested capability.
use vstd::prelude::*;
use crate::core_types::capability::{Capability, CapView, spec_cap_display};
use crate::core_types::strmap::StrMap;
use crate::core_types::text::{spec_contains, contains_str, str_eq, to_owned_string};

verus! {

/// The variables and the requested capability a pattern is matched against.
#[derive(Debug)]
pub struct MatchContext {
    pub vars: StrMap,
    pub capability: Option<Capability>,
}

/// The plain value of an optional capability.
pub open spec fn opt_cap_view(c: Option<Capability>) -> Option<CapView> {
    match c {
        Some(x) => Some(x@),
        None => None,
    }
}

impl MatchContext {
    /// No variables and no capability.
    pub fn new() -> (c: Self)
        ensures
            c.vars@ == Map::<Seq<char>, Seq<char>>::empty(),
            c.capability is None,
    {
        MatchContext { vars: StrMap::new(), capability: None }
    }

    /// The context with variable `key` set to `value`.
    pub fn with_var(self, key: String, value: String) -> (c: Self)
        ensures
            c.vars@ == self.vars@.insert(key@, value@),
            c.capability == self.capability,
    {
        let mut c = self;
        c.vars.insert(key, value);
        c
    }

    /// The context with `capability` requested.
    pub fn with_capability(self, capability: Capability) -> (c: Self)
        ensures
            c.vars == self.vars,
            c.capability == Some(capability),
    {
        MatchContext { vars: self.vars, capability: Some(capability) }
    }
}

impl Default for MatchContext {
    fn default() -> (c: Self)
        ensures
            c.vars@ == Map::<Seq<char>, Seq<char>>::empty(),
            c.capability is None,
    {
        MatchContext::new()
    }
}

/// Whether a pattern matched, with the variables it captured.
#[derive(Debug)]
pub struct MatchResult {
    pub matched: bool,
    pub captures: StrMap,
}

impl MatchResult {
    /// A result without captures.
    pub fn new(matched: bool) -> (r: Self)
        ensures
            r.matched == matched,
            r.captures@ == Map::<Seq<char>, Seq<char>>::empty(),
    {
        MatchResult { matched, captures: StrMap::new() }
    }

    /// The result with capture `key` set to `value`.
    pub fn with_capture(self, key: String, value: String) -> (r: Self)
        ensures
            r.matched == self.matched,
            r.captures@ == self.captures@.insert(key@, value@),
    {
        let mut r = self;
        r.captures.insert(key, value);
        r
    }

    /// The result with every capture of `captures` added.
    fn with_captures(self, captures: StrMap) -> (r: Self)
        ensures
            r.matched == self.matched,
            r.captures@ == self.captures@.union_prefer_right(captures@),
    {
        let mut r = self;
        r.captures.extend_from(&captures);
        r
    }

    /// Whether the pattern matched.
    pub fn is_matched(&self) -> (b: bool)
        ensures
            b == self.matched,
    {
        self.matched
    }
}

/// Whether `pattern` matches: `*` always; `$name` when variable `name` is
/// set; any other text when it occurs in the requested capability's text
/// or in the value of some variable.
pub open spec fn spec_pattern_matches(
    pattern: Seq<char>,
    vars: Map<Seq<char>, Seq<char>>,
    cap: Option<CapView>,
) -> bool {
    if pattern == "*"@ {
        true
    } else if pattern.len() > 0 && pattern[0] == '$' {
        vars.contains_key(pattern.skip(1))
    } else {
        ||| (cap is Some && spec_contains(spec_cap_display(cap.unwrap()), pattern))
        ||| exists|k: Seq<char>| #[trigger] vars.contains_key(k) && spec_contains(vars[k], pattern)
    }
}

/// What a matching pattern captures: the variable a `$name` pattern names.
pub open spec fn spec_pattern_captures(pattern: Seq<char>, vars: Map<Seq<char>, Seq<char>>) -> Map<
    Seq<char>,
    Seq<char>,
> {
    if pattern != "*"@ && pattern.len() > 0 && pattern[0] == '$' && vars.contains_key(pattern.skip(1)) {
        Map::<Seq<char>, Seq<char>>::empty().insert(pattern.skip(1), vars[pattern.skip(1)])
    } else {
        Map::empty()
    }
}

/// The texts of a list of patterns.
pub open spec fn patterns_view(ps: Seq<&str>) -> Seq<Seq<char>> {
    ps.map_values(|p: &str| p@)
}

/// The captures of the patterns, later ones overriding earlier ones.
pub open spec fn spec_all_captures(ps: Seq<Seq<char>>, vars: Map<Seq<char>, Seq<char>>) -> Map<Seq<char>, Seq<char>>
    decreases ps.len(),
{
    if ps.len() == 0 {
        Map::empty()
    } else {
        spec_all_captures(ps.drop_last(), vars).union_prefer_right(spec_pattern_captures(ps.last(), vars))
    }
}

/// Matches patterns against a context.
pub struct Matcher;

impl Matcher {
    /// A matcher.
    pub fn new() -> (m: Self) {
        Matcher
    }

    /// Matches one pattern.
    pub fn match_pattern(&self, pattern: &str, ctx: &MatchContext) -> (r: Result<MatchResult, crate::core_types::error::CoreError>)
        ensures
            r matches Ok(m) && m.matched == spec_pattern_matches(pattern@, ctx.vars@, opt_cap_view(ctx.capability))
                && m.captures@ == spec_pattern_captures(pattern@, ctx.vars@),
    {
        proof {
            reveal_strlit("*");
        }
        if str_eq(pattern, "*") {
            return Ok(MatchResult::new(true));
        }
        let n = pattern.unicode_len();
        if n > 0 && pattern.get_char(0) == '$' {
            let var_name = pattern.substring_char(1, n);
            assert(var_name@ =~= pattern@.skip(1));
            match ctx.vars.get(var_name) {
                Some(value) => {
                    let r = MatchResult::new(true).with_capture(to_owned_string(var_name), value.clone());
                    return Ok(r);
                },
                None => {
                    return Ok(MatchResult::new(false));
                },
            }
        }
        match &ctx.capability {
            Some(cap) => {
                let text = cap.to_string();
                if contains_str(text.as_str(), pattern) {
                    return Ok(MatchResult::new(true));
                }
            },
            None => {},
        }
        let count = ctx.vars.len();
        let mut i: usize = 0;
        while i < count
            invariant
                count == ctx.vars.key_seq().len(),
                i <= count,
                pattern@ != "*"@,
                !(pattern@.len() > 0 && pattern@[0] == '$'),
                forall|j: int| 0 <= j < i ==> !spec_contains(
                    #[trigger] ctx.vars@[ctx.vars.key_seq()[j]],
                    pattern@,
                ),
            decreases count - i,
        {
            let (k, v) = ctx.vars.entry_at(i);
            if contains_str(v.as_str(), pattern) {
                assert(ctx.vars@.contains_key(k@) && spec_contains(ctx.vars@[k@], pattern@));
                return Ok(MatchResult::new(true));
            }
            i = i + 1;
        }
        proof {
            ctx.vars.lemma_key_domain();
            assert forall|k: Seq<char>| #[trigger] ctx.vars@.contains_key(k) implies !spec_contains(ctx.vars@[k], pattern@) by {
                let j = choose|j: int| 0 <= j < ctx.vars.key_seq().len() && ctx.vars.key_seq()[j] == k;
                assert(!spec_contains(ctx.vars@[ctx.vars.key_seq()[j]], pattern@));
            }
        }
        Ok(MatchResult::new(false))
    }

    /// Matches when every pattern matches, with all their captures.
    pub fn match_all(&self, patterns: &[&str], ctx: &MatchContext) -> (r: Result<MatchResult, crate::core_types::error::CoreError>)
        ensures
            r matches Ok(m) && {
                let all = forall|i: int| 0 <= i < patterns@.len() ==> #[trigger] spec_pattern_matches(
                    patterns@[i]@,
                    ctx.vars@,
                    opt_cap_view(ctx.capability),
                );
                &&& m.matched == all
                &&& m.captures@ == (if all {
                    spec_all_captures(patterns_view(patterns@), ctx.vars@)
                } else {
                    Map::empty()
                })
            },
    {
        let mut all_captures = StrMap::new();
        let mut i: usize = 0;
        while i < patterns.len()
            invariant
                i <= patterns@.len(),
                forall|j: int| 0 <= j < i ==> #[trigger] spec_pattern_matches(
                    patterns@[j]@,
                    ctx.vars@,
                    opt_cap_view(ctx.capability),
                ),
                all_captures@ == spec_all_captures(patterns_view(patterns@).take(i as int), ctx.vars@),
            decreases patterns@.len() - i,
        {
            let result = match self.match_pattern(patterns[i], ctx) {
                Ok(m) => m,
                Err(e) => {
                    return Err(e);
                },
            };
            if !result.matched {
                return Ok(MatchResult::new(false));
            }
            all_captures.extend_from(&result.captures);
            proof {
                let pv = patterns_view(patterns@);
                assert(pv.take(i + 1).drop_last() =~= pv.take(i as int));
                assert(pv.take(i + 1).last() == patterns@[i as int]@);
            }
            i = i + 1;
        }
        assert(patterns_view(patterns@).take(patterns@.len() as int) =~= patterns_view(patterns@));
        let r = MatchResult::new(true).with_captures(all_captures);
        assert(r.captures@ =~= spec_all_captures(patterns_view(patterns@), ctx.vars@));
        Ok(r)
    }

    /// The result of the first pattern that matches, or no match.
    pub fn match_any(&self, patterns: &[&str], ctx: &MatchContext) -> (r: Result<MatchResult, crate::core_types::error::CoreError>)
        ensures
            r matches Ok(m) && ({
                if exists|i: int| 0 <= i < patterns@.len() && #[trigger] spec_pattern_matches(
                    patterns@[i]@,
                    ctx.vars@,
                    opt_cap_view(ctx.capability),
                ) {
                    exists|i: int|
                        0 <= i < patterns@.len() && (forall|j: int| 0 <= j < i ==> !#[trigger] spec_pattern_matches(
                            patterns@[j]@,
                            ctx.vars@,
                            opt_cap_view(ctx.capability),
                        )) && spec_pattern_matches(patterns@[i]@, ctx.vars@, opt_cap_view(ctx.capability))
                            && m.matched && m.captures@ == spec_pattern_captures(#[trigger] patterns@[i]@, ctx.vars@)
                } else {
                    !m.matched && m.captures@ == Map::<Seq<char>, Seq<char>>::empty()
                }
            }),
    {
        let mut i: usize = 0;
        while i < patterns.len()
            invariant
                i <= patterns@.len(),
                forall|j: int| 0 <= j < i ==> !#[trigger] spec_pattern_matches(
                    patterns@[j]@,
                    ctx.vars@,
                    opt_cap_view(ctx.capability),
                ),
            decreases patterns@.len() - i,
        {
            let result = match self.match_pattern(patterns[i], ctx) {
                Ok(m) => m,
                Err(e) => {
                    return Err(e);
                },
            };
            if result.matched {
                assert(spec_pattern_matches(patterns@[i as int]@, ctx.vars@, opt_cap_view(ctx.capability)));
                return Ok(result);
            }
            i = i + 1;
        }
        Ok(MatchResult::new(false))
    }
}

impl Default for Matcher {
    fn default() -> (m: Self) {
        Matcher::new()
    }
}

} // verus!
