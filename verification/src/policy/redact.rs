//! Redaction of sensitive text.
use vstd::prelude::*;
use vstd::utf8::encode_utf8;
use crate::core_types::text::{spec_contains, occurs_at, contains_str, str_eq, matches_at, to_owned_string, strings_view};

verus! {

/// The text with the empty pattern replaced: `replacement` before every
/// character and at the end.
pub open spec fn spec_replace_empty(text: Seq<char>, replacement: Seq<char>) -> Seq<char>
    decreases text.len(),
{
    if text.len() == 0 {
        replacement
    } else {
        replacement + seq![text[0]] + spec_replace_empty(text.skip(1), replacement)
    }
}

/// The text with every occurrence of `pattern` replaced, leftmost first and
/// without overlap.
pub open spec fn spec_replace(text: Seq<char>, pattern: Seq<char>, replacement: Seq<char>) -> Seq<char>
    decreases text.len(),
{
    if pattern.len() == 0 {
        spec_replace_empty(text, replacement)
    } else if text.len() < pattern.len() {
        text
    } else if text.take(pattern.len() as int) == pattern {
        replacement + spec_replace(text.skip(pattern.len() as int), pattern, replacement)
    } else {
        seq![text[0]] + spec_replace(text.skip(1), pattern, replacement)
    }
}

/// Replaces every occurrence of `pattern` in `text`.
pub fn replace_all(text: &str, pattern: &str, replacement: &str) -> (s: String)
    ensures
        s@ == spec_replace(text@, pattern@, replacement@),
{
    let n = text.unicode_len();
    let m = pattern.unicode_len();
    let mut out = String::new();
    let mut i: usize = 0;
    assert(text@.skip(0) =~= text@);
    if m == 0 {
        assert(out@ + spec_replace_empty(text@.skip(0), replacement@) =~= spec_replace_empty(text@, replacement@));
        while i < n
            invariant
                n == text@.len(),
                i <= n,
                out@ + spec_replace_empty(text@.skip(i as int), replacement@) == spec_replace_empty(
                    text@,
                    replacement@,
                ),
            decreases n - i,
        {
            let ghost rest = text@.skip(i as int);
            assert(rest.skip(1) =~= text@.skip(i + 1));
            let c = text.substring_char(i, i + 1);
            assert(c@ =~= seq![rest[0]]);
            let ghost before = out@;
            out.append(replacement);
            out.append(c);
            assert(out@ + spec_replace_empty(text@.skip(i + 1), replacement@) =~= before
                + spec_replace_empty(rest, replacement@));
            i = i + 1;
        }
        assert(out@ =~= out@ + spec_replace_empty(text@.skip(n as int), replacement@).subrange(0, 0)) by {
            assert(text@.skip(n as int) =~= Seq::<char>::empty());
        }
        let ghost before = out@;
        out.append(replacement);
        assert(text@.skip(n as int) =~= Seq::<char>::empty());
        assert(out@ =~= before + spec_replace_empty(text@.skip(n as int), replacement@));
        return out;
    }
    assert(out@ + spec_replace(text@.skip(0), pattern@, replacement@) =~= spec_replace(text@, pattern@, replacement@));
    while i < n
        invariant
            n == text@.len(),
            m == pattern@.len(),
            m > 0,
            i <= n,
            out@ + spec_replace(text@.skip(i as int), pattern@, replacement@) == spec_replace(
                text@,
                pattern@,
                replacement@,
            ),
        decreases n - i,
    {
        let ghost rest = text@.skip(i as int);
        let ghost before = out@;
        if m <= n - i && matches_at(text, pattern, i) {
            assert(rest.take(m as int) =~= text@.subrange(i as int, i + m));
            assert(rest.skip(m as int) =~= text@.skip(i + m));
            out.append(replacement);
            i = i + m;
            assert(out@ + spec_replace(text@.skip(i as int), pattern@, replacement@) =~= before + spec_replace(
                rest,
                pattern@,
                replacement@,
            ));
        } else {
            if m <= n - i {
                assert(rest.take(m as int) =~= text@.subrange(i as int, i + m));
            }
            assert(rest.skip(1) =~= text@.skip(i + 1));
            let c = text.substring_char(i, i + 1);
            assert(c@ =~= seq![rest[0]]);
            out.append(c);
            i = i + 1;
            assert(out@ + spec_replace(text@.skip(i as int), pattern@, replacement@) =~= before + spec_replace(
                rest,
                pattern@,
                replacement@,
            ));
        }
    }
    assert(text@.skip(n as int) =~= Seq::<char>::empty());
    assert(out@ + spec_replace(text@.skip(n as int), pattern@, replacement@) =~= out@);
    out
}

/// A rule that replaces a pattern with a replacement.
#[derive(Debug, Clone, PartialEq, Eq)]
pub struct RedactionRule {
    pub name: String,
    pub pattern: String,
    pub replacement: String,
    /// Marks a rule meant as a regular expression; it is applied as plain
    /// text all the same.
    pub is_regex: bool,
}

impl RedactionRule {
    /// A plain-text rule.
    pub fn new(name: String, pattern: String, replacement: String) -> (r: Self)
        ensures
            r.name == name,
            r.pattern == pattern,
            r.replacement == replacement,
            !r.is_regex,
    {
        RedactionRule { name, pattern, replacement, is_regex: false }
    }

    /// A rule marked as a regular expression.
    pub fn regex(name: String, pattern: String, replacement: String) -> (r: Self)
        ensures
            r.name == name,
            r.pattern == pattern,
            r.replacement == replacement,
            r.is_regex,
    {
        RedactionRule { name, pattern, replacement, is_regex: true }
    }

    /// The text with every occurrence of the pattern replaced.
    pub fn apply(&self, text: &str) -> (s: String)
        ensures
            s@ == spec_replace(text@, self.pattern@, self.replacement@),
    {
        if self.is_regex {
            replace_all(text, self.pattern.as_str(), self.replacement.as_str())
        } else {
            replace_all(text, self.pattern.as_str(), self.replacement.as_str())
        }
    }
}

/// The result of redacting a value.
#[derive(Debug, Clone, PartialEq, Eq)]
pub struct RedactedView {
    pub original: String,
    pub redacted: String,
    pub redaction_count: usize,
    pub applied_rules: Vec<String>,
}

impl RedactedView {
    /// A view with no redactions recorded.
    pub fn new(original: String, redacted: String) -> (v: Self)
        ensures
            v.original == original,
            v.redacted == redacted,
            v.redaction_count == 0,
            v.applied_rules@.len() == 0,
    {
        RedactedView { original, redacted, redaction_count: 0, applied_rules: Vec::new() }
    }

    /// The redacted text.
    pub fn as_str(&self) -> (s: &str)
        ensures
            s@ == self.redacted@,
    {
        self.redacted.as_str()
    }

    /// The UTF-8 bytes of the redacted text.
    pub fn as_bytes(&self) -> (b: &[u8])
        ensures
            b@ == encode_utf8(self.redacted@),
    {
        self.redacted.as_str().as_bytes()
    }

    /// Whether some rule applied.
    pub fn is_redacted(&self) -> (b: bool)
        ensures
            b == (self.redaction_count > 0),
    {
        self.redaction_count > 0
    }
}

/// The text after applying the rules in order, the number of rules that
/// counted, and their names: a rule counts when it changed the text's UTF-8
/// length (as a `usize`) or its replacement occurs in the result.
pub open spec fn spec_redact(value: Seq<char>, rules: Seq<RedactionRule>) -> (Seq<char>, nat, Seq<Seq<char>>)
    decreases rules.len(),
{
    if rules.len() == 0 {
        (value, 0, Seq::empty())
    } else {
        let (t, n, names) = spec_redact(value, rules.drop_last());
        let rule = rules.last();
        let t2 = spec_replace(t, rule.pattern@, rule.replacement@);
        if (encode_utf8(t).len() as usize) != (encode_utf8(t2).len() as usize) || spec_contains(
            t2,
            rule.replacement@,
        ) {
            (t2, n + 1, names.push(rule.name@))
        } else {
            (t2, n, names)
        }
    }
}

/// Replacing a pattern that does not occur in a text leaves the text as it is.
pub proof fn lemma_replace_absent(text: Seq<char>, pattern: Seq<char>, replacement: Seq<char>)
    requires
        !spec_contains(text, pattern),
    ensures
        spec_replace(text, pattern, replacement) == text,
    decreases text.len(),
{
    if pattern.len() == 0 {
        assert(occurs_at(text, pattern, 0)) by {
            assert(text.subrange(0, 0) =~= pattern);
        }
    } else if text.len() >= pattern.len() {
        if text.take(pattern.len() as int) == pattern {
            assert(text.subrange(0, pattern.len() as int) =~= text.take(pattern.len() as int));
            assert(occurs_at(text, pattern, 0));
        }
        let rest = text.skip(1);
        assert(!spec_contains(rest, pattern)) by {
            if spec_contains(rest, pattern) {
                let i = choose|i: int| occurs_at(rest, pattern, i);
                assert(text.subrange(i + 1, i + 1 + pattern.len()) =~= rest.subrange(i, i + pattern.len()));
                assert(occurs_at(text, pattern, i + 1));
            }
        }
        lemma_replace_absent(rest, pattern, replacement);
        assert(seq![text[0]] + rest =~= text);
    }
}

/// Replacing a pattern that occurs in a text puts the replacement in it.
pub proof fn lemma_replace_present(text: Seq<char>, pattern: Seq<char>, replacement: Seq<char>)
    requires
        spec_contains(text, pattern),
        pattern.len() > 0,
    ensures
        spec_contains(spec_replace(text, pattern, replacement), replacement),
    decreases text.len(),
{
    let out = spec_replace(text, pattern, replacement);
    let i = choose|i: int| occurs_at(text, pattern, i);
    if text.take(pattern.len() as int) == pattern {
        assert(out.subrange(0, replacement.len() as int) =~= replacement);
        assert(occurs_at(out, replacement, 0));
    } else {
        if i == 0 {
            assert(text.take(pattern.len() as int) =~= text.subrange(0, pattern.len() as int));
        }
        let rest = text.skip(1);
        assert(rest.subrange(i - 1, i - 1 + pattern.len()) =~= text.subrange(i, i + pattern.len()));
        assert(occurs_at(rest, pattern, i - 1));
        lemma_replace_present(rest, pattern, replacement);
        let tail = spec_replace(rest, pattern, replacement);
        let j = choose|j: int| occurs_at(tail, replacement, j);
        assert(out == seq![text[0]] + tail);
        assert(out.subrange(j + 1, j + 1 + replacement.len()) =~= tail.subrange(j, j + replacement.len()));
        assert(occurs_at(out, replacement, j + 1));
    }
}

/// A rule whose (non-empty) pattern occurs in the value is counted and
/// recorded: redacting with it alone replaces the pattern, counts one
/// redaction and applies that rule.
pub proof fn lemma_redact_counts_match(value: Seq<char>, rule: RedactionRule)
    requires
        spec_contains(value, rule.pattern@),
        rule.pattern@.len() > 0,
    ensures
        spec_redact(value, seq![rule]) == (spec_replace(value, rule.pattern@, rule.replacement@), 1nat, seq![
            rule.name@,
        ]),
{
    let rs = seq![rule];
    assert(rs.drop_last() =~= Seq::<RedactionRule>::empty());
    assert(rs.last() == rule);
    lemma_replace_present(value, rule.pattern@, rule.replacement@);
    assert(spec_redact(value, rs.drop_last()) == (value, 0nat, Seq::<Seq<char>>::empty()));
    let t2 = spec_replace(value, rule.pattern@, rule.replacement@);
    assert(spec_contains(t2, rule.replacement@));
    assert(Seq::<Seq<char>>::empty().push(rule.name@) =~= seq![rule.name@]);
    assert(spec_redact(value, rs) == (t2, 0nat + 1, Seq::<Seq<char>>::empty().push(rule.name@)));
}

/// Rules that find nothing to replace are not counted: when neither the
/// pattern nor the replacement of any rule occurs in the value, redaction
/// leaves the value as it is, counts no redaction and applies no rule.
pub proof fn lemma_redact_untouched(value: Seq<char>, rules: Seq<RedactionRule>)
    requires
        forall|k: int|
            0 <= k < rules.len() ==> !spec_contains(value, #[trigger] rules[k].pattern@) && !spec_contains(
                value,
                rules[k].replacement@,
            ),
    ensures
        spec_redact(value, rules) == (value, 0nat, Seq::<Seq<char>>::empty()),
    decreases rules.len(),
{
    if rules.len() > 0 {
        let front = rules.drop_last();
        assert forall|k: int|
            0 <= k < front.len() implies !spec_contains(value, #[trigger] front[k].pattern@) && !spec_contains(
                value,
                front[k].replacement@,
            ) by {
            assert(front[k] == rules[k]);
        }
        lemma_redact_untouched(value, front);
        let rule = rules.last();
        assert(!spec_contains(value, rule.pattern@) && !spec_contains(value, rule.replacement@)) by {
            assert(rule == rules[rules.len() - 1]);
        }
        lemma_replace_absent(value, rule.pattern@, rule.replacement@);
    }
}

/// Whether a field name marks a sensitive value by itself.
pub open spec fn spec_sensitive_name(field: Seq<char>) -> bool {
    spec_contains(field, "password"@) || spec_contains(field, "secret"@) || spec_contains(field, "token"@)
        || spec_contains(field, "key"@)
}

/// Applies redaction rules, and always hides the sensitive fields.
pub struct Redactor {
    rules: Vec<RedactionRule>,
    sensitive_fields: Vec<String>,
}

impl Redactor {
    /// The rules, in order.
    pub closed spec fn rules(&self) -> Seq<RedactionRule> {
        self.rules@
    }

    /// The names of the fields always hidden.
    pub closed spec fn sensitive(&self) -> Set<Seq<char>> {
        strings_view(self.sensitive_fields@).to_set()
    }

    /// No rules and no sensitive fields.
    pub fn new() -> (r: Self)
        ensures
            r.rules().len() == 0,
            r.sensitive() == Set::<Seq<char>>::empty(),
    {
        let r = Redactor { rules: Vec::new(), sensitive_fields: Vec::new() };
        assert(r.sensitive() =~= Set::<Seq<char>>::empty());
        r
    }

    /// The redactor with one more rule, applied last.
    pub fn with_rule(self, rule: RedactionRule) -> (r: Self)
        ensures
            r.rules() == self.rules().push(rule),
            r.sensitive() == self.sensitive(),
    {
        let mut r = self;
        r.rules.push(rule);
        r
    }

    /// The redactor with `field` always hidden.
    pub fn with_sensitive_field(self, field: String) -> (r: Self)
        ensures
            r.rules() == self.rules(),
            r.sensitive() == self.sensitive().insert(field@),
    {
        let mut r = self;
        let ghost f = field@;
        r.sensitive_fields.push(field);
        proof {
            assert(strings_view(r.sensitive_fields@) =~= strings_view(self.sensitive_fields@).push(f));
            strings_view(self.sensitive_fields@).lemma_push_to_set_commute(f);
        }
        r
    }

    /// Whether `field` is one of the fields always hidden.
    fn in_sensitive_set(&self, field: &str) -> (b: bool)
        ensures
            b == self.sensitive().contains(field@),
    {
        let mut i: usize = 0;
        while i < self.sensitive_fields.len()
            invariant
                i <= self.sensitive_fields@.len(),
                forall|j: int| 0 <= j < i ==> #[trigger] self.sensitive_fields@[j]@ != field@,
            decreases self.sensitive_fields@.len() - i,
        {
            if str_eq(self.sensitive_fields[i].as_str(), field) {
                assert(strings_view(self.sensitive_fields@)[i as int] == field@);
                return true;
            }
            i = i + 1;
        }
        proof {
            if self.sensitive().contains(field@) {
                let j = choose|j: int| 0 <= j < self.sensitive_fields@.len() && strings_view(self.sensitive_fields@)[j] == field@;
                assert(self.sensitive_fields@[j]@ == field@);
            }
        }
        false
    }

    /// Applies every rule in order and records which ones counted.
    pub fn redact(&self, value: &str) -> (v: RedactedView)
        ensures
            v.original@ == value@,
            v.redacted@ == spec_redact(value@, self.rules()).0,
            v.redaction_count == spec_redact(value@, self.rules()).1,
            strings_view(v.applied_rules@) == spec_redact(value@, self.rules()).2,
    {
        let mut redacted = to_owned_string(value);
        let mut redaction_count: usize = 0;
        let mut applied_rules: Vec<String> = Vec::new();
        let mut i: usize = 0;
        while i < self.rules.len()
            invariant
                i <= self.rules@.len(),
                redacted@ == spec_redact(value@, self.rules@.take(i as int)).0,
                redaction_count == spec_redact(value@, self.rules@.take(i as int)).1,
                redaction_count <= i,
                strings_view(applied_rules@) == spec_redact(value@, self.rules@.take(i as int)).2,
            decreases self.rules@.len() - i,
        {
            assert(self.rules@.take(i + 1).drop_last() =~= self.rules@.take(i as int));
            let rule = &self.rules[i];
            let before = redacted.as_str().len();
            redacted = rule.apply(redacted.as_str());
            let after = redacted.as_str().len();
            if before != after || contains_str(redacted.as_str(), rule.replacement.as_str()) {
                redaction_count = redaction_count + 1;
                let ghost names = strings_view(applied_rules@);
                applied_rules.push(rule.name.clone());
                assert(strings_view(applied_rules@) =~= names.push(rule.name@));
            }
            i = i + 1;
        }
        assert(self.rules@.take(self.rules@.len() as int) =~= self.rules@);
        RedactedView { original: to_owned_string(value), redacted, redaction_count, applied_rules }
    }

    /// Hides a sensitive field entirely, which counts as one redaction;
    /// redacts any other field's value.
    pub fn redact_field(&self, field_name: &str, value: &str) -> (v: RedactedView)
        ensures
            v.original@ == value@,
            self.sensitive().contains(field_name@) ==> v.redacted@ == "***REDACTED***"@ && v.redaction_count == 1
                && v.applied_rules@.len() == 0,
            !self.sensitive().contains(field_name@) ==> {
                &&& v.redacted@ == spec_redact(value@, self.rules()).0
                &&& v.redaction_count == spec_redact(value@, self.rules()).1
                &&& strings_view(v.applied_rules@) == spec_redact(value@, self.rules()).2
            },
    {
        if self.in_sensitive_set(field_name) {
            return RedactedView {
                original: to_owned_string(value),
                redacted: "***REDACTED***".to_owned(),
                redaction_count: 1,
                applied_rules: Vec::new(),
            };
        }
        self.redact(value)
    }

    /// Whether a field is sensitive: listed, or named like a password,
    /// secret, token or key.
    pub fn is_sensitive(&self, field_name: &str) -> (b: bool)
        ensures
            b == (self.sensitive().contains(field_name@) || spec_sensitive_name(field_name@)),
    {
        self.in_sensitive_set(field_name) || contains_str(field_name, "password") || contains_str(field_name, "secret")
            || contains_str(field_name, "token") || contains_str(field_name, "key")
    }
}

impl Default for Redactor {
    fn default() -> (r: Self)
        ensures
            r.rules().len() == 0,
            r.sensitive() == Set::<Seq<char>>::empty(),
    {
        Redactor::new()
    }
}

} // verus!
