//! Capabilities: explicit permissions for every side effect.
use vstd::prelude::*;
use crate::core_types::text::{
    spec_join, str_eq, starts_with, ends_with, vec_contains_str, join_strings, clone_strings,
    spec_u64_decimal, u64_to_decimal, text_before, texts_before, text_less, texts_less,
    lemma_text_total, lemma_texts_total,
};

verus! {

/// A capability grants permission for one kind of operation.
#[derive(Debug, PartialEq, Eq)]
pub enum Capability {
    /// Read from the network, limited to a domain allowlist.
    NetRead { allowlist: Vec<String> },
    /// Write to the network, limited to a domain allowlist.
    NetWrite { allowlist: Vec<String> },
    /// Read from the filesystem under path prefixes.
    FsRead { prefixes: Vec<String> },
    /// Write to the filesystem under path prefixes.
    FsWrite { prefixes: Vec<String> },
    /// Read from database tables.
    DbRead { tables: Vec<String> },
    /// Write to database tables.
    DbWrite { tables: Vec<String> },
    /// Run an external process within resource limits.
    Exec { cpu_limit: String, mem_limit: String },
    /// Run WASM with fuel and memory limits.
    WasmExec { fuel: u64, memory: u64 },
    /// Read the logical clock.
    ClockRead,
    /// Read environment variables from an allowlist.
    EnvRead { vars: Vec<String> },
}

/// What a capability holds, as plain values.
pub enum CapView {
    NetRead(Seq<Seq<char>>),
    NetWrite(Seq<Seq<char>>),
    FsRead(Seq<Seq<char>>),
    FsWrite(Seq<Seq<char>>),
    DbRead(Seq<Seq<char>>),
    DbWrite(Seq<Seq<char>>),
    Exec(Seq<char>, Seq<char>),
    WasmExec(u64, u64),
    ClockRead,
    EnvRead(Seq<Seq<char>>),
}

impl View for Capability {
    type V = CapView;

    open spec fn view(&self) -> CapView {
        match self {
            Capability::NetRead { allowlist } => CapView::NetRead(allowlist.deep_view()),
            Capability::NetWrite { allowlist } => CapView::NetWrite(allowlist.deep_view()),
            Capability::FsRead { prefixes } => CapView::FsRead(prefixes.deep_view()),
            Capability::FsWrite { prefixes } => CapView::FsWrite(prefixes.deep_view()),
            Capability::DbRead { tables } => CapView::DbRead(tables.deep_view()),
            Capability::DbWrite { tables } => CapView::DbWrite(tables.deep_view()),
            Capability::Exec { cpu_limit, mem_limit } => CapView::Exec(cpu_limit@, mem_limit@),
            Capability::WasmExec { fuel, memory } => CapView::WasmExec(*fuel, *memory),
            Capability::ClockRead => CapView::ClockRead,
            Capability::EnvRead { vars } => CapView::EnvRead(vars.deep_view()),
        }
    }
}

/// The position of a capability's kind in the declaration order.
pub open spec fn kind_index(c: CapView) -> nat {
    match c {
        CapView::NetRead(_) => 0,
        CapView::NetWrite(_) => 1,
        CapView::FsRead(_) => 2,
        CapView::FsWrite(_) => 3,
        CapView::DbRead(_) => 4,
        CapView::DbWrite(_) => 5,
        CapView::Exec(_, _) => 6,
        CapView::WasmExec(_, _) => 7,
        CapView::ClockRead => 8,
        CapView::EnvRead(_) => 9,
    }
}

/// Whether capability `a` sorts before `b`: by kind in declaration order,
/// then by the kind's fields in turn (the derived order of capabilities).
pub open spec fn cap_before(a: CapView, b: CapView) -> bool {
    if kind_index(a) != kind_index(b) {
        kind_index(a) < kind_index(b)
    } else {
        match (a, b) {
            (CapView::NetRead(x), CapView::NetRead(y)) => texts_before(x, y),
            (CapView::NetWrite(x), CapView::NetWrite(y)) => texts_before(x, y),
            (CapView::FsRead(x), CapView::FsRead(y)) => texts_before(x, y),
            (CapView::FsWrite(x), CapView::FsWrite(y)) => texts_before(x, y),
            (CapView::DbRead(x), CapView::DbRead(y)) => texts_before(x, y),
            (CapView::DbWrite(x), CapView::DbWrite(y)) => texts_before(x, y),
            (CapView::Exec(c1, m1), CapView::Exec(c2, m2)) => text_before(c1, c2) || (c1 == c2
                && text_before(m1, m2)),
            (CapView::WasmExec(f1, m1), CapView::WasmExec(f2, m2)) => f1 < f2 || (f1 == f2 && m1 < m2),
            (CapView::EnvRead(x), CapView::EnvRead(y)) => texts_before(x, y),
            _ => false,
        }
    }
}

/// Whether each capability of `s` sorts before the next.
pub open spec fn in_order(s: Seq<CapView>) -> bool {
    forall|i: int, j: int| 0 <= i && j == i + 1 && j < s.len() ==> #[trigger] cap_before(s[i], s[j])
}

/// Where `c` goes in the sorted list `s`: after the leading members that
/// sort before it.
pub open spec fn sorted_pos(s: Seq<CapView>, c: CapView) -> nat
    decreases s.len(),
{
    if s.len() > 0 && cap_before(s[0], c) {
        1 + sorted_pos(s.drop_first(), c)
    } else {
        0
    }
}

/// The members of a set, as plain values, after granting `c`: unchanged
/// when `c` is held, else `c` inserted at its sorted place.
pub open spec fn spec_granted(s: Seq<CapView>, c: CapView) -> Seq<CapView> {
    if s.contains(c) {
        s
    } else {
        s.insert(sorted_pos(s, c) as int, c)
    }
}

/// Granting depends only on what the set holds and what is granted: two
/// sets holding the same capabilities, granted equal capabilities (by
/// `grant` or by `allow`), hold the same capabilities afterwards, and the
/// result is sorted and holds exactly the old members and `c`.
pub proof fn lemma_grant_determined(s1: Seq<CapView>, s2: Seq<CapView>, c1: CapView, c2: CapView)
    requires
        s1 == s2,
        c1 == c2,
        in_order(s1),
    ensures
        spec_granted(s1, c1) == spec_granted(s2, c2),
        in_order(spec_granted(s1, c1)),
        forall|v: CapView| spec_granted(s1, c1).contains(v) <==> (s1.contains(v) || v == c1),
{
    let g = spec_granted(s1, c1);
    if !s1.contains(c1) {
        let k = sorted_pos(s1, c1) as int;
        lemma_sorted_pos(s1, c1);
        if k < s1.len() {
            assert(s1[k] != c1);
            lemma_cap_total(s1[k], c1);
        }
        assert forall|i: int, j: int| 0 <= i && j == i + 1 && j < g.len() implies #[trigger] cap_before(g[i], g[j]) by {
            if j < k {
                assert(cap_before(s1[i], s1[j]));
            } else if j == k {
                assert(cap_before(s1[i], c1));
            } else if i == k {
                assert(g[j] == s1[k]);
            } else {
                assert(cap_before(s1[i - 1], s1[j - 1]));
            }
        }
        assert forall|v: CapView| g.contains(v) <==> (s1.contains(v) || v == c1) by {
            if g.contains(v) {
                let i = choose|i: int| 0 <= i < g.len() && g[i] == v;
                if i < k {
                    assert(s1[i] == v);
                } else if i > k {
                    assert(s1[i - 1] == v);
                }
            }
            if s1.contains(v) {
                let i = choose|i: int| 0 <= i < s1.len() && s1[i] == v;
                if i < k {
                    assert(g[i] == v);
                } else {
                    assert(g[i + 1] == v);
                }
            }
            if v == c1 {
                assert(g[k] == v);
            }
        }
    }
}

/// The sorted place of `c` is within `s`, after members that sort before
/// `c`, and at a member that does not, if any.
pub proof fn lemma_sorted_pos(s: Seq<CapView>, c: CapView)
    ensures
        sorted_pos(s, c) <= s.len(),
        forall|j: int| 0 <= j < sorted_pos(s, c) ==> cap_before(#[trigger] s[j], c),
        sorted_pos(s, c) < s.len() ==> !cap_before(s[sorted_pos(s, c) as int], c),
    decreases s.len(),
{
    if s.len() > 0 && cap_before(s[0], c) {
        lemma_sorted_pos(s.drop_first(), c);
        assert forall|j: int| 0 <= j < sorted_pos(s, c) implies cap_before(#[trigger] s[j], c) by {
            if j > 0 {
                assert(s[j] == s.drop_first()[j - 1]);
            }
        }
    }
}

/// A place after members that sort before `c` and at one that does not (or
/// at the end) is the sorted place of `c`.
proof fn lemma_sorted_pos_at(s: Seq<CapView>, c: CapView, k: int)
    requires
        0 <= k <= s.len(),
        forall|j: int| 0 <= j < k ==> cap_before(#[trigger] s[j], c),
        k < s.len() ==> !cap_before(s[k], c),
    ensures
        sorted_pos(s, c) == k,
    decreases k,
{
    if k > 0 {
        assert(cap_before(s[0], c));
        assert forall|j: int| 0 <= j < k - 1 implies cap_before(#[trigger] s.drop_first()[j], c) by {
            assert(s.drop_first()[j] == s[j + 1]);
            assert(cap_before(s[j + 1], c));
        }
        if k - 1 < s.drop_first().len() {
            assert(s.drop_first()[k - 1] == s[k]);
        }
        lemma_sorted_pos_at(s.drop_first(), c, k - 1);
    }
}

/// Of two different capabilities, one sorts before the other.
pub proof fn lemma_cap_total(a: CapView, b: CapView)
    ensures
        a != b ==> cap_before(a, b) || cap_before(b, a),
{
    match (a, b) {
        (CapView::NetRead(x), CapView::NetRead(y)) => lemma_texts_total(x, y),
        (CapView::NetWrite(x), CapView::NetWrite(y)) => lemma_texts_total(x, y),
        (CapView::FsRead(x), CapView::FsRead(y)) => lemma_texts_total(x, y),
        (CapView::FsWrite(x), CapView::FsWrite(y)) => lemma_texts_total(x, y),
        (CapView::DbRead(x), CapView::DbRead(y)) => lemma_texts_total(x, y),
        (CapView::DbWrite(x), CapView::DbWrite(y)) => lemma_texts_total(x, y),
        (CapView::Exec(c1, m1), CapView::Exec(c2, m2)) => {
            lemma_text_total(c1, c2);
            lemma_text_total(m1, m2);
        },
        (CapView::EnvRead(x), CapView::EnvRead(y)) => lemma_texts_total(x, y),
        _ => {},
    }
}

/// The name of a capability's kind.
pub open spec fn spec_kind_name(c: CapView) -> Seq<char> {
    match c {
        CapView::NetRead(_) => "NetRead"@,
        CapView::NetWrite(_) => "NetWrite"@,
        CapView::FsRead(_) => "FsRead"@,
        CapView::FsWrite(_) => "FsWrite"@,
        CapView::DbRead(_) => "DbRead"@,
        CapView::DbWrite(_) => "DbWrite"@,
        CapView::Exec(_, _) => "Exec"@,
        CapView::WasmExec(_, _) => "WasmExec"@,
        CapView::ClockRead => "ClockRead"@,
        CapView::EnvRead(_) => "EnvRead"@,
    }
}

/// The display text of a capability, such as `NetRead(a.com,b.com)`.
pub open spec fn spec_cap_display(c: CapView) -> Seq<char> {
    let comma = seq![','];
    match c {
        CapView::NetRead(l) => "NetRead("@ + spec_join(l, comma) + ")"@,
        CapView::NetWrite(l) => "NetWrite("@ + spec_join(l, comma) + ")"@,
        CapView::FsRead(l) => "FsRead("@ + spec_join(l, comma) + ")"@,
        CapView::FsWrite(l) => "FsWrite("@ + spec_join(l, comma) + ")"@,
        CapView::DbRead(l) => "DbRead("@ + spec_join(l, comma) + ")"@,
        CapView::DbWrite(l) => "DbWrite("@ + spec_join(l, comma) + ")"@,
        CapView::Exec(cpu, mem) => "Exec(cpu:"@ + cpu + ",mem:"@ + mem + ")"@,
        CapView::WasmExec(f, m) => "WasmExec(fuel:"@ + spec_u64_decimal(f) + ",mem:"@
            + spec_u64_decimal(m) + ")"@,
        CapView::ClockRead => "ClockRead"@,
        CapView::EnvRead(l) => "EnvRead("@ + spec_join(l, comma) + ")"@,
    }
}

/// Whether two lists of strings are equal.
pub fn strings_eq(a: &Vec<String>, b: &Vec<String>) -> (r: bool)
    ensures
        r == (a.deep_view() == b.deep_view()),
{
    if a.len() != b.len() {
        assert(a.deep_view().len() != b.deep_view().len());
        return false;
    }
    let mut i: usize = 0;
    while i < a.len()
        invariant
            a@.len() == b@.len(),
            i <= a@.len(),
            forall|j: int| 0 <= j < i ==> #[trigger] a@[j]@ == b@[j]@,
        decreases a@.len() - i,
    {
        if !str_eq(a[i].as_str(), b[i].as_str()) {
            assert(a.deep_view()[i as int] != b.deep_view()[i as int]);
            return false;
        }
        i = i + 1;
    }
    assert(a.deep_view() =~= b.deep_view());
    true
}

fn list_str(label: &str, l: &Vec<String>) -> (s: String)
    ensures
        s@ == label@ + spec_join(l.deep_view(), seq![',']) + ")"@,
{
    proof {
        reveal_strlit(",");
    }
    assert(","@ =~= seq![',']);
    let mut s = String::new();
    s.append(label);
    let j = join_strings(l, ",");
    s.append(j.as_str());
    s.append(")");
    s
}

impl Capability {
    /// Whether `self` and `other` are the same kind of capability.
    pub fn matches_kind(&self, other: &Capability) -> (r: bool)
        ensures
            r == (kind_index(self@) == kind_index(other@)),
    {
        self.kind_id() == other.kind_id()
    }

    /// The position of this capability's kind in the declaration order.
    pub fn kind_id(&self) -> (k: u8)
        ensures
            k == kind_index(self@),
    {
        match self {
            Capability::NetRead { .. } => 0,
            Capability::NetWrite { .. } => 1,
            Capability::FsRead { .. } => 2,
            Capability::FsWrite { .. } => 3,
            Capability::DbRead { .. } => 4,
            Capability::DbWrite { .. } => 5,
            Capability::Exec { .. } => 6,
            Capability::WasmExec { .. } => 7,
            Capability::ClockRead => 8,
            Capability::EnvRead { .. } => 9,
        }
    }

    /// Whether this capability sorts before `other`.
    pub fn precedes(&self, other: &Capability) -> (r: bool)
        ensures
            r == cap_before(self@, other@),
    {
        let ka = self.kind_id();
        let kb = other.kind_id();
        if ka != kb {
            return ka < kb;
        }
        match (self, other) {
            (Capability::NetRead { allowlist: a }, Capability::NetRead { allowlist: b }) => texts_less(a, b),
            (Capability::NetWrite { allowlist: a }, Capability::NetWrite { allowlist: b }) => texts_less(a, b),
            (Capability::FsRead { prefixes: a }, Capability::FsRead { prefixes: b }) => texts_less(a, b),
            (Capability::FsWrite { prefixes: a }, Capability::FsWrite { prefixes: b }) => texts_less(a, b),
            (Capability::DbRead { tables: a }, Capability::DbRead { tables: b }) => texts_less(a, b),
            (Capability::DbWrite { tables: a }, Capability::DbWrite { tables: b }) => texts_less(a, b),
            (
                Capability::Exec { cpu_limit: c1, mem_limit: m1 },
                Capability::Exec { cpu_limit: c2, mem_limit: m2 },
            ) => text_less(c1.as_str(), c2.as_str()) || (str_eq(c1.as_str(), c2.as_str()) && text_less(
                m1.as_str(),
                m2.as_str(),
            )),
            (
                Capability::WasmExec { fuel: f1, memory: m1 },
                Capability::WasmExec { fuel: f2, memory: m2 },
            ) => *f1 < *f2 || (*f1 == *f2 && *m1 < *m2),
            (Capability::EnvRead { vars: a }, Capability::EnvRead { vars: b }) => texts_less(a, b),
            _ => false,
        }
    }

    /// The name of this capability's kind.
    pub fn kind_name(&self) -> (s: &'static str)
        ensures
            s@ == spec_kind_name(self@),
    {
        match self {
            Capability::NetRead { .. } => "NetRead",
            Capability::NetWrite { .. } => "NetWrite",
            Capability::FsRead { .. } => "FsRead",
            Capability::FsWrite { .. } => "FsWrite",
            Capability::DbRead { .. } => "DbRead",
            Capability::DbWrite { .. } => "DbWrite",
            Capability::Exec { .. } => "Exec",
            Capability::WasmExec { .. } => "WasmExec",
            Capability::ClockRead => "ClockRead",
            Capability::EnvRead { .. } => "EnvRead",
        }
    }

    /// Whether two capabilities hold the same values.
    pub fn same_as(&self, other: &Capability) -> (r: bool)
        ensures
            r == (self@ == other@),
    {
        match (self, other) {
            (Capability::NetRead { allowlist: a }, Capability::NetRead { allowlist: b }) =>
                strings_eq(a, b),
            (Capability::NetWrite { allowlist: a }, Capability::NetWrite { allowlist: b }) =>
                strings_eq(a, b),
            (Capability::FsRead { prefixes: a }, Capability::FsRead { prefixes: b }) =>
                strings_eq(a, b),
            (Capability::FsWrite { prefixes: a }, Capability::FsWrite { prefixes: b }) =>
                strings_eq(a, b),
            (Capability::DbRead { tables: a }, Capability::DbRead { tables: b }) =>
                strings_eq(a, b),
            (Capability::DbWrite { tables: a }, Capability::DbWrite { tables: b }) =>
                strings_eq(a, b),
            (
                Capability::Exec { cpu_limit: c1, mem_limit: m1 },
                Capability::Exec { cpu_limit: c2, mem_limit: m2 },
            ) => str_eq(c1.as_str(), c2.as_str()) && str_eq(m1.as_str(), m2.as_str()),
            (
                Capability::WasmExec { fuel: f1, memory: m1 },
                Capability::WasmExec { fuel: f2, memory: m2 },
            ) => *f1 == *f2 && *m1 == *m2,
            (Capability::ClockRead, Capability::ClockRead) => true,
            (Capability::EnvRead { vars: a }, Capability::EnvRead { vars: b }) => strings_eq(a, b),
            _ => false,
        }
    }

    /// A copy of this capability.
    pub fn duplicate(&self) -> (c: Capability)
        ensures
            c@ == self@,
    {
        match self {
            Capability::NetRead { allowlist } => Capability::NetRead {
                allowlist: clone_strings(allowlist),
            },
            Capability::NetWrite { allowlist } => Capability::NetWrite {
                allowlist: clone_strings(allowlist),
            },
            Capability::FsRead { prefixes } => Capability::FsRead {
                prefixes: clone_strings(prefixes),
            },
            Capability::FsWrite { prefixes } => Capability::FsWrite {
                prefixes: clone_strings(prefixes),
            },
            Capability::DbRead { tables } => Capability::DbRead { tables: clone_strings(tables) },
            Capability::DbWrite { tables } => Capability::DbWrite { tables: clone_strings(tables) },
            Capability::Exec { cpu_limit, mem_limit } => Capability::Exec {
                cpu_limit: cpu_limit.clone(),
                mem_limit: mem_limit.clone(),
            },
            Capability::WasmExec { fuel, memory } => Capability::WasmExec {
                fuel: *fuel,
                memory: *memory,
            },
            Capability::ClockRead => Capability::ClockRead,
            Capability::EnvRead { vars } => Capability::EnvRead { vars: clone_strings(vars) },
        }
    }

    /// The display text, such as `NetRead(a.com,b.com)` or `WasmExec(fuel:1,mem:2)`.
    pub fn to_string(&self) -> (s: String)
        ensures
            s@ == spec_cap_display(self@),
    {
        proof {
            reveal_strlit("NetRead(");
            reveal_strlit("NetWrite(");
            reveal_strlit("FsRead(");
            reveal_strlit("FsWrite(");
            reveal_strlit("DbRead(");
            reveal_strlit("DbWrite(");
            reveal_strlit("EnvRead(");
        }
        match self {
            Capability::NetRead { allowlist } => list_str("NetRead(", allowlist),
            Capability::NetWrite { allowlist } => list_str("NetWrite(", allowlist),
            Capability::FsRead { prefixes } => list_str("FsRead(", prefixes),
            Capability::FsWrite { prefixes } => list_str("FsWrite(", prefixes),
            Capability::DbRead { tables } => list_str("DbRead(", tables),
            Capability::DbWrite { tables } => list_str("DbWrite(", tables),
            Capability::Exec { cpu_limit, mem_limit } => {
                let mut s = String::new();
                s.append("Exec(cpu:");
                s.append(cpu_limit.as_str());
                s.append(",mem:");
                s.append(mem_limit.as_str());
                s.append(")");
                s
            },
            Capability::WasmExec { fuel, memory } => {
                let mut s = String::new();
                s.append("WasmExec(fuel:");
                let f = u64_to_decimal(*fuel);
                s.append(f.as_str());
                s.append(",mem:");
                let m = u64_to_decimal(*memory);
                s.append(m.as_str());
                s.append(")");
                s
            },
            Capability::ClockRead => {
                let mut s = String::new();
                s.append("ClockRead");
                s
            },
            Capability::EnvRead { vars } => list_str("EnvRead(", vars),
        }
    }
}

/// The debug rendering of a string, as `std` writes it: quoted, with
/// quotes, backslashes and control characters escaped.
pub uninterp spec fn spec_str_debug(s: Seq<char>) -> Seq<char>;

/// The debug rendering of a string.
///
/// Calls `format!` with `{:?}` on a `&str`, which writes the string between
/// double quotes with `escape_debug` applied to its characters.
#[verifier::external_body]
pub(crate) fn str_debug(s: &str) -> (d: String)
    ensures
        d@ == spec_str_debug(s@),
{
    format!("{:?}", s)
}

/// The debug rendering of a list of strings: `["a", "b"]`.
pub open spec fn spec_list_debug(l: Seq<Seq<char>>) -> Seq<char> {
    "["@ + spec_join(Seq::new(l.len(), |i: int| spec_str_debug(l[i])), ", "@) + "]"@
}

/// The debug rendering of a list of strings.
fn list_debug(l: &Vec<String>) -> (d: String)
    ensures
        d@ == spec_list_debug(l.deep_view()),
{
    let mut parts: Vec<String> = Vec::new();
    let mut i: usize = 0;
    while i < l.len()
        invariant
            i <= l@.len(),
            parts@.len() == i,
            forall|k: int| 0 <= k < i ==> #[trigger] parts@[k]@ == spec_str_debug(l@[k]@),
        decreases l@.len() - i,
    {
        parts.push(str_debug(l[i].as_str()));
        i = i + 1;
    }
    assert(parts.deep_view() =~= Seq::new(l.deep_view().len(), |i: int| spec_str_debug(l.deep_view()[i])));
    let joined = join_strings(&parts, ", ");
    let mut d = String::new();
    d.append("[");
    d.append(joined.as_str());
    d.append("]");
    d
}

/// The debug rendering of a capability, as its derived `Debug` writes it,
/// such as `FsRead { prefixes: ["/tmp"] }`.
pub open spec fn spec_cap_debug(c: CapView) -> Seq<char> {
    match c {
        CapView::NetRead(l) => "NetRead { allowlist: "@ + spec_list_debug(l) + " }"@,
        CapView::NetWrite(l) => "NetWrite { allowlist: "@ + spec_list_debug(l) + " }"@,
        CapView::FsRead(l) => "FsRead { prefixes: "@ + spec_list_debug(l) + " }"@,
        CapView::FsWrite(l) => "FsWrite { prefixes: "@ + spec_list_debug(l) + " }"@,
        CapView::DbRead(l) => "DbRead { tables: "@ + spec_list_debug(l) + " }"@,
        CapView::DbWrite(l) => "DbWrite { tables: "@ + spec_list_debug(l) + " }"@,
        CapView::Exec(cpu, mem) => "Exec { cpu_limit: "@ + spec_str_debug(cpu) + ", mem_limit: "@ + spec_str_debug(
            mem,
        ) + " }"@,
        CapView::WasmExec(f, m) => "WasmExec { fuel: "@ + spec_u64_decimal(f) + ", memory: "@ + spec_u64_decimal(m)
            + " }"@,
        CapView::ClockRead => "ClockRead"@,
        CapView::EnvRead(l) => "EnvRead { vars: "@ + spec_list_debug(l) + " }"@,
    }
}

impl Capability {
    /// The debug rendering of this capability.
    pub fn debug_text(&self) -> (s: String)
        ensures
            s@ == spec_cap_debug(self@),
    {
        let mut s = String::new();
        match self {
            Capability::NetRead { allowlist } => {
                s.append("NetRead { allowlist: ");
                s.append(list_debug(allowlist).as_str());
                s.append(" }");
            },
            Capability::NetWrite { allowlist } => {
                s.append("NetWrite { allowlist: ");
                s.append(list_debug(allowlist).as_str());
                s.append(" }");
            },
            Capability::FsRead { prefixes } => {
                s.append("FsRead { prefixes: ");
                s.append(list_debug(prefixes).as_str());
                s.append(" }");
            },
            Capability::FsWrite { prefixes } => {
                s.append("FsWrite { prefixes: ");
                s.append(list_debug(prefixes).as_str());
                s.append(" }");
            },
            Capability::DbRead { tables } => {
                s.append("DbRead { tables: ");
                s.append(list_debug(tables).as_str());
                s.append(" }");
            },
            Capability::DbWrite { tables } => {
                s.append("DbWrite { tables: ");
                s.append(list_debug(tables).as_str());
                s.append(" }");
            },
            Capability::Exec { cpu_limit, mem_limit } => {
                s.append("Exec { cpu_limit: ");
                s.append(str_debug(cpu_limit.as_str()).as_str());
                s.append(", mem_limit: ");
                s.append(str_debug(mem_limit.as_str()).as_str());
                s.append(" }");
            },
            Capability::WasmExec { fuel, memory } => {
                s.append("WasmExec { fuel: ");
                s.append(u64_to_decimal(*fuel).as_str());
                s.append(", memory: ");
                s.append(u64_to_decimal(*memory).as_str());
                s.append(" }");
            },
            Capability::ClockRead => {
                s.append("ClockRead");
            },
            Capability::EnvRead { vars } => {
                s.append("EnvRead { vars: ");
                s.append(list_debug(vars).as_str());
                s.append(" }");
            },
        }
        s
    }
}

impl Clone for Capability {
    fn clone(&self) -> (c: Self)
        ensures
            c@ == self@,
    {
        self.duplicate()
    }
}

/// Whether `domain` matches one pattern: `*` matches every domain, `*.s`
/// matches `s` and its subdomains, any other pattern matches itself.
pub open spec fn spec_domain_pattern_matches(pattern: Seq<char>, domain: Seq<char>) -> bool {
    if pattern == "*"@ {
        true
    } else if pattern.len() >= 2 && pattern.take(2) == "*."@ {
        let suffix = pattern.skip(2);
        domain == suffix || (suffix.len() + 1 <= domain.len() && domain.skip(
            domain.len() - suffix.len() - 1,
        ) == seq!['.'] + suffix)
    } else {
        pattern == domain
    }
}

/// A `*.s` allowlist entry admits `s` itself and every name `x.s`, and no
/// other name ending in `s`: a name `x` followed by `s`, where `x` is a
/// non-empty label not ending in `.`, is refused.
pub proof fn lemma_wildcard_domain(s: Seq<char>, x: Seq<char>)
    requires
        x.len() > 0,
        x.last() != '.',
    ensures
        spec_matches_domain(seq!["*."@ + s], s),
        spec_matches_domain(seq!["*."@ + s], x + seq!['.'] + s),
        !spec_matches_domain(seq!["*."@ + s], x + s),
{
    reveal_strlit("*.");
    reveal_strlit("*");
    let p = "*."@ + s;
    let l = seq![p];
    assert(p.len() >= 2 && p != "*"@);
    assert(p.take(2) =~= "*."@);
    assert(p.skip(2) =~= s);
    assert(spec_domain_pattern_matches(l[0], s));
    let d = x + seq!['.'] + s;
    assert(d.skip(d.len() - s.len() - 1) =~= seq!['.'] + s);
    assert(spec_domain_pattern_matches(l[0], d));
    let e = x + s;
    assert(e != s) by {
        assert(e.len() != s.len());
    }
    if s.len() + 1 <= e.len() {
        assert(e.skip(e.len() - s.len() - 1)[0] == x.last());
        assert((seq!['.'] + s)[0] == '.');
    }
    assert(!spec_domain_pattern_matches(l[0], e));
    assert forall|i: int| 0 <= i < l.len() implies !spec_domain_pattern_matches(#[trigger] l[i], e) by {
        assert(i == 0);
    }
}

/// The pattern `*` admits every name, and a pattern without a leading `*`
/// admits only the name it spells.
pub proof fn lemma_plain_domain(p: Seq<char>, d: Seq<char>)
    ensures
        spec_domain_pattern_matches("*"@, d),
        p.len() > 0 && p[0] != '*' ==> (spec_domain_pattern_matches(p, d) <==> p == d),
{
    reveal_strlit("*");
    reveal_strlit("*.");
    if p.len() > 0 && p[0] != '*' {
        assert(p != "*"@) by {
            assert("*"@[0] == '*');
        }
        if p.len() >= 2 {
            assert(p.take(2)[0] != "*."@[0]);
        }
    }
}

/// Whether `domain` matches a pattern of the allowlist.
pub open spec fn spec_matches_domain(allowlist: Seq<Seq<char>>, domain: Seq<char>) -> bool {
    exists|i: int| 0 <= i < allowlist.len() && spec_domain_pattern_matches(#[trigger] allowlist[i], domain)
}

/// `s` without one trailing `/`, if it has one.
pub open spec fn strip_slash(s: Seq<char>) -> Seq<char> {
    if s.len() > 0 && s.last() == '/' {
        s.drop_last()
    } else {
        s
    }
}

/// Whether `path` lies under `prefix`: both are compared without one
/// trailing `/`; the prefixes `.` and `./` cover every path; otherwise the
/// path equals the prefix or continues it after a `/`.
pub open spec fn spec_matches_path(prefix: Seq<char>, path: Seq<char>) -> bool {
    let p = strip_slash(prefix);
    let q = strip_slash(path);
    ||| p == "."@
    ||| p == "./"@
    ||| q == p
    ||| (p.len() + 1 <= q.len() && q.take(p.len() + 1int) == p.push('/'))
}

/// Whether one pattern of an allowlist matches a domain.
pub fn domain_pattern_matches(pattern: &str, domain: &str) -> (r: bool)
    ensures
        r == spec_domain_pattern_matches(pattern@, domain@),
{
    proof {
        reveal_strlit("*");
        reveal_strlit("*.");
        reveal_strlit(".");
    }
    if str_eq(pattern, "*") {
        return true;
    }
    if starts_with(pattern, "*.") {
        let n = pattern.unicode_len();
        let suffix = pattern.substring_char(2, n);
        assert(suffix@ == pattern@.skip(2));
        if str_eq(domain, suffix) {
            return true;
        }
        let mut dotted = String::new();
        dotted.append(".");
        dotted.append(suffix);
        assert(dotted@ =~= seq!['.'] + suffix@);
        let r = ends_with(domain, dotted.as_str());
        proof {
            let d = domain@;
            if suffix@.len() + 1 <= d.len() {
                assert(d.skip(d.len() - suffix@.len() - 1) =~= d.subrange(
                    d.len() - dotted@.len(),
                    d.len() as int,
                ));
            }
        }
        return r;
    }
    str_eq(pattern, domain)
}

/// Whether `domain` matches a pattern of `allowlist`.
pub fn matches_domain(allowlist: &Vec<String>, domain: &str) -> (r: bool)
    ensures
        r == spec_matches_domain(allowlist.deep_view(), domain@),
{
    let ghost dv = allowlist.deep_view();
    let mut i: usize = 0;
    while i < allowlist.len()
        invariant
            i <= allowlist@.len(),
            dv == allowlist.deep_view(),
            forall|j: int| 0 <= j < i ==> !spec_domain_pattern_matches(#[trigger] dv[j], domain@),
        decreases allowlist@.len() - i,
    {
        if domain_pattern_matches(allowlist[i].as_str(), domain) {
            assert(dv[i as int] == allowlist@[i as int]@);
            return true;
        }
        assert(dv[i as int] == allowlist@[i as int]@);
        i = i + 1;
    }
    false
}

/// `s` without one trailing `/`.
fn strip_one_slash(s: &str) -> (r: &str)
    ensures
        r@ == strip_slash(s@),
{
    let n = s.unicode_len();
    if n > 0 && s.get_char(n - 1) == '/' {
        let r = s.substring_char(0, n - 1);
        assert(r@ =~= s@.drop_last());
        r
    } else {
        s
    }
}

/// Whether `path` lies under `prefix`.
pub fn matches_path(prefix: &str, path: &str) -> (r: bool)
    ensures
        r == spec_matches_path(prefix@, path@),
{
    proof {
        reveal_strlit(".");
        reveal_strlit("./");
        reveal_strlit("/");
    }
    let p = strip_one_slash(prefix);
    let q = strip_one_slash(path);
    if str_eq(p, ".") || str_eq(p, "./") {
        return true;
    }
    if str_eq(q, p) {
        return true;
    }
    let mut with_slash = String::new();
    with_slash.append(p);
    with_slash.append("/");
    assert(with_slash@ =~= p@.push('/'));
    let r = starts_with(q, with_slash.as_str());
    r
}

/// Whether the capability list holds one equal to `c`.
pub open spec fn holds(caps: Seq<Capability>, c: CapView) -> bool {
    exists|i: int| 0 <= i < caps.len() && #[trigger] caps[i]@ == c
}

/// Whether some capability of the list satisfies `pred`.
pub open spec fn any_cap(caps: Seq<Capability>, pred: spec_fn(CapView) -> bool) -> bool {
    exists|i: int| 0 <= i < caps.len() && pred(#[trigger] caps[i]@)
}

/// Whether a held capability grants the whole kind of `req`: a network
/// allowlist holding `*`, or a filesystem prefix list holding `.` or `*`.
pub open spec fn spec_wildcard_covers(held: CapView, req: CapView) -> bool {
    match (held, req) {
        (CapView::NetRead(a), CapView::NetRead(_)) => a.contains("*"@),
        (CapView::NetWrite(a), CapView::NetWrite(_)) => a.contains("*"@),
        (CapView::FsRead(p), CapView::FsRead(_)) => p.contains("."@) || p.contains("*"@),
        (CapView::FsWrite(p), CapView::FsWrite(_)) => p.contains("."@) || p.contains("*"@),
        _ => false,
    }
}

/// A set of capabilities granted to a run, kept in sorted order: each member
/// sorts before the next, so no two are equal.
#[derive(Debug)]
pub struct CapabilitySet {
    capabilities: Vec<Capability>,
}

impl CapabilitySet {
    /// The members, in sorted order.
    pub closed spec fn members(&self) -> Seq<Capability> {
        self.capabilities@
    }

    /// The members as plain values.
    pub open spec fn spec_views(&self) -> Seq<CapView> {
        self.members().map_values(|c: Capability| c@)
    }

    /// Whether a capability equal to `c` has been granted.
    pub open spec fn spec_has(&self, c: CapView) -> bool {
        holds(self.members(), c)
    }

    #[verifier::type_invariant]
    closed spec fn wf(self) -> bool {
        &&& forall|i: int, j: int|
            0 <= i < j < self.capabilities@.len() ==> #[trigger] self.capabilities@[i]@
                != #[trigger] self.capabilities@[j]@
        &&& forall|i: int, j: int|
            0 <= i && j == i + 1 && j < self.capabilities@.len() ==> #[trigger] cap_before(
                self.capabilities@[i]@,
                self.capabilities@[j]@,
            )
    }

    /// The empty set.
    pub fn new() -> (s: Self)
        ensures
            s.members().len() == 0,
    {
        CapabilitySet { capabilities: Vec::new() }
    }

    /// Grants a capability: it takes its place in sorted order; granting one
    /// already held changes nothing.
    #[verifier::spinoff_prover]
    pub fn grant(&mut self, capability: Capability)
        ensures
            old(self).spec_has(capability@) ==> final(self).members() == old(self).members(),
            !old(self).spec_has(capability@) ==> final(self).members() == old(self).members().insert(
                sorted_pos(old(self).spec_views(), capability@) as int,
                capability,
            ),
            final(self).spec_views() == spec_granted(old(self).spec_views(), capability@),
            in_order(final(self).spec_views()),
    {
        proof {
            use_type_invariant(&*self);
        }
        if self.has(&capability) {
            proof {
                let sv = self.spec_views();
                let i0 = choose|i: int| 0 <= i < self.members().len() && #[trigger] self.members()[i]@ == capability@;
                assert(sv[i0] == capability@);
                assert forall|i: int, j: int|
                    0 <= i && j == i + 1 && j < self.spec_views().len() implies #[trigger] cap_before(
                    self.spec_views()[i],
                    self.spec_views()[j],
                ) by {
                    assert(cap_before(self.capabilities@[i]@, self.capabilities@[j]@));
                }
            }
            return;
        }
        let mut caps = Vec::new();
        std::mem::swap(&mut caps, &mut self.capabilities);
        let ghost s0 = caps@;
        let mut k: usize = 0;
        while k < caps.len() && caps[k].precedes(&capability)
            invariant
                caps@ == s0,
                k <= s0.len(),
                forall|j: int| 0 <= j < k ==> cap_before(#[trigger] s0[j]@, capability@),
            decreases s0.len() - k,
        {
            k = k + 1;
        }
        let ghost cv = capability@;
        proof {
            let sv0 = s0.map_values(|c: Capability| c@);
            assert forall|j: int| 0 <= j < k implies cap_before(#[trigger] sv0[j], cv) by {
                assert(cap_before(s0[j]@, cv));
            }
            lemma_sorted_pos_at(sv0, cv, k as int);
            assert(!sv0.contains(cv)) by {
                if sv0.contains(cv) {
                    let i = choose|i: int| 0 <= i < sv0.len() && sv0[i] == cv;
                    assert(s0[i]@ == cv);
                }
            }
        }
        caps.insert(k, capability);
        proof {
            let s1 = caps@;
            assert(s1 == s0.insert(k as int, s1[k as int]));
            assert(s1[k as int]@ == cv);
            if k < s0.len() {
                assert(!cap_before(s0[k as int]@, cv));
                assert(s0[k as int]@ != cv);
                lemma_cap_total(s0[k as int]@, cv);
            }
            assert forall|i: int, j: int|
                0 <= i < j < s1.len() implies #[trigger] s1[i]@ != #[trigger] s1[j]@ by {
                if i < k && j < k + 1 {
                    if j == k {
                        assert(s0[i]@ != cv);
                    }
                } else if i < k {
                    assert(s1[j] == s0[j - 1]);
                } else if i == k {
                    assert(s1[j] == s0[j - 1]);
                    assert(s0[j - 1]@ != cv);
                } else {
                    assert(s1[i] == s0[i - 1]);
                    assert(s1[j] == s0[j - 1]);
                }
            }
            assert forall|i: int, j: int|
                0 <= i && j == i + 1 && j < s1.len() implies #[trigger] cap_before(s1[i]@, s1[j]@) by {
                if j < k {
                    assert(cap_before(s0[i]@, s0[j]@));
                } else if j == k {
                    assert(cap_before(s0[i]@, cv));
                } else if i == k {
                    assert(s1[j] == s0[k as int]);
                } else {
                    assert(s1[i] == s0[i - 1]);
                    assert(s1[j] == s0[j - 1]);
                    assert(cap_before(s0[i - 1]@, s0[j - 1]@));
                }
            }
        }
        self.capabilities = caps;
        proof {
            assert(self.spec_views() =~= s0.map_values(|c: Capability| c@).insert(k as int, cv));
            assert forall|i: int, j: int|
                0 <= i && j == i + 1 && j < self.spec_views().len() implies #[trigger] cap_before(
                self.spec_views()[i],
                self.spec_views()[j],
            ) by {
                assert(cap_before(self.capabilities@[i]@, self.capabilities@[j]@));
            }
        }
    }

    /// Grants a capability (the same as `grant`).
    pub fn allow(&mut self, capability: Capability)
        ensures
            old(self).spec_has(capability@) ==> final(self).members() == old(self).members(),
            !old(self).spec_has(capability@) ==> final(self).members() == old(self).members().insert(
                sorted_pos(old(self).spec_views(), capability@) as int,
                capability,
            ),
            final(self).spec_views() == spec_granted(old(self).spec_views(), capability@),
            in_order(final(self).spec_views()),
    {
        self.grant(capability)
    }

    /// Whether a capability equal to `capability` has been granted.
    pub fn has(&self, capability: &Capability) -> (r: bool)
        ensures
            r == self.spec_has(capability@),
    {
        let mut i: usize = 0;
        while i < self.capabilities.len()
            invariant
                i <= self.capabilities@.len(),
                forall|j: int| 0 <= j < i ==> #[trigger] self.capabilities@[j]@ != capability@,
            decreases self.capabilities@.len() - i,
        {
            if self.capabilities[i].same_as(capability) {
                return true;
            }
            i = i + 1;
        }
        false
    }

    /// Whether `capability` is allowed: granted exactly, or covered by a
    /// granted wildcard of its kind.
    pub fn allows(&self, capability: &Capability) -> (r: bool)
        ensures
            r == (self.spec_has(capability@) || any_cap(
                self.members(),
                |h: CapView| spec_wildcard_covers(h, capability@),
            )),
    {
        if self.has(capability) {
            return true;
        }
        let ghost pred = |h: CapView| spec_wildcard_covers(h, capability@);
        let mut i: usize = 0;
        while i < self.capabilities.len()
            invariant
                i <= self.capabilities@.len(),
                pred == (|h: CapView| spec_wildcard_covers(h, capability@)),
                forall|j: int| 0 <= j < i ==> !pred(#[trigger] self.capabilities@[j]@),
            decreases self.capabilities@.len() - i,
        {
            if wildcard_covers(&self.capabilities[i], capability) {
                assert(pred(self.capabilities@[i as int]@));
                return true;
            }
            i = i + 1;
        }
        false
    }

    /// Whether a granted `NetRead` allowlist matches `domain`.
    pub fn can_read_net(&self, domain: &str) -> (r: bool)
        ensures
            r == any_cap(
                self.members(),
                |c: CapView| c matches CapView::NetRead(l) && spec_matches_domain(l, domain@),
            ),
    {
        let ghost pred = |c: CapView| c matches CapView::NetRead(l) && spec_matches_domain(l, domain@);
        let mut i: usize = 0;
        while i < self.capabilities.len()
            invariant
                i <= self.capabilities@.len(),
                pred == (|c: CapView| c matches CapView::NetRead(l) && spec_matches_domain(l, domain@)),
                forall|j: int| 0 <= j < i ==> !pred(#[trigger] self.capabilities@[j]@),
            decreases self.capabilities@.len() - i,
        {
            match &self.capabilities[i] {
                Capability::NetRead { allowlist } => {
                    if matches_domain(allowlist, domain) {
                        assert(pred(self.capabilities@[i as int]@));
                        return true;
                    }
                },
                _ => {},
            }
            i = i + 1;
        }
        false
    }

    /// Whether a granted `NetWrite` allowlist matches `domain`.
    pub fn can_write_net(&self, domain: &str) -> (r: bool)
        ensures
            r == any_cap(
                self.members(),
                |c: CapView| c matches CapView::NetWrite(l) && spec_matches_domain(l, domain@),
            ),
    {
        let ghost pred = |c: CapView| c matches CapView::NetWrite(l) && spec_matches_domain(l, domain@);
        let mut i: usize = 0;
        while i < self.capabilities.len()
            invariant
                i <= self.capabilities@.len(),
                pred == (|c: CapView| c matches CapView::NetWrite(l) && spec_matches_domain(l, domain@)),
                forall|j: int| 0 <= j < i ==> !pred(#[trigger] self.capabilities@[j]@),
            decreases self.capabilities@.len() - i,
        {
            match &self.capabilities[i] {
                Capability::NetWrite { allowlist } => {
                    if matches_domain(allowlist, domain) {
                        assert(pred(self.capabilities@[i as int]@));
                        return true;
                    }
                },
                _ => {},
            }
            i = i + 1;
        }
        false
    }

    /// Whether a granted `FsRead` prefix covers `path`.
    pub fn can_read_fs(&self, path: &str) -> (r: bool)
        ensures
            r == any_cap(
                self.members(),
                |c: CapView| c matches CapView::FsRead(p) && any_prefix_matches(p, path@),
            ),
    {
        let ghost pred = |c: CapView| c matches CapView::FsRead(p) && any_prefix_matches(p, path@);
        let mut i: usize = 0;
        while i < self.capabilities.len()
            invariant
                i <= self.capabilities@.len(),
                pred == (|c: CapView| c matches CapView::FsRead(p) && any_prefix_matches(p, path@)),
                forall|j: int| 0 <= j < i ==> !pred(#[trigger] self.capabilities@[j]@),
            decreases self.capabilities@.len() - i,
        {
            match &self.capabilities[i] {
                Capability::FsRead { prefixes } => {
                    if prefixes_match(prefixes, path) {
                        assert(pred(self.capabilities@[i as int]@));
                        return true;
                    }
                },
                _ => {},
            }
            i = i + 1;
        }
        false
    }

    /// Whether a granted `FsWrite` prefix covers `path`.
    pub fn can_write_fs(&self, path: &str) -> (r: bool)
        ensures
            r == any_cap(
                self.members(),
                |c: CapView| c matches CapView::FsWrite(p) && any_prefix_matches(p, path@),
            ),
    {
        let ghost pred = |c: CapView| c matches CapView::FsWrite(p) && any_prefix_matches(p, path@);
        let mut i: usize = 0;
        while i < self.capabilities.len()
            invariant
                i <= self.capabilities@.len(),
                pred == (|c: CapView| c matches CapView::FsWrite(p) && any_prefix_matches(p, path@)),
                forall|j: int| 0 <= j < i ==> !pred(#[trigger] self.capabilities@[j]@),
            decreases self.capabilities@.len() - i,
        {
            match &self.capabilities[i] {
                Capability::FsWrite { prefixes } => {
                    if prefixes_match(prefixes, path) {
                        assert(pred(self.capabilities@[i as int]@));
                        return true;
                    }
                },
                _ => {},
            }
            i = i + 1;
        }
        false
    }

    /// Whether a granted `DbRead` lists `table`.
    pub fn can_read_db(&self, table: &str) -> (r: bool)
        ensures
            r == any_cap(
                self.members(),
                |c: CapView| c matches CapView::DbRead(t) && t.contains(table@),
            ),
    {
        let ghost pred = |c: CapView| c matches CapView::DbRead(t) && t.contains(table@);
        let mut i: usize = 0;
        while i < self.capabilities.len()
            invariant
                i <= self.capabilities@.len(),
                pred == (|c: CapView| c matches CapView::DbRead(t) && t.contains(table@)),
                forall|j: int| 0 <= j < i ==> !pred(#[trigger] self.capabilities@[j]@),
            decreases self.capabilities@.len() - i,
        {
            match &self.capabilities[i] {
                Capability::DbRead { tables } => {
                    if list_has(tables, table) {
                        assert(pred(self.capabilities@[i as int]@));
                        return true;
                    }
                },
                _ => {},
            }
            i = i + 1;
        }
        false
    }

    /// Whether a granted `DbWrite` lists `table`.
    pub fn can_write_db(&self, table: &str) -> (r: bool)
        ensures
            r == any_cap(
                self.members(),
                |c: CapView| c matches CapView::DbWrite(t) && t.contains(table@),
            ),
    {
        let ghost pred = |c: CapView| c matches CapView::DbWrite(t) && t.contains(table@);
        let mut i: usize = 0;
        while i < self.capabilities.len()
            invariant
                i <= self.capabilities@.len(),
                pred == (|c: CapView| c matches CapView::DbWrite(t) && t.contains(table@)),
                forall|j: int| 0 <= j < i ==> !pred(#[trigger] self.capabilities@[j]@),
            decreases self.capabilities@.len() - i,
        {
            match &self.capabilities[i] {
                Capability::DbWrite { tables } => {
                    if list_has(tables, table) {
                        assert(pred(self.capabilities@[i as int]@));
                        return true;
                    }
                },
                _ => {},
            }
            i = i + 1;
        }
        false
    }

    /// Whether `ClockRead` has been granted.
    pub fn can_read_clock(&self) -> (r: bool)
        ensures
            r == any_cap(self.members(), |c: CapView| c is ClockRead),
    {
        let ghost pred = |c: CapView| c is ClockRead;
        let mut i: usize = 0;
        while i < self.capabilities.len()
            invariant
                i <= self.capabilities@.len(),
                pred == (|c: CapView| c is ClockRead),
                forall|j: int| 0 <= j < i ==> !pred(#[trigger] self.capabilities@[j]@),
            decreases self.capabilities@.len() - i,
        {
            match &self.capabilities[i] {
                Capability::ClockRead => {
                    assert(pred(self.capabilities@[i as int]@));
                    return true;
                },
                _ => {},
            }
            i = i + 1;
        }
        false
    }

    /// Whether a granted `EnvRead` lists `var`.
    pub fn can_read_env(&self, var: &str) -> (r: bool)
        ensures
            r == any_cap(
                self.members(),
                |c: CapView| c matches CapView::EnvRead(v) && v.contains(var@),
            ),
    {
        let ghost pred = |c: CapView| c matches CapView::EnvRead(v) && v.contains(var@);
        let mut i: usize = 0;
        while i < self.capabilities.len()
            invariant
                i <= self.capabilities@.len(),
                pred == (|c: CapView| c matches CapView::EnvRead(v) && v.contains(var@)),
                forall|j: int| 0 <= j < i ==> !pred(#[trigger] self.capabilities@[j]@),
            decreases self.capabilities@.len() - i,
        {
            match &self.capabilities[i] {
                Capability::EnvRead { vars } => {
                    if list_has(vars, var) {
                        assert(pred(self.capabilities@[i as int]@));
                        return true;
                    }
                },
                _ => {},
            }
            i = i + 1;
        }
        false
    }

    /// The number of distinct capabilities granted.
    pub fn len(&self) -> (n: usize)
        ensures
            n == self.members().len(),
    {
        self.capabilities.len()
    }

    /// Whether nothing has been granted.
    pub fn is_empty(&self) -> (b: bool)
        ensures
            b == (self.members().len() == 0),
    {
        self.capabilities.len() == 0
    }

    /// A copy of the set.
    pub fn duplicate(&self) -> (s: Self)
        ensures
            s.spec_views() == self.spec_views(),
    {
        proof {
            use_type_invariant(self);
        }
        let v = self.iter();
        proof {
            assert forall|i: int, j: int| 0 <= i < j < v@.len() implies #[trigger] v@[i]@ != #[trigger] v@[j]@ by {
                assert(self.capabilities@[i]@ != self.capabilities@[j]@);
            }
            assert forall|i: int, j: int|
                0 <= i && j == i + 1 && j < v@.len() implies #[trigger] cap_before(v@[i]@, v@[j]@) by {
                assert(cap_before(self.capabilities@[i]@, self.capabilities@[j]@));
            }
        }
        let s = CapabilitySet { capabilities: v };
        assert(s.spec_views() =~= self.spec_views());
        s
    }

    /// The granted capabilities, in sorted order.
    pub fn iter(&self) -> (v: Vec<Capability>)
        ensures
            v@.len() == self.members().len(),
            forall|i: int| 0 <= i < v@.len() ==> #[trigger] v@[i]@ == self.members()[i]@,
            in_order(v@.map_values(|c: Capability| c@)),
    {
        proof {
            use_type_invariant(self);
        }
        let mut v: Vec<Capability> = Vec::new();
        let mut i: usize = 0;
        while i < self.capabilities.len()
            invariant
                i <= self.capabilities@.len(),
                v@.len() == i,
                forall|j: int| 0 <= j < i ==> #[trigger] v@[j]@ == self.capabilities@[j]@,
            decreases self.capabilities@.len() - i,
        {
            v.push(self.capabilities[i].duplicate());
            i = i + 1;
        }
        proof {
            let w = v@.map_values(|c: Capability| c@);
            assert forall|a: int, b: int| 0 <= a && b == a + 1 && b < w.len() implies #[trigger] cap_before(w[a], w[b]) by {
                assert(cap_before(self.capabilities@[a]@, self.capabilities@[b]@));
                assert(w[a] == v@[a]@);
                assert(w[b] == v@[b]@);
            }
        }
        v
    }
}

impl Default for CapabilitySet {
    fn default() -> (s: Self)
        ensures
            s.members().len() == 0,
    {
        CapabilitySet::new()
    }
}

/// Whether a prefix of the list covers `path`.
pub open spec fn any_prefix_matches(prefixes: Seq<Seq<char>>, path: Seq<char>) -> bool {
    exists|i: int| 0 <= i < prefixes.len() && spec_matches_path(#[trigger] prefixes[i], path)
}

/// Whether a prefix of the list covers `path` (executable).
pub fn prefixes_match(prefixes: &Vec<String>, path: &str) -> (r: bool)
    ensures
        r == any_prefix_matches(prefixes.deep_view(), path@),
{
    let ghost dv = prefixes.deep_view();
    let mut i: usize = 0;
    while i < prefixes.len()
        invariant
            i <= prefixes@.len(),
            dv == prefixes.deep_view(),
            forall|j: int| 0 <= j < i ==> !spec_matches_path(#[trigger] dv[j], path@),
        decreases prefixes@.len() - i,
    {
        assert(dv[i as int] == prefixes@[i as int]@);
        if matches_path(prefixes[i].as_str(), path) {
            return true;
        }
        i = i + 1;
    }
    false
}

/// Whether the list holds a string equal to `s`.
pub fn list_has(list: &Vec<String>, s: &str) -> (r: bool)
    ensures
        r == list.deep_view().contains(s@),
{
    let r = vec_contains_str(list, s);
    proof {
        let dv = list.deep_view();
        if r {
            let i = choose|i: int| 0 <= i < list@.len() && #[trigger] list@[i]@ == s@;
            assert(dv[i] == s@);
        } else {
            assert forall|i: int| 0 <= i < dv.len() implies dv[i] != s@ by {
                assert(dv[i] == list@[i]@);
            }
        }
    }
    r
}

/// Whether `held` grants the whole kind of `req` by a wildcard.
pub fn wildcard_covers(held: &Capability, req: &Capability) -> (r: bool)
    ensures
        r == spec_wildcard_covers(held@, req@),
{
    proof {
        reveal_strlit("*");
        reveal_strlit(".");
    }
    match (held, req) {
        (Capability::NetRead { allowlist }, Capability::NetRead { .. }) => list_has(allowlist, "*"),
        (Capability::NetWrite { allowlist }, Capability::NetWrite { .. }) => list_has(
            allowlist,
            "*",
        ),
        (Capability::FsRead { prefixes }, Capability::FsRead { .. }) => list_has(prefixes, ".")
            || list_has(prefixes, "*"),
        (Capability::FsWrite { prefixes }, Capability::FsWrite { .. }) => list_has(prefixes, ".")
            || list_has(prefixes, "*"),
        _ => false,
    }
}

} // verus!
