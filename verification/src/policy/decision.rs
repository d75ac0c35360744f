//! Decision proofs: the record of a policy decision, sealed with a BLAKE3
//! digest of its contents.
use vstd::prelude::*;
use vstd::utf8::encode_utf8;
use crate::core_types::error::CoreError;
use crate::core_types::hash;
use crate::core_types::hash::spec_blake3;
use crate::core_types::id::{EventId, NodeId, random_uuid, uuid_text, uuid_v4_marked, spec_uuid_text};
use crate::core_types::text::{str_eq, to_owned_string};

verus! {

/// The kind of a decision.
#[derive(Debug, Clone, Copy, PartialEq, Eq, Structural)]
pub enum ProofKind {
    Allow,
    Deny,
    CapabilityCheck,
    PolicyEval,
}

/// The debug name of a proof kind.
pub open spec fn kind_debug(k: ProofKind) -> Seq<char> {
    match k {
        ProofKind::Allow => "Allow"@,
        ProofKind::Deny => "Deny"@,
        ProofKind::CapabilityCheck => "CapabilityCheck"@,
        ProofKind::PolicyEval => "PolicyEval"@,
    }
}

/// A named value recorded in a proof.
#[derive(Debug, Clone, PartialEq, Eq)]
pub struct ProofField {
    pub name: String,
    pub value: Vec<u8>,
}

/// Appends `b` to `v`.
fn append_bytes(v: &mut Vec<u8>, b: &[u8])
    ensures
        final(v)@ == old(v)@ + b@,
{
    let mut i: usize = 0;
    while i < b.len()
        invariant
            i <= b@.len(),
            v@ == old(v)@ + b@.take(i as int),
        decreases b@.len() - i,
    {
        v.push(b[i]);
        i = i + 1;
        assert(v@ =~= old(v)@ + b@.take(i as int));
    }
    assert(b@.take(b@.len() as int) =~= b@);
}

/// The UTF-8 bytes of `s`, copied.
fn utf8_bytes(s: &str) -> (v: Vec<u8>)
    ensures
        v@ == encode_utf8(s@),
{
    let mut v: Vec<u8> = Vec::new();
    append_bytes(&mut v, s.as_bytes());
    assert(v@ =~= encode_utf8(s@));
    v
}

impl ProofField {
    /// A field from its name and bytes.
    pub fn new(name: String, value: Vec<u8>) -> (f: Self)
        ensures
            f.name == name,
            f.value == value,
    {
        ProofField { name, value }
    }

    /// A field holding the UTF-8 bytes of `value`.
    pub fn string(name: String, value: &str) -> (f: Self)
        ensures
            f.name == name,
            f.value@ == encode_utf8(value@),
    {
        ProofField { name, value: utf8_bytes(value) }
    }

    /// A field holding `true` or `false` as text.
    pub fn boolean(name: String, value: bool) -> (f: Self)
        ensures
            f.name == name,
            f.value@ == encode_utf8(if value { "true"@ } else { "false"@ }),
    {
        let text = if value { "true" } else { "false" };
        ProofField { name, value: utf8_bytes(text) }
    }
}

/// The eight bytes of `v`, most significant first.
pub open spec fn u64_be_bytes(v: u64) -> Seq<u8> {
    Seq::new(8, |i: int| ((v >> ((8 * (7 - i)) as u64)) & 0xffu64) as u8)
}

/// The bytes of the fields: each name in UTF-8 followed by its value.
pub open spec fn fields_bytes(fs: Seq<ProofField>) -> Seq<u8>
    decreases fs.len(),
{
    if fs.len() == 0 {
        Seq::empty()
    } else {
        fields_bytes(fs.drop_last()) + encode_utf8(fs.last().name@) + fs.last().value@
    }
}

/// A policy decision with the context it was made in.
#[derive(Debug, Clone, PartialEq, Eq)]
pub struct DecisionProof {
    pub id: String,
    pub kind: ProofKind,
    pub event_id: Option<EventId>,
    pub node_id: Option<NodeId>,
    /// Seconds since the Unix epoch.
    pub timestamp: u64,
    pub decision: bool,
    pub policy_id: Option<String>,
    pub fields: Vec<ProofField>,
    /// The BLAKE3 digest of the signed bytes.
    pub signature: hash::Hash,
}

/// The bytes a proof's signature covers: the identifier, the kind's name,
/// the timestamp, the decision and every field.
pub open spec fn proof_bytes(p: DecisionProof) -> Seq<u8> {
    encode_utf8(p.id@) + encode_utf8(kind_debug(p.kind)) + u64_be_bytes(p.timestamp) + seq![
        if p.decision { 1u8 } else { 0u8 },
    ] + fields_bytes(p.fields@)
}

/// The whole seconds since the Unix epoch.
fn system_time_secs() -> (t: u64) {
    let (secs, _nanos) = crate::core_types::time::system_time_parts();
    secs
}

impl DecisionProof {
    /// A proof with a fresh random identifier and the current time, no
    /// context, no fields and the empty signature.
    pub fn new(kind: ProofKind, decision: bool) -> (p: Self)
        ensures
            p.kind == kind,
            p.decision == decision,
            p.event_id is None,
            p.node_id is None,
            p.policy_id is None,
            p.fields@.len() == 0,
            p.signature@ == hash::empty_digest(),
            exists|v: u128| uuid_v4_marked(v) && p.id@ == spec_uuid_text(v),
    {
        let timestamp = system_time_secs();
        let v = random_uuid();
        DecisionProof {
            id: uuid_text(v),
            kind,
            event_id: None,
            node_id: None,
            timestamp,
            decision,
            policy_id: None,
            fields: Vec::new(),
            signature: hash::Hash::empty(),
        }
    }

    /// The proof with its triggering event.
    pub fn with_event(self, event_id: EventId) -> (p: Self)
        ensures
            p == (DecisionProof { event_id: Some(event_id), ..self }),
    {
        DecisionProof { event_id: Some(event_id), ..self }
    }

    /// The proof with the node that decided.
    pub fn with_node(self, node_id: NodeId) -> (p: Self)
        ensures
            p == (DecisionProof { node_id: Some(node_id), ..self }),
    {
        DecisionProof { node_id: Some(node_id), ..self }
    }

    /// The proof with the policy used.
    pub fn with_policy(self, policy_id: String) -> (p: Self)
        ensures
            p == (DecisionProof { policy_id: Some(policy_id), ..self }),
    {
        DecisionProof { policy_id: Some(policy_id), ..self }
    }

    /// The proof with one more field.
    pub fn with_field(self, field: ProofField) -> (p: Self)
        ensures
            p.fields@ == self.fields@.push(field),
            p.id == self.id,
            p.kind == self.kind,
            p.event_id == self.event_id,
            p.node_id == self.node_id,
            p.timestamp == self.timestamp,
            p.decision == self.decision,
            p.policy_id == self.policy_id,
            p.signature == self.signature,
    {
        let mut p = self;
        p.fields.push(field);
        p
    }

    /// The bytes the signature covers.
    fn signed_bytes(&self) -> (v: Vec<u8>)
        ensures
            v@ == proof_bytes(*self),
    {
        proof {
            reveal_strlit("Allow");
            reveal_strlit("Deny");
            reveal_strlit("CapabilityCheck");
            reveal_strlit("PolicyEval");
        }
        let mut data = utf8_bytes(self.id.as_str());
        let name = match self.kind {
            ProofKind::Allow => "Allow",
            ProofKind::Deny => "Deny",
            ProofKind::CapabilityCheck => "CapabilityCheck",
            ProofKind::PolicyEval => "PolicyEval",
        };
        append_bytes(&mut data, name.as_bytes());
        let mut k: u64 = 0;
        let ghost start = data@;
        while k < 8
            invariant
                k <= 8,
                data@ == start + u64_be_bytes(self.timestamp).take(k as int),
            decreases 8 - k,
        {
            let shift: u64 = 8 * (7 - k);
            let b: u8 = ((self.timestamp >> shift) & 0xff) as u8;
            data.push(b);
            k = k + 1;
            assert(data@ =~= start + u64_be_bytes(self.timestamp).take(k as int));
        }
        assert(u64_be_bytes(self.timestamp).take(8) =~= u64_be_bytes(self.timestamp));
        data.push(if self.decision { 1u8 } else { 0u8 });
        let ghost head = data@;
        let mut i: usize = 0;
        while i < self.fields.len()
            invariant
                i <= self.fields@.len(),
                data@ == head + fields_bytes(self.fields@.take(i as int)),
            decreases self.fields@.len() - i,
        {
            assert(self.fields@.take(i + 1).drop_last() =~= self.fields@.take(i as int));
            append_bytes(&mut data, self.fields[i].name.as_str().as_bytes());
            append_bytes(&mut data, self.fields[i].value.as_slice());
            i = i + 1;
            assert(data@ =~= head + fields_bytes(self.fields@.take(i as int)));
        }
        assert(self.fields@.take(self.fields@.len() as int) =~= self.fields@);
        assert(data@ =~= proof_bytes(*self));
        data
    }

    /// The proof sealed with the digest of its signed bytes.
    pub fn finalize(self) -> (r: Result<Self, CoreError>)
        ensures
            r matches Ok(p) && p == (DecisionProof { signature: p.signature, ..self }) && p.signature@ == spec_blake3(
                proof_bytes(self),
            ),
    {
        let data = self.signed_bytes();
        let sig = hash::Hash::compute(data.as_slice());
        Ok(DecisionProof { signature: sig, ..self })
    }

    /// Whether the signature is the digest of the signed bytes.
    pub fn verify(&self) -> (r: Result<bool, CoreError>)
        ensures
            r == Ok::<bool, CoreError>(self.signature@ == spec_blake3(proof_bytes(*self))),
    {
        let data = self.signed_bytes();
        let computed = hash::Hash::compute(data.as_slice());
        Ok(computed.same_as(&self.signature))
    }

    /// The first field named `name`.
    pub fn get_field(&self, name: &str) -> (r: Option<&ProofField>)
        ensures
            match r {
                Some(f) => exists|i: int| 0 <= i < self.fields@.len() && self.fields@[i] == *f
                    && self.fields@[i].name@ == name@ && (forall|j: int| 0 <= j < i ==> #[trigger] self.fields@[j].name@ != name@),
                None => forall|j: int| 0 <= j < self.fields@.len() ==> #[trigger] self.fields@[j].name@ != name@,
            },
    {
        let mut i: usize = 0;
        while i < self.fields.len()
            invariant
                i <= self.fields@.len(),
                forall|j: int| 0 <= j < i ==> #[trigger] self.fields@[j].name@ != name@,
            decreases self.fields@.len() - i,
        {
            if str_eq(self.fields[i].name.as_str(), name) {
                return Some(&self.fields[i]);
            }
            i = i + 1;
        }
        None
    }

    /// The names of the fields, in order.
    pub fn field_names(&self) -> (v: Vec<&str>)
        ensures
            v@.len() == self.fields@.len(),
            forall|i: int| 0 <= i < v@.len() ==> #[trigger] v@[i]@ == self.fields@[i].name@,
    {
        let mut v: Vec<&str> = Vec::new();
        let mut i: usize = 0;
        while i < self.fields.len()
            invariant
                i <= self.fields@.len(),
                v@.len() == i,
                forall|j: int| 0 <= j < i ==> #[trigger] v@[j]@ == self.fields@[j].name@,
            decreases self.fields@.len() - i,
        {
            v.push(self.fields[i].name.as_str());
            i = i + 1;
        }
        v
    }
}

/// Sealing a proof makes it verify.
pub proof fn lemma_finalized_proof_verifies(p: DecisionProof, sealed: DecisionProof)
    requires
        sealed == (DecisionProof { signature: sealed.signature, ..p }),
        sealed.signature@ == spec_blake3(proof_bytes(p)),
    ensures
        sealed.signature@ == spec_blake3(proof_bytes(sealed)),
{
    assert(proof_bytes(sealed) == proof_bytes(p));
}

/// Decision proofs in the order they were added.
pub struct ProofLog {
    proofs: Vec<DecisionProof>,
}

/// The position of the last proof triggered by event `e`, or -1.
pub open spec fn spec_last_with_event(ps: Seq<DecisionProof>, e: EventId) -> int
    decreases ps.len(),
{
    if ps.len() == 0 {
        -1
    } else if ps.last().event_id == Some(e) {
        ps.len() - 1
    } else {
        spec_last_with_event(ps.drop_last(), e)
    }
}

/// The proofs made by node `n`, in order.
pub open spec fn spec_with_node(ps: Seq<DecisionProof>, n: NodeId) -> Seq<DecisionProof> {
    ps.filter(|p: DecisionProof| p.node_id == Some(n))
}

impl ProofLog {
    /// The proofs, in order.
    pub closed spec fn proofs(&self) -> Seq<DecisionProof> {
        self.proofs@
    }

    /// An empty log.
    pub fn new() -> (l: Self)
        ensures
            l.proofs().len() == 0,
    {
        ProofLog { proofs: Vec::new() }
    }

    /// Appends a proof; its signature is checked and the outcome ignored.
    pub fn add(&mut self, proof: DecisionProof) -> (r: Result<(), CoreError>)
        ensures
            r is Ok,
            final(self).proofs() == old(self).proofs().push(proof),
    {
        match proof.verify() {
            Ok(_) => {},
            Err(e) => {
                return Err(e);
            },
        }
        self.proofs.push(proof);
        Ok(())
    }

    /// The proof at position `idx`.
    pub fn get(&self, idx: usize) -> (r: Option<&DecisionProof>)
        ensures
            idx < self.proofs().len() ==> r == Some(&self.proofs()[idx as int]),
            idx >= self.proofs().len() ==> r is None,
    {
        if idx < self.proofs.len() {
            Some(&self.proofs[idx])
        } else {
            None
        }
    }

    /// The last proof triggered by `event_id`.
    pub fn get_by_event(&self, event_id: EventId) -> (r: Option<&DecisionProof>)
        ensures
            spec_last_with_event(self.proofs(), event_id) < 0 ==> r is None,
            spec_last_with_event(self.proofs(), event_id) >= 0 ==> r == Some(
                &self.proofs()[spec_last_with_event(self.proofs(), event_id)],
            ),
    {
        let mut i: usize = self.proofs.len();
        assert(self.proofs@.take(i as int) =~= self.proofs@);
        while i > 0
            invariant
                i <= self.proofs@.len(),
                spec_last_with_event(self.proofs@, event_id) == spec_last_with_event(self.proofs@.take(i as int), event_id),
            decreases i,
        {
            assert(self.proofs@.take(i as int).drop_last() =~= self.proofs@.take(i - 1));
            if self.proofs[i - 1].event_id == Some(event_id) {
                return Some(&self.proofs[i - 1]);
            }
            i = i - 1;
        }
        assert(self.proofs@.take(0) =~= Seq::<DecisionProof>::empty());
        None
    }

    /// The proofs made by `node_id`, in order.
    pub fn get_by_node(&self, node_id: NodeId) -> (v: Vec<&DecisionProof>)
        ensures
            v@.map_values(|p: &DecisionProof| *p) == spec_with_node(self.proofs(), node_id),
    {
        let ghost pred = |p: DecisionProof| p.node_id == Some(node_id);
        let mut v: Vec<&DecisionProof> = Vec::new();
        let mut i: usize = 0;
        while i < self.proofs.len()
            invariant
                i <= self.proofs@.len(),
                pred == (|p: DecisionProof| p.node_id == Some(node_id)),
                v@.map_values(|p: &DecisionProof| *p) == self.proofs@.take(i as int).filter(pred),
            decreases self.proofs@.len() - i,
        {
            reveal_with_fuel(Seq::<_>::filter, 1);
            assert(self.proofs@.take(i + 1).drop_last() =~= self.proofs@.take(i as int));
            if self.proofs[i].node_id == Some(node_id) {
                v.push(&self.proofs[i]);
            }
            i = i + 1;
            assert(v@.map_values(|p: &DecisionProof| *p) =~= self.proofs@.take(i as int).filter(pred));
        }
        assert(self.proofs@.take(self.proofs@.len() as int) =~= self.proofs@);
        v
    }

    /// Every proof, in order.
    pub fn all(&self) -> (s: &[DecisionProof])
        ensures
            s@ == self.proofs(),
    {
        self.proofs.as_slice()
    }

    /// The number of proofs.
    pub fn len(&self) -> (n: usize)
        ensures
            n == self.proofs().len(),
    {
        self.proofs.len()
    }

    /// Whether the log holds no proof.
    pub fn is_empty(&self) -> (b: bool)
        ensures
            b == (self.proofs().len() == 0),
    {
        self.proofs.len() == 0
    }

    /// Removes every proof.
    pub fn clear(&mut self)
        ensures
            final(self).proofs().len() == 0,
    {
        self.proofs.clear();
    }
}

impl Default for ProofLog {
    fn default() -> (l: Self)
        ensures
            l.proofs().len() == 0,
    {
        ProofLog::new()
    }
}

/// Builds a decision proof step by step.
pub struct ProofBuilder {
    proof: DecisionProof,
}

impl ProofBuilder {
    /// The proof being built.
    pub closed spec fn current(&self) -> DecisionProof {
        self.proof
    }

    /// A builder for a fresh proof.
    pub fn new(kind: ProofKind, decision: bool) -> (b: Self)
        ensures
            b.current().kind == kind,
            b.current().decision == decision,
            b.current().event_id is None,
            b.current().node_id is None,
            b.current().policy_id is None,
            b.current().fields@.len() == 0,
    {
        ProofBuilder { proof: DecisionProof::new(kind, decision) }
    }

    /// Sets the triggering event.
    pub fn event(self, event_id: EventId) -> (b: Self)
        ensures
            b.current() == (DecisionProof { event_id: Some(event_id), ..self.current() }),
    {
        ProofBuilder { proof: self.proof.with_event(event_id) }
    }

    /// Sets the deciding node.
    pub fn node(self, node_id: NodeId) -> (b: Self)
        ensures
            b.current() == (DecisionProof { node_id: Some(node_id), ..self.current() }),
    {
        ProofBuilder { proof: self.proof.with_node(node_id) }
    }

    /// Sets the policy.
    pub fn policy(self, policy_id: String) -> (b: Self)
        ensures
            b.current() == (DecisionProof { policy_id: Some(policy_id), ..self.current() }),
    {
        ProofBuilder { proof: self.proof.with_policy(policy_id) }
    }

    /// Adds a field.
    pub fn field(self, field: ProofField) -> (b: Self)
        ensures
            b.current().fields@ == self.current().fields@.push(field),
            b.current().kind == self.current().kind,
            b.current().decision == self.current().decision,
            b.current().event_id == self.current().event_id,
            b.current().node_id == self.current().node_id,
            b.current().policy_id == self.current().policy_id,
    {
        ProofBuilder { proof: self.proof.with_field(field) }
    }

    /// The sealed proof.
    pub fn build(self) -> (r: Result<DecisionProof, CoreError>)
        ensures
            r matches Ok(p) && p == (DecisionProof { signature: p.signature, ..self.current() })
                && p.signature@ == spec_blake3(proof_bytes(self.current())),
    {
        self.proof.finalize()
    }
}

} // verus!
