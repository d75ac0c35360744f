//! Identifiers of runs, events, nodes, workers and tasks: 128-bit UUID values.
use vstd::prelude::*;
use crate::core_types::hash::{hex_encode, spec_hex_encode, lemma_hex_encode_len};

verus! {

/// The sixteen bytes of a UUID value, most significant first.
pub open spec fn uuid_bytes(v: u128) -> Seq<u8> {
    Seq::new(16, |i: int| ((v >> ((8 * (15 - i)) as u128)) & 0xffu128) as u8)
}

/// The hyphenated lowercase text of a UUID value, grouped 8-4-4-4-12.
pub open spec fn spec_uuid_text(v: u128) -> Seq<char> {
    let h = spec_hex_encode(uuid_bytes(v));
    h.subrange(0, 8) + seq!['-'] + h.subrange(8, 12) + seq!['-'] + h.subrange(12, 16) + seq!['-']
        + h.subrange(16, 20) + seq!['-'] + h.subrange(20, 32)
}

/// The hyphenated lowercase text of a UUID value.
pub fn uuid_text(v: u128) -> (s: String)
    ensures
        s@ == spec_uuid_text(v),
{
    let mut bytes: Vec<u8> = Vec::new();
    let mut i: u32 = 0;
    while i < 16
        invariant
            i <= 16,
            bytes@.len() == i,
            forall|k: int| 0 <= k < i ==> bytes@[k] == uuid_bytes(v)[k],
        decreases 16 - i,
    {
        let shift: u32 = 8 * (15 - i);
        let b: u8 = ((v >> shift) & 0xff) as u8;
        bytes.push(b);
        i = i + 1;
    }
    assert(bytes@ =~= uuid_bytes(v));
    let h = hex_encode(bytes.as_slice());
    proof {
        lemma_hex_encode_len(bytes@);
        reveal_strlit("-");
    }
    let hs = h.as_str();
    let mut s = String::new();
    s.append(hs.substring_char(0, 8));
    s.append("-");
    s.append(hs.substring_char(8, 12));
    s.append("-");
    s.append(hs.substring_char(12, 16));
    s.append("-");
    s.append(hs.substring_char(16, 20));
    s.append("-");
    s.append(hs.substring_char(20, 32));
    s
}

/// The bits of a UUID that hold its version and variant.
pub open spec fn uuid_v4_marked(v: u128) -> bool {
    v & 0x0000_0000_0000_F000_C000_0000_0000_0000u128 == 0x0000_0000_0000_4000_8000_0000_0000_0000u128
}

/// A fresh random version-4 UUID as a 128-bit value.
///
/// Calls `uuid::Uuid::new_v4` and reads it back with `as_u128`. The value is
/// random; the contract states only the version and variant bits that
/// `new_v4` sets.
#[verifier::external_body]
pub(crate) fn random_uuid() -> (v: u128)
    ensures
        uuid_v4_marked(v),
{
    uuid::Uuid::new_v4().as_u128()
}

/// The UUID value whose sixteen bytes, most significant first, are `bytes`.
///
/// Calls `u128::from_be_bytes`, which reads the bytes in big-endian order.
#[verifier::external_body]
fn u128_from_be_bytes(bytes: [u8; 16]) -> (v: u128)
    ensures
        uuid_bytes(v) == bytes@,
{
    u128::from_be_bytes(bytes)
}

/// The sixteen bytes of `v`, most significant first.
///
/// Calls `u128::to_be_bytes`, which writes the bytes in big-endian order.
#[verifier::external_body]
fn u128_to_be_bytes(v: u128) -> (b: [u8; 16])
    ensures
        b@ == uuid_bytes(v),
{
    v.to_be_bytes()
}

/// The value of the version-5 UUID that `uuid::Uuid::new_v5` derives from the
/// DNS namespace and the UTF-8 bytes of a name.
pub uninterp spec fn uuid_v5_dns(name: Seq<char>) -> u128;

/// Calls `uuid::Uuid::new_v5` with `Uuid::NAMESPACE_DNS` and the bytes of
/// `name`, read back with `as_u128`. The result is a SHA-1 digest of its
/// arguments, named here by `uuid_v5_dns`.
#[verifier::external_body]
fn uuid_v5_dns_of(name: &str) -> (v: u128)
    ensures
        v == uuid_v5_dns(name@),
{
    uuid::Uuid::new_v5(&uuid::Uuid::NAMESPACE_DNS, name.as_bytes()).as_u128()
}

/// Display text of an identifier: its prefix and the hyphenated UUID.
pub open spec fn spec_id_text(prefix: Seq<char>, v: u128) -> Seq<char> {
    prefix + spec_uuid_text(v)
}

/// The display text of a node identifier.
pub open spec fn spec_node_text(v: u128) -> Seq<char> {
    spec_id_text("node_"@, v)
}

/// Identifier of a single workflow execution.
#[derive(Debug, Clone, Copy, PartialEq, Eq, Hash, PartialOrd, Ord, Structural)]
pub struct RunId {
    pub value: u128,
}

impl RunId {
    /// A fresh random identifier.
    pub fn new() -> (id: Self)
        ensures
            uuid_v4_marked(id.value),
    {
        RunId { value: random_uuid() }
    }

    /// The identifier holding `value`.
    pub fn from_u128(value: u128) -> (id: Self)
        ensures
            id.value == value,
    {
        RunId { value }
    }

    /// The identifier whose UUID has these sixteen bytes.
    pub fn from_bytes(bytes: [u8; 16]) -> (id: Self)
        ensures
            uuid_bytes(id.value) == bytes@,
    {
        RunId { value: u128_from_be_bytes(bytes) }
    }

    /// The sixteen bytes of the UUID.
    pub fn as_bytes(&self) -> (b: [u8; 16])
        ensures
            b@ == uuid_bytes(self.value),
    {
        u128_to_be_bytes(self.value)
    }

    /// The display text: `run_` and the hyphenated UUID.
    pub fn to_string(&self) -> (s: String)
        ensures
            s@ == spec_id_text("run_"@, self.value),
    {
        let t = uuid_text(self.value);
        crate::core_types::error::cat2("run_", t.as_str())
    }
}

/// Identifier of a single event.
#[derive(Debug, Clone, Copy, PartialEq, Eq, Hash, PartialOrd, Ord, Structural)]
pub struct EventId {
    pub value: u128,
}

impl EventId {
    /// A fresh random identifier.
    pub fn new() -> (id: Self)
        ensures
            uuid_v4_marked(id.value),
    {
        EventId { value: random_uuid() }
    }

    /// The identifier holding `value`.
    pub fn from_u128(value: u128) -> (id: Self)
        ensures
            id.value == value,
    {
        EventId { value }
    }

    /// The identifier whose UUID has these sixteen bytes.
    pub fn from_bytes(bytes: [u8; 16]) -> (id: Self)
        ensures
            uuid_bytes(id.value) == bytes@,
    {
        EventId { value: u128_from_be_bytes(bytes) }
    }

    /// The sixteen bytes of the UUID.
    pub fn as_bytes(&self) -> (b: [u8; 16])
        ensures
            b@ == uuid_bytes(self.value),
    {
        u128_to_be_bytes(self.value)
    }

    /// The display text: `evt_` and the hyphenated UUID.
    pub fn to_string(&self) -> (s: String)
        ensures
            s@ == spec_id_text("evt_"@, self.value),
    {
        let t = uuid_text(self.value);
        crate::core_types::error::cat2("evt_", t.as_str())
    }
}

/// Identifier of a node in a workflow or a cluster.
#[derive(Debug, Clone, Copy, PartialEq, Eq, Hash, PartialOrd, Ord, Structural)]
pub struct NodeId {
    pub value: u128,
}

impl NodeId {
    /// A fresh random identifier.
    pub fn new() -> (id: Self)
        ensures
            uuid_v4_marked(id.value),
    {
        NodeId { value: random_uuid() }
    }

    /// The identifier holding `value`.
    pub fn from_u128(value: u128) -> (id: Self)
        ensures
            id.value == value,
    {
        NodeId { value }
    }

    /// The identifier whose UUID has these sixteen bytes.
    pub fn from_bytes(bytes: [u8; 16]) -> (id: Self)
        ensures
            uuid_bytes(id.value) == bytes@,
    {
        NodeId { value: u128_from_be_bytes(bytes) }
    }

    /// The sixteen bytes of the UUID.
    pub fn as_bytes(&self) -> (b: [u8; 16])
        ensures
            b@ == uuid_bytes(self.value),
    {
        u128_to_be_bytes(self.value)
    }

    /// The display text: `node_` and the hyphenated UUID.
    pub fn to_string(&self) -> (s: String)
        ensures
            s@ == spec_id_text("node_"@, self.value),
    {
        let t = uuid_text(self.value);
        crate::core_types::error::cat2("node_", t.as_str())
    }
}

/// Identifier of a worker.
#[derive(Debug, Clone, Copy, PartialEq, Eq, Hash, PartialOrd, Ord, Structural)]
pub struct WorkerId {
    pub value: u128,
}

impl NodeId {
    /// The identifier derived from a name: the version-5 UUID of the name in
    /// the DNS namespace, so that equal names give equal identifiers.
    pub fn from_name(name: &str) -> (id: Self)
        ensures
            id.value == uuid_v5_dns(name@),
    {
        NodeId { value: uuid_v5_dns_of(name) }
    }
}

impl WorkerId {
    /// A fresh random identifier.
    pub fn new() -> (id: Self)
        ensures
            uuid_v4_marked(id.value),
    {
        WorkerId { value: random_uuid() }
    }

    /// The identifier holding `value`.
    pub fn from_u128(value: u128) -> (id: Self)
        ensures
            id.value == value,
    {
        WorkerId { value }
    }

    /// The identifier whose UUID has these sixteen bytes.
    pub fn from_bytes(bytes: [u8; 16]) -> (id: Self)
        ensures
            uuid_bytes(id.value) == bytes@,
    {
        WorkerId { value: u128_from_be_bytes(bytes) }
    }

    /// The sixteen bytes of the UUID.
    pub fn as_bytes(&self) -> (b: [u8; 16])
        ensures
            b@ == uuid_bytes(self.value),
    {
        u128_to_be_bytes(self.value)
    }

    /// The display text: `worker_` and the hyphenated UUID.
    pub fn to_string(&self) -> (s: String)
        ensures
            s@ == spec_id_text("worker_"@, self.value),
    {
        let t = uuid_text(self.value);
        crate::core_types::error::cat2("worker_", t.as_str())
    }
}

/// Identifier of a cluster.
#[derive(Debug, Clone, Copy, PartialEq, Eq, Hash, PartialOrd, Ord, Structural)]
pub struct ClusterId {
    pub value: u128,
}

impl ClusterId {
    /// A fresh random identifier.
    pub fn new() -> (id: Self)
        ensures
            uuid_v4_marked(id.value),
    {
        ClusterId { value: random_uuid() }
    }

    /// The identifier holding `value`.
    pub fn from_u128(value: u128) -> (id: Self)
        ensures
            id.value == value,
    {
        ClusterId { value }
    }

    /// The identifier whose UUID has these sixteen bytes.
    pub fn from_bytes(bytes: [u8; 16]) -> (id: Self)
        ensures
            uuid_bytes(id.value) == bytes@,
    {
        ClusterId { value: u128_from_be_bytes(bytes) }
    }

    /// The sixteen bytes of the UUID.
    pub fn as_bytes(&self) -> (b: [u8; 16])
        ensures
            b@ == uuid_bytes(self.value),
    {
        u128_to_be_bytes(self.value)
    }

    /// The display text: `cluster_` and the hyphenated UUID.
    pub fn to_string(&self) -> (s: String)
        ensures
            s@ == spec_id_text("cluster_"@, self.value),
    {
        let t = uuid_text(self.value);
        crate::core_types::error::cat2("cluster_", t.as_str())
    }
}

/// Identifier of a task.
#[derive(Debug, Clone, Copy, PartialEq, Eq, Hash, PartialOrd, Ord, Structural)]
pub struct TaskId {
    pub value: u128,
}

impl TaskId {
    /// A fresh random identifier.
    pub fn new() -> (id: Self)
        ensures
            uuid_v4_marked(id.value),
    {
        TaskId { value: random_uuid() }
    }

    /// The identifier holding `value`.
    pub fn from_u128(value: u128) -> (id: Self)
        ensures
            id.value == value,
    {
        TaskId { value }
    }

    /// The identifier whose UUID has these sixteen bytes.
    pub fn from_bytes(bytes: [u8; 16]) -> (id: Self)
        ensures
            uuid_bytes(id.value) == bytes@,
    {
        TaskId { value: u128_from_be_bytes(bytes) }
    }

    /// The sixteen bytes of the UUID.
    pub fn as_bytes(&self) -> (b: [u8; 16])
        ensures
            b@ == uuid_bytes(self.value),
    {
        u128_to_be_bytes(self.value)
    }

    /// The display text: `task_` and the hyphenated UUID.
    pub fn to_string(&self) -> (s: String)
        ensures
            s@ == spec_id_text("task_"@, self.value),
    {
        let t = uuid_text(self.value);
        crate::core_types::error::cat2("task_", t.as_str())
    }
}

/// Identifier of a snapshot.
#[derive(Debug, Clone, Copy, PartialEq, Eq, Hash, PartialOrd, Ord, Structural)]
pub struct SnapshotId {
    pub value: u128,
}

impl SnapshotId {
    /// A fresh random identifier.
    pub fn new() -> (id: Self)
        ensures
            uuid_v4_marked(id.value),
    {
        SnapshotId { value: random_uuid() }
    }

    /// The identifier holding `value`.
    pub fn from_u128(value: u128) -> (id: Self)
        ensures
            id.value == value,
    {
        SnapshotId { value }
    }

    /// The identifier whose UUID has these sixteen bytes.
    pub fn from_bytes(bytes: [u8; 16]) -> (id: Self)
        ensures
            uuid_bytes(id.value) == bytes@,
    {
        SnapshotId { value: u128_from_be_bytes(bytes) }
    }

    /// The sixteen bytes of the UUID.
    pub fn as_bytes(&self) -> (b: [u8; 16])
        ensures
            b@ == uuid_bytes(self.value),
    {
        u128_to_be_bytes(self.value)
    }

    /// The display text: `snap_` and the hyphenated UUID.
    pub fn to_string(&self) -> (s: String)
        ensures
            s@ == spec_id_text("snap_"@, self.value),
    {
        let t = uuid_text(self.value);
        crate::core_types::error::cat2("snap_", t.as_str())
    }
}

/// Identifier of a policy decision.
#[derive(Debug, Clone, Copy, PartialEq, Eq, Hash, PartialOrd, Ord, Structural)]
pub struct DecisionId {
    pub value: u128,
}

impl DecisionId {
    /// A fresh random identifier.
    pub fn new() -> (id: Self)
        ensures
            uuid_v4_marked(id.value),
    {
        DecisionId { value: random_uuid() }
    }

    /// The identifier holding `value`.
    pub fn from_u128(value: u128) -> (id: Self)
        ensures
            id.value == value,
    {
        DecisionId { value }
    }

    /// The identifier whose UUID has these sixteen bytes.
    pub fn from_bytes(bytes: [u8; 16]) -> (id: Self)
        ensures
            uuid_bytes(id.value) == bytes@,
    {
        DecisionId { value: u128_from_be_bytes(bytes) }
    }

    /// The sixteen bytes of the UUID.
    pub fn as_bytes(&self) -> (b: [u8; 16])
        ensures
            b@ == uuid_bytes(self.value),
    {
        u128_to_be_bytes(self.value)
    }

    /// The display text: `dec_` and the hyphenated UUID.
    pub fn to_string(&self) -> (s: String)
        ensures
            s@ == spec_id_text("dec_"@, self.value),
    {
        let t = uuid_text(self.value);
        crate::core_types::error::cat2("dec_", t.as_str())
    }
}

} // verus!
