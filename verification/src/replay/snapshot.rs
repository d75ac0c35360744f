//! Snapshots of a rebuilt state, their version check, and the loader that
//! keeps them.
use vstd::prelude::*;
use crate::core_types::error::{CoreError, cat2, cat4};
use crate::core_types::text::{spec_decimal, str_eq, usize_to_decimal, u64_to_decimal, spec_u64_decimal};
use crate::replay::state::{ReconstructedState, ReconView, bytes_eq, put_all, text_put_all};
use crate::core_types::time::system_time_millis;

verus! {

/// A snapshot error.
#[derive(Debug, Clone, PartialEq, Eq)]
pub enum SnapshotError {
    NotFound { id: String },
    Corrupted { reason: String },
    VersionMismatch { expected: u32, actual: u32 },
    InvalidFormat,
}

/// The message of a snapshot error.
pub open spec fn spec_snapshot_error_text(e: SnapshotError) -> Seq<char> {
    match e {
        SnapshotError::NotFound { id } => "Snapshot not found: "@ + id@,
        SnapshotError::Corrupted { reason } => "Corrupted snapshot: "@ + reason@,
        SnapshotError::VersionMismatch { expected, actual } => "Version mismatch: expected "@ + spec_decimal(
            expected as nat,
        ) + ", got "@ + spec_decimal(actual as nat),
        SnapshotError::InvalidFormat => "Invalid snapshot format"@,
    }
}

impl SnapshotError {
    /// The error message.
    pub fn to_string(&self) -> (s: String)
        ensures
            s@ == spec_snapshot_error_text(*self),
    {
        match self {
            SnapshotError::NotFound { id } => cat2("Snapshot not found: ", id.as_str()),
            SnapshotError::Corrupted { reason } => cat2("Corrupted snapshot: ", reason.as_str()),
            SnapshotError::VersionMismatch { expected, actual } => {
                let e = u64_to_decimal(*expected as u64);
                let a = u64_to_decimal(*actual as u64);
                cat4("Version mismatch: expected ", e.as_str(), ", got ", a.as_str())
            },
            SnapshotError::InvalidFormat => "Invalid snapshot format".to_owned(),
        }
    }

    /// The core error it becomes: a validation error of the snapshot.
    pub fn into_core(self) -> (e: CoreError)
        ensures
            e matches CoreError::Validation { field, reason } && field@ == "snapshot"@ && reason@
                == spec_snapshot_error_text(self),
    {
        let reason = self.to_string();
        CoreError::Validation { field: "snapshot".to_owned(), reason }
    }
}

/// What a snapshot records about itself.
#[derive(Debug, Clone, PartialEq, Eq)]
pub struct SnapshotMetadata {
    pub id: String,
    pub version: u32,
    pub timestamp: u64,
    pub node_count: usize,
    pub size_bytes: usize,
}

/// A rebuilt state at a point in time.
#[derive(Debug)]
pub struct Snapshot {
    pub metadata: SnapshotMetadata,
    pub state: ReconstructedState,
}

impl Snapshot {
    /// A snapshot of `state` named `id`, of version 1, taken now (whole
    /// seconds since the Unix epoch), with the state's node count and
    /// `size_bytes`, the length of the state's encoding, which is computed
    /// where states are encoded.
    pub fn new(id: String, state: ReconstructedState, size_bytes: usize) -> (s: Self)
        ensures
            s.metadata.id == id,
            s.metadata.version == snapshot_version(),
            s.metadata.node_count == state@.nodes.len(),
            s.metadata.size_bytes == size_bytes,
            s.state == state,
    {
        let node_count = state.total_nodes();
        let timestamp = system_time_millis() / 1000;
        Snapshot {
            metadata: SnapshotMetadata { id, version: 1, timestamp, node_count, size_bytes },
            state,
        }
    }
}

/// The version of snapshot this library reads.
pub open spec fn snapshot_version() -> u32 {
    1
}

/// The snapshot's version is the one this library reads; else the error
/// names both versions.
pub fn validate_version(snapshot: &Snapshot) -> (r: Result<(), CoreError>)
    ensures
        snapshot.metadata.version == snapshot_version() ==> r is Ok,
        snapshot.metadata.version != snapshot_version() ==> (r matches Err(CoreError::Validation { field, reason })
            && field@ == "snapshot"@ && reason@ == spec_snapshot_error_text(
            SnapshotError::VersionMismatch { expected: 1, actual: snapshot.metadata.version },
        )),
{
    if snapshot.metadata.version != 1 {
        return Err(SnapshotError::VersionMismatch { expected: 1, actual: snapshot.metadata.version }.into_core());
    }
    Ok(())
}

/// The loader of snapshots: a cache of snapshots by identifier, and the
/// snapshots decoded from encoded bytes, each with its bytes.
///
/// Decoding bytes into a snapshot happens outside the library; the loader is
/// handed each decoded snapshot together with the bytes it came from.
pub struct SnapshotLoader {
    cache: Vec<Snapshot>,
    decoded: Vec<(Vec<u8>, Snapshot)>,
}

/// Whether some cached snapshot has identifier `id`.
pub open spec fn has_snapshot(cs: Seq<Snapshot>, id: Seq<char>) -> bool {
    exists|i: int| 0 <= i < cs.len() && #[trigger] cs[i].metadata.id@ == id
}

/// The first position of a snapshot with identifier `id`.
pub open spec fn snapshot_at(cs: Seq<Snapshot>, id: Seq<char>) -> int {
    choose|i: int|
        0 <= i < cs.len() && #[trigger] cs[i].metadata.id@ == id && forall|j: int|
            0 <= j < i ==> cs[j].metadata.id@ != id
}

/// Whether some decoded entry came from `data`.
pub open spec fn has_decoded(ds: Seq<(Vec<u8>, Snapshot)>, data: Seq<u8>) -> bool {
    exists|i: int| 0 <= i < ds.len() && #[trigger] ds[i].0@ == data
}

/// The first position of a decoded entry from `data`.
pub open spec fn decoded_at(ds: Seq<(Vec<u8>, Snapshot)>, data: Seq<u8>) -> int {
    choose|i: int| 0 <= i < ds.len() && #[trigger] ds[i].0@ == data && forall|j: int| 0 <= j < i ==> ds[j].0@ != data
}

/// The view of a copy of a state.
pub open spec fn copied(v: ReconView) -> ReconView {
    ReconView {
        nodes: put_all(Seq::empty(), v.nodes),
        globals: text_put_all(Seq::empty(), v.globals),
        errors: v.errors,
        time: v.time,
    }
}

/// What loading a snapshot from `data` gives: the state of the snapshot
/// decoded from those bytes, once its version checks; without such a
/// snapshot the bytes could not be decoded.
pub open spec fn spec_load(ds: Seq<(Vec<u8>, Snapshot)>, data: Seq<u8>) -> Option<ReconView> {
    if has_decoded(ds, data) && ds[decoded_at(ds, data)].1.metadata.version == snapshot_version() {
        Some(copied(ds[decoded_at(ds, data)].1.state@))
    } else {
        None
    }
}

/// A decoded entry from `data`, when there is one, is found at the first
/// such position.
pub proof fn lemma_decoded_at(ds: Seq<(Vec<u8>, Snapshot)>, data: Seq<u8>)
    requires
        has_decoded(ds, data),
    ensures
        0 <= decoded_at(ds, data) < ds.len(),
        ds[decoded_at(ds, data)].0@ == data,
{
    let i = choose|i: int| 0 <= i < ds.len() && #[trigger] ds[i].0@ == data;
    lemma_first_decoded(ds, data, i);
}

/// Some first position holds an entry from `data` when position `i` does.
proof fn lemma_first_decoded(ds: Seq<(Vec<u8>, Snapshot)>, data: Seq<u8>, i: int)
    requires
        0 <= i < ds.len(),
        ds[i].0@ == data,
    ensures
        exists|k: int| 0 <= k < ds.len() && #[trigger] ds[k].0@ == data && forall|j: int| 0 <= j < k ==> ds[j].0@ != data,
    decreases i,
{
    if exists|j: int| 0 <= j < i && #[trigger] ds[j].0@ == data {
        let j = choose|j: int| 0 <= j < i && #[trigger] ds[j].0@ == data;
        lemma_first_decoded(ds, data, j);
    } else {
        assert(forall|j: int| 0 <= j < i ==> ds[j].0@ != data);
    }
}

impl SnapshotLoader {
    /// The cached snapshots, in the order they were first registered.
    pub closed spec fn cache_spec(&self) -> Seq<Snapshot> {
        self.cache@
    }

    /// The decoded snapshots with their bytes, in the order they were given.
    pub closed spec fn decoded_spec(&self) -> Seq<(Vec<u8>, Snapshot)> {
        self.decoded@
    }

    /// An empty loader.
    pub fn new() -> (l: Self)
        ensures
            l.cache_spec().len() == 0,
            l.decoded_spec().len() == 0,
    {
        SnapshotLoader { cache: Vec::new(), decoded: Vec::new() }
    }

    /// The position of the first cached snapshot with identifier `id`.
    fn find(&self, id: &str) -> (r: Option<usize>)
        ensures
            r is None <==> !has_snapshot(self.cache_spec(), id@),
            r matches Some(k) ==> k == snapshot_at(self.cache_spec(), id@) && k < self.cache_spec().len(),
    {
        let mut i: usize = 0;
        while i < self.cache.len()
            invariant
                i <= self.cache@.len(),
                forall|j: int| 0 <= j < i ==> self.cache@[j].metadata.id@ != id@,
            decreases self.cache@.len() - i,
        {
            if str_eq(self.cache[i].metadata.id.as_str(), id) {
                proof {
                    let cs = self.cache@;
                    assert(cs[i as int].metadata.id@ == id@);
                    assert(forall|j: int| 0 <= j < i ==> cs[j].metadata.id@ != id@);
                    let k = snapshot_at(cs, id@);
                    assert(0 <= k < cs.len());
                    if k < i {
                        assert(cs[k].metadata.id@ != id@);
                    } else if k > i {
                        assert(cs[i as int].metadata.id@ != id@);
                    }
                }
                return Some(i);
            }
            i = i + 1;
        }
        None
    }

    /// Caches `snapshot`, replacing the first with its identifier.
    pub fn register(&mut self, snapshot: Snapshot)
        ensures
            final(self).decoded_spec() == old(self).decoded_spec(),
            final(self).cache_spec() == (if has_snapshot(old(self).cache_spec(), snapshot.metadata.id@) {
                old(self).cache_spec().update(snapshot_at(old(self).cache_spec(), snapshot.metadata.id@), snapshot)
            } else {
                old(self).cache_spec().push(snapshot)
            }),
    {
        match self.find(snapshot.metadata.id.as_str()) {
            Some(k) => {
                self.cache.set(k, snapshot);
            },
            None => {
                self.cache.push(snapshot);
            },
        }
    }

    /// Takes a snapshot of `state` named `id` (as `Snapshot::new` does) and
    /// caches it, replacing the first cached snapshot with that identifier.
    pub fn snapshot(&mut self, id: String, state: ReconstructedState, size_bytes: usize)
        ensures
            final(self).decoded_spec() == old(self).decoded_spec(),
            ({
                let old_cache = old(self).cache_spec();
                let new_cache = final(self).cache_spec();
                let known = has_snapshot(old_cache, id@);
                let k = if known { snapshot_at(old_cache, id@) } else { old_cache.len() as int };
                &&& new_cache.len() == (if known { old_cache.len() } else { old_cache.len() + 1 })
                &&& forall|i: int| 0 <= i < old_cache.len() && i != k ==> #[trigger] new_cache[i] == old_cache[i]
                &&& new_cache[k].metadata.id@ == id@
                &&& new_cache[k].metadata.version == snapshot_version()
                &&& new_cache[k].metadata.node_count == state@.nodes.len()
                &&& new_cache[k].metadata.size_bytes == size_bytes
                &&& new_cache[k].state == state
            }),
    {
        let pos = self.find(id.as_str());
        let s = Snapshot::new(id, state, size_bytes);
        self.register(s);
    }

    /// A copy of the state of the cached snapshot `id`.
    pub fn load_by_id(&self, id: &str) -> (r: Result<ReconstructedState, CoreError>)
        ensures
            !has_snapshot(self.cache_spec(), id@) ==> (r matches Err(CoreError::Validation { field, reason })
                && field@ == "snapshot"@ && reason@ == "Snapshot not found: "@ + id@),
            has_snapshot(self.cache_spec(), id@) ==> (r matches Ok(s) && s@ == copied(
                self.cache_spec()[snapshot_at(self.cache_spec(), id@)].state@,
            )),
    {
        match self.find(id) {
            Some(k) => Ok(self.cache[k].state.duplicate()),
            None => Err(SnapshotError::NotFound { id: id.to_owned() }.into_core()),
        }
    }

    /// The identifiers of the cached snapshots, in order.
    pub fn cached_ids(&self) -> (v: Vec<String>)
        ensures
            v@.len() == self.cache_spec().len(),
            forall|i: int| 0 <= i < v@.len() ==> (#[trigger] v@[i])@ == self.cache_spec()[i].metadata.id@,
    {
        let mut v: Vec<String> = Vec::new();
        let mut i: usize = 0;
        while i < self.cache.len()
            invariant
                i <= self.cache@.len(),
                v@.len() == i,
                forall|k: int| 0 <= k < i ==> (#[trigger] v@[k])@ == self.cache@[k].metadata.id@,
            decreases self.cache@.len() - i,
        {
            v.push(self.cache[i].metadata.id.clone());
            i = i + 1;
        }
        v
    }

    /// Drops the first cached snapshot `id`; the result tells whether there
    /// was one.
    pub fn remove(&mut self, id: &str) -> (b: bool)
        ensures
            b == has_snapshot(old(self).cache_spec(), id@),
            final(self).decoded_spec() == old(self).decoded_spec(),
            final(self).cache_spec() == (if b {
                old(self).cache_spec().remove(snapshot_at(old(self).cache_spec(), id@))
            } else {
                old(self).cache_spec()
            }),
    {
        match self.find(id) {
            Some(k) => {
                let _gone = self.cache.remove(k);
                true
            },
            None => false,
        }
    }

    /// Drops every cached snapshot.
    pub fn clear(&mut self)
        ensures
            final(self).cache_spec().len() == 0,
            final(self).decoded_spec() == old(self).decoded_spec(),
    {
        self.cache.clear();
    }

    /// Records `snapshot` as the one decoded from `data`.
    pub fn add_decoded(&mut self, data: Vec<u8>, snapshot: Snapshot)
        ensures
            final(self).cache_spec() == old(self).cache_spec(),
            final(self).decoded_spec() == old(self).decoded_spec().push((data, snapshot)),
    {
        self.decoded.push((data, snapshot));
    }

    /// The state of the snapshot decoded from `data`, once its version
    /// checks.
    pub fn load(&self, data: &[u8]) -> (r: Result<ReconstructedState, CoreError>)
        ensures
            match spec_load(self.decoded_spec(), data@) {
                Some(v) => r matches Ok(s) && s@ == v,
                None => r is Err,
            },
    {
        let mut i: usize = 0;
        while i < self.decoded.len()
            invariant
                i <= self.decoded@.len(),
                forall|j: int| 0 <= j < i ==> self.decoded@[j].0@ != data@,
            decreases self.decoded@.len() - i,
        {
            if bytes_eq(self.decoded[i].0.as_slice(), data) {
                proof {
                    let ds = self.decoded@;
                    assert(ds[i as int].0@ == data@);
                    assert(forall|j: int| 0 <= j < i ==> ds[j].0@ != data@);
                    let k = decoded_at(ds, data@);
                    assert(0 <= k < ds.len());
                    if k < i {
                        assert(ds[k].0@ != data@);
                    } else if k > i {
                        assert(ds[i as int].0@ != data@);
                    }
                }
                let snapshot = &self.decoded[i].1;
                match validate_version(snapshot) {
                    Ok(()) => {
                        return Ok(snapshot.state.duplicate());
                    },
                    Err(e) => {
                        return Err(e);
                    },
                }
            }
            i = i + 1;
        }
        Err(CoreError::ParseError { message: "Failed to decode snapshot".to_owned() })
    }
}

impl Default for SnapshotLoader {
    /// An empty loader.
    fn default() -> (l: Self)
        ensures
            l.cache_spec().len() == 0,
    {
        SnapshotLoader::new()
    }
}

/// Writes snapshots; the encoding itself happens outside the library.
#[derive(Debug, Clone, Copy, PartialEq, Eq)]
pub struct SnapshotWriter;

impl SnapshotWriter {
    /// The writer.
    pub fn new() -> (w: Self) {
        SnapshotWriter
    }
}

impl Default for SnapshotWriter {
    fn default() -> (w: Self) {
        SnapshotWriter
    }
}

} // verus!
