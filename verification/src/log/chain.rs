//! hash::Hash chain for tamper-evident event logging: each event's prior-state
//! hash must match the previous event's post-state hash.
use vstd::prelude::*;
use crate::core_types::hash;
use crate::core_types::hash::{spec_root, hashes_view, root_of};
use crate::core_types::error::CoreError;

verus! {

/// A hash chain that can hold the next hash it expects.
pub struct HashChain {
    hashes: Vec<hash::Hash>,
    expected_prior: Option<hash::Hash>,
}

/// Plain view of a hash chain: its hashes and the hash it expects next.
pub struct ChainView {
    pub hashes: Seq<Seq<u8>>,
    pub expected: Option<Seq<u8>>,
}

/// The byte view of an optional hash.
pub open spec fn opt_hash_view(h: Option<hash::Hash>) -> Option<Seq<u8>> {
    match h {
        Some(x) => Some(x@),
        None => None,
    }
}

impl View for HashChain {
    type V = ChainView;

    closed spec fn view(&self) -> ChainView {
        ChainView { hashes: hashes_view(self.hashes@), expected: opt_hash_view(self.expected_prior) }
    }
}

impl HashChain {
    /// An empty chain that expects nothing.
    pub fn new() -> (c: Self)
        ensures
            c@.hashes.len() == 0,
            c@.expected is None,
    {
        HashChain { hashes: Vec::new(), expected_prior: None }
    }

    /// A chain holding `initial` and expecting it next.
    pub fn with_initial(initial: hash::Hash) -> (c: Self)
        ensures
            c@.hashes == seq![initial@],
            c@.expected == Some(initial@),
    {
        let mut hashes = Vec::new();
        hashes.push(initial);
        let c = HashChain { hashes, expected_prior: Some(initial) };
        assert(c@.hashes =~= seq![initial@]);
        c
    }

    /// Appends `hash` when it is the expected one (or nothing is expected);
    /// otherwise refuses it with the chain's length as the position.
    pub fn push(&mut self, hash: hash::Hash) -> (r: Result<(), CoreError>)
        ensures
            match old(self)@.expected {
                Some(e) if e != hash@ => {
                    &&& r == Err::<(), CoreError>(
                        CoreError::BrokenChain { position: old(self)@.hashes.len() as usize },
                    )
                    &&& final(self)@ == old(self)@
                },
                _ => {
                    &&& r is Ok
                    &&& final(self)@.hashes == old(self)@.hashes.push(hash@)
                    &&& final(self)@.expected == old(self)@.expected
                },
            },
    {
        match self.expected_prior {
            Some(expected) => {
                if !hash.same_as(&expected) {
                    return Err(CoreError::BrokenChain { position: self.hashes.len() });
                }
            },
            None => {},
        }
        let mut hashes = Vec::new();
        std::mem::swap(&mut hashes, &mut self.hashes);
        hashes.push(hash);
        self.hashes = hashes;
        assert(self@.hashes =~= old(self)@.hashes.push(hash@));
        Ok(())
    }

    /// Sets the hash expected next.
    pub fn set_expected(&mut self, hash: hash::Hash)
        ensures
            final(self)@.hashes == old(self)@.hashes,
            final(self)@.expected == Some(hash@),
    {
        self.expected_prior = Some(hash);
    }

    /// The last hash, if any.
    pub fn tip(&self) -> (t: Option<hash::Hash>)
        ensures
            self@.hashes.len() == 0 ==> t is None,
            self@.hashes.len() > 0 ==> (t matches Some(h) && h@ == self@.hashes.last()),
    {
        if self.hashes.len() == 0 {
            None
        } else {
            Some(self.hashes[self.hashes.len() - 1])
        }
    }

    /// All hashes, oldest first.
    pub fn as_slice(&self) -> (s: &[hash::Hash])
        ensures
            hashes_view(s@) == self@.hashes,
    {
        self.hashes.as_slice()
    }

    /// The number of hashes.
    pub fn len(&self) -> (n: usize)
        ensures
            n == self@.hashes.len(),
    {
        self.hashes.len()
    }

    /// Whether the chain holds no hash.
    pub fn is_empty(&self) -> (b: bool)
        ensures
            b == (self@.hashes.len() == 0),
    {
        self.hashes.len() == 0
    }

    /// Whether the chain holds at least one hash.
    pub fn validate(&self) -> (b: bool)
        ensures
            b == (self@.hashes.len() > 0),
    {
        self.hashes.len() != 0
    }

    /// The first hash chained in turn with each later one; `None` when empty.
    pub fn root(&self) -> (r: Option<hash::Hash>)
        ensures
            self@.hashes.len() == 0 ==> r is None,
            self@.hashes.len() > 0 ==> (r matches Some(h) && h@ == spec_root(self@.hashes)),
    {
        root_of(self.hashes.as_slice())
    }

    /// The number of hashes as a `u64`.
    pub fn u64_len(&self) -> (n: u64)
        ensures
            n == self@.hashes.len(),
    {
        self.hashes.len() as u64
    }
}

impl Default for HashChain {
    fn default() -> (c: Self)
        ensures
            c@.hashes.len() == 0,
            c@.expected is None,
    {
        HashChain::new()
    }
}

/// Chain validation errors.
#[derive(Debug, Clone, PartialEq, Eq)]
pub enum ChainError {
    /// A hash that does not match the expected one.
    BrokenLink { position: usize, expected: hash::Hash, actual: hash::Hash },
    /// A missing hash.
    MissingHash { position: usize },
    /// A malformed hash.
    InvalidHash { position: usize },
}

impl ChainError {
    /// The error message.
    pub fn to_string(&self) -> (s: String)
        ensures
            s@ == match *self {
                ChainError::BrokenLink { position, .. } => "Broken hash chain at position "@
                    + crate::core_types::text::spec_decimal(position as nat),
                ChainError::MissingHash { position } => "Missing hash at position "@
                    + crate::core_types::text::spec_decimal(position as nat),
                ChainError::InvalidHash { position } => "Invalid hash at position "@
                    + crate::core_types::text::spec_decimal(position as nat),
            },
    {
        match self {
            ChainError::BrokenLink { position, .. } => {
                let d = crate::core_types::text::usize_to_decimal(*position);
                crate::core_types::error::cat2("Broken hash chain at position ", d.as_str())
            },
            ChainError::MissingHash { position } => {
                let d = crate::core_types::text::usize_to_decimal(*position);
                crate::core_types::error::cat2("Missing hash at position ", d.as_str())
            },
            ChainError::InvalidHash { position } => {
                let d = crate::core_types::text::usize_to_decimal(*position);
                crate::core_types::error::cat2("Invalid hash at position ", d.as_str())
            },
        }
    }
}

/// Whether `hs` continues from `expected`: every hash equals the one before
/// it, and the first equals `expected` when one is set.
pub open spec fn spec_sequence_links(expected: Option<Seq<u8>>, hs: Seq<Seq<u8>>) -> bool {
    &&& (hs.len() > 0 && expected is Some ==> hs[0] == expected.unwrap())
    &&& forall|i: int| 1 <= i < hs.len() ==> #[trigger] hs[i] == hs[i - 1]
}

/// The first position of `hs` that breaks the links from `expected`.
pub open spec fn spec_first_break(expected: Option<Seq<u8>>, hs: Seq<Seq<u8>>) -> int
    decreases hs.len(),
{
    if hs.len() == 0 {
        -1
    } else {
        let prev = spec_first_break(expected, hs.drop_last());
        if prev >= 0 {
            prev
        } else {
            let want = if hs.len() == 1 { expected } else { Some(hs[hs.len() - 2]) };
            if want is Some && want.unwrap() != hs.last() {
                hs.len() - 1
            } else {
                -1
            }
        }
    }
}

/// Validates that each event's prior hash continues the one before.
pub struct ChainValidator {
    expected_prior: Option<hash::Hash>,
}

impl ChainValidator {
    /// The hash expected next, if any.
    pub closed spec fn spec_expected(&self) -> Option<Seq<u8>> {
        opt_hash_view(self.expected_prior)
    }

    /// A validator that expects nothing.
    pub fn new() -> (v: Self)
        ensures
            v.spec_expected() is None,
    {
        ChainValidator { expected_prior: None }
    }

    /// A validator that expects `initial`.
    pub fn with_initial(initial: hash::Hash) -> (v: Self)
        ensures
            v.spec_expected() == Some(initial@),
    {
        ChainValidator { expected_prior: Some(initial) }
    }

    /// Checks one event: when a hash is expected and the event names a prior
    /// hash, they must match. On success the event's post hash is expected next.
    pub fn validate(&mut self, prior: Option<hash::Hash>, post: hash::Hash) -> (r: Result<(), ChainError>)
        ensures
            match (old(self).spec_expected(), opt_hash_view(prior)) {
                (Some(e), Some(p)) if e != p => {
                    &&& r matches Err(ChainError::BrokenLink { position, expected, actual })
                    &&& position == 0 && expected@ == e && actual@ == p
                    &&& final(self).spec_expected() == old(self).spec_expected()
                },
                _ => r is Ok && final(self).spec_expected() == Some(post@),
            },
    {
        match self.expected_prior {
            Some(expected) => match prior {
                Some(prior_actual) => {
                    if !prior_actual.same_as(&expected) {
                        return Err(ChainError::BrokenLink { position: 0, expected, actual: prior_actual });
                    }
                },
                None => {},
            },
            None => {},
        }
        self.expected_prior = Some(post);
        Ok(())
    }

    /// Checks that each hash of `hashes` equals the one expected before it,
    /// the first against the validator's expected hash.
    pub fn validate_sequence(&mut self, hashes: &[hash::Hash]) -> (r: Result<(), ChainError>)
        ensures
            ({
                let hs = hashes_view(hashes@);
                let k = spec_first_break(old(self).spec_expected(), hs);
                if k < 0 {
                    &&& r is Ok
                    &&& hs.len() > 0 ==> final(self).spec_expected() == Some(hs.last())
                    &&& hs.len() == 0 ==> final(self).spec_expected() == old(self).spec_expected()
                } else {
                    &&& r matches Err(ChainError::BrokenLink { position, expected, actual })
                    &&& position == k
                    &&& actual@ == hs[k]
                    &&& expected@ == (if k == 0 { old(self).spec_expected().unwrap() } else { hs[k - 1] })
                    &&& final(self).spec_expected() == (if k == 0 { old(self).spec_expected() } else { Some(hs[k - 1]) })
                }
            }),
    {
        let ghost hs = hashes_view(hashes@);
        let ghost e0 = self.spec_expected();
        let mut i: usize = 0;
        while i < hashes.len()
            invariant
                i <= hashes@.len(),
                hs == hashes_view(hashes@),
                e0 == old(self).spec_expected(),
                spec_first_break(e0, hs.take(i as int)) < 0,
                i == 0 ==> self.spec_expected() == e0,
                i > 0 ==> self.spec_expected() == Some(hs[i - 1]),
            decreases hashes@.len() - i,
        {
            let hash = hashes[i];
            assert(hs.take(i + 1).drop_last() =~= hs.take(i as int));
            assert(hs[i as int] == hash@);
            match self.expected_prior {
                Some(expected) => {
                    if !hash.same_as(&expected) {
                        proof {
                            lemma_first_break_prefix(e0, hs, i as int);
                        }
                        return Err(ChainError::BrokenLink { position: i, expected, actual: hash });
                    }
                },
                None => {},
            }
            self.expected_prior = Some(hash);
            i = i + 1;
        }
        assert(hs.take(hashes@.len() as int) =~= hs);
        Ok(())
    }

    /// The hash expected next.
    pub fn expected(&self) -> (e: Option<hash::Hash>)
        ensures
            opt_hash_view(e) == self.spec_expected(),
    {
        self.expected_prior
    }

    /// Forgets the expected hash.
    pub fn reset(&mut self)
        ensures
            final(self).spec_expected() is None,
    {
        self.expected_prior = None;
    }
}

/// A break found at the end of a clean prefix is the first break of the whole list.
pub proof fn lemma_first_break_prefix(e0: Option<Seq<u8>>, hs: Seq<Seq<u8>>, i: int)
    requires
        0 <= i < hs.len(),
        spec_first_break(e0, hs.take(i)) < 0,
        (if i == 0 { e0 } else { Some(hs[i - 1]) }) matches Some(w) && w != hs[i],
    ensures
        spec_first_break(e0, hs) == i,
    decreases hs.len() - i,
{
    assert(hs.take(i + 1).drop_last() =~= hs.take(i));
    assert(spec_first_break(e0, hs.take(i + 1)) == i);
    lemma_first_break_extend(e0, hs, i + 1, i);
}

/// Extending a list keeps an earlier first break.
pub proof fn lemma_first_break_extend(e0: Option<Seq<u8>>, hs: Seq<Seq<u8>>, j: int, k: int)
    requires
        0 <= k < j <= hs.len(),
        spec_first_break(e0, hs.take(j)) == k,
    ensures
        spec_first_break(e0, hs) == k,
    decreases hs.len() - j,
{
    if j == hs.len() {
        assert(hs.take(j) =~= hs);
    } else {
        assert(hs.take(j + 1).drop_last() =~= hs.take(j));
        lemma_first_break_extend(e0, hs, j + 1, k);
    }
}

impl Default for ChainValidator {
    fn default() -> (v: Self)
        ensures
            v.spec_expected() is None,
    {
        ChainValidator::new()
    }
}

} // verus!
