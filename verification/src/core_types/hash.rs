//! BLAKE3 hashes for content addressing and hash chaining.
use vstd::prelude::*;
use vstd::std_specs::cmp::PartialEqSpecImpl;
use crate::core_types::text::{spec_split, strings_view, str_eq, split_char};

verus! {

/// The BLAKE3 digest of `data` (32 bytes).
pub uninterp spec fn spec_blake3(data: Seq<u8>) -> Seq<u8>;

/// The 32-byte BLAKE3 digest of `data`.
///
/// Calls `blake3::hash` and copies out `as_bytes`. The contract names the
/// digest and states nothing else of it.
#[verifier::external_body]
fn blake3_digest(data: &[u8]) -> (out: [u8; 32])
    ensures
        out@ == spec_blake3(data@),
{
    *blake3::hash(data).as_bytes()
}

/// The lowercase hexadecimal digit for `n < 16`.
pub open spec fn hex_digit_char(n: nat) -> char {
    if n < 10 {
        (('0' as u32) + n) as char
    } else {
        (('a' as u32) + (n - 10)) as char
    }
}

/// Lowercase hexadecimal text of `bytes`, two digits per byte, high nibble first.
pub open spec fn spec_hex_encode(bytes: Seq<u8>) -> Seq<char>
    decreases bytes.len(),
{
    if bytes.len() == 0 {
        Seq::empty()
    } else {
        spec_hex_encode(bytes.drop_last()) + seq![
            hex_digit_char((bytes.last() / 16) as nat),
            hex_digit_char((bytes.last() % 16) as nat),
        ]
    }
}

/// Whether `c` is a hexadecimal digit of either case.
pub open spec fn is_hex_char(c: char) -> bool {
    ('0' <= c <= '9') || ('a' <= c <= 'f') || ('A' <= c <= 'F')
}

/// The value of a hexadecimal digit.
pub open spec fn hex_char_value(c: char) -> nat {
    if '0' <= c <= '9' {
        (c as u32 - '0' as u32) as nat
    } else if 'a' <= c <= 'f' {
        (c as u32 - 'a' as u32 + 10) as nat
    } else {
        (c as u32 - 'A' as u32 + 10) as nat
    }
}

/// The bytes that hexadecimal text denotes: `None` for odd length or a
/// character that is not a hex digit.
pub open spec fn spec_hex_decode(s: Seq<char>) -> Option<Seq<u8>> {
    if s.len() % 2 == 0 && (forall|i: int| 0 <= i < s.len() ==> is_hex_char(#[trigger] s[i])) {
        Some(Seq::new(s.len() / 2, |i: int| (hex_char_value(s[2 * i]) * 16 + hex_char_value(s[2 * i + 1])) as u8))
    } else {
        None
    }
}

/// Error of `hex::decode`.
#[verifier::external_type_specification]
#[verifier::external_body]
pub struct ExFromHexError(hex::FromHexError);

/// Lowercase hexadecimal text of `data`.
///
/// Calls `hex::encode`, which emits, for each byte, the digits of its high
/// and low nibble from the table `0123456789abcdef`.
#[verifier::external_body]
pub(crate) fn hex_encode(data: &[u8]) -> (s: String)
    ensures
        s@ == spec_hex_encode(data@),
{
    hex::encode(data)
}

/// The bytes of hexadecimal text.
///
/// Calls `hex::decode`, which refuses text of odd byte length and any byte
/// that is not `0-9`, `a-f` or `A-F`, and otherwise pairs digits high nibble
/// first. A non-ASCII character is never a hex digit, so the result is `Ok`
/// exactly when `spec_hex_decode` is `Some`.
#[verifier::external_body]
pub(crate) fn hex_decode(s: &str) -> (r: Result<Vec<u8>, hex::FromHexError>)
    ensures
        r is Ok <==> spec_hex_decode(s@) is Some,
        r matches Ok(v) ==> v@ == spec_hex_decode(s@).unwrap(),
{
    hex::decode(s)
}

/// The hexadecimal encoding has two characters per byte.
pub proof fn lemma_hex_encode_len(b: Seq<u8>)
    ensures
        spec_hex_encode(b).len() == 2 * b.len(),
    decreases b.len(),
{
    if b.len() > 0 {
        lemma_hex_encode_len(b.drop_last());
    }
}

/// The digits at `2i` and `2i+1` of the encoding are those of byte `i`.
pub proof fn lemma_hex_encode_index(b: Seq<u8>, i: int)
    requires
        0 <= i < b.len(),
    ensures
        spec_hex_encode(b).len() == 2 * b.len(),
        spec_hex_encode(b)[2 * i] == hex_digit_char((b[i] / 16) as nat),
        spec_hex_encode(b)[2 * i + 1] == hex_digit_char((b[i] % 16) as nat),
    decreases b.len(),
{
    lemma_hex_encode_len(b);
    lemma_hex_encode_len(b.drop_last());
    if i < b.len() - 1 {
        lemma_hex_encode_index(b.drop_last(), i);
    }
}

/// A digit character is a hex digit with the value it was made from.
pub proof fn lemma_hex_digit_roundtrip(n: nat)
    requires
        n < 16,
    ensures
        is_hex_char(hex_digit_char(n)),
        hex_char_value(hex_digit_char(n)) == n,
{
}

/// Decoding the encoding of bytes gives the bytes back.
pub proof fn lemma_hex_roundtrip(b: Seq<u8>)
    ensures
        spec_hex_decode(spec_hex_encode(b)) == Some(b),
{
    let e = spec_hex_encode(b);
    lemma_hex_encode_len(b);
    assert forall|k: int| 0 <= k < e.len() implies is_hex_char(#[trigger] e[k]) by {
        let i = k / 2;
        lemma_hex_encode_index(b, i);
        lemma_hex_digit_roundtrip((b[i] / 16) as nat);
        lemma_hex_digit_roundtrip((b[i] % 16) as nat);
        assert(k == 2 * i || k == 2 * i + 1);
    }
    let d = spec_hex_decode(e).unwrap();
    assert forall|i: int| 0 <= i < b.len() implies #[trigger] d[i] == b[i] by {
        lemma_hex_encode_index(b, i);
        lemma_hex_digit_roundtrip((b[i] / 16) as nat);
        lemma_hex_digit_roundtrip((b[i] % 16) as nat);
        assert((b[i] / 16) * 16 + b[i] % 16 == b[i]);
    }
    assert(d =~= b);
}

/// A BLAKE3 hash: 32 bytes.
#[derive(Debug, Clone, Copy, Hash, PartialOrd, Ord)]
pub struct Hash {
    bytes: [u8; 32],
}

impl View for Hash {
    type V = Seq<u8>;

    closed spec fn view(&self) -> Seq<u8> {
        self.bytes@
    }
}

/// The BLAKE3 digest of empty data.
pub open spec fn empty_digest() -> Seq<u8> {
    spec_blake3(Seq::empty())
}

/// The hash of `a` chained with `b`: the digest of `a` followed by `b`.
pub open spec fn spec_chain(a: Seq<u8>, b: Seq<u8>) -> Seq<u8> {
    spec_blake3(a + b)
}

/// The root of a list of hashes: the first chained in turn with each later one.
pub open spec fn spec_root(hs: Seq<Seq<u8>>) -> Seq<u8>
    recommends
        hs.len() > 0,
    decreases hs.len(),
{
    if hs.len() <= 1 {
        hs[0]
    } else {
        spec_chain(spec_root(hs.drop_last()), hs.last())
    }
}

impl Hash {
    /// Every hash holds 32 bytes.
    pub proof fn lemma_len(&self)
        ensures
            self@.len() == 32,
    {
    }

    /// The BLAKE3 hash of `data`.
    pub fn compute(data: &[u8]) -> (h: Hash)
        ensures
            h@ == spec_blake3(data@),
    {
        Hash { bytes: blake3_digest(data) }
    }

    /// The hash of empty data.
    pub fn empty() -> (h: Hash)
        ensures
            h@ == empty_digest(),
    {
        let none: Vec<u8> = Vec::new();
        assert(none@ =~= Seq::<u8>::empty());
        Hash::compute(none.as_slice())
    }

    /// The hash holding `bytes`.
    pub fn from_bytes(bytes: [u8; 32]) -> (h: Hash)
        ensures
            h@ == bytes@,
    {
        Hash { bytes }
    }

    /// The 32 bytes.
    pub fn as_bytes(&self) -> (b: &[u8; 32])
        ensures
            b@ == self@,
    {
        &self.bytes
    }

    /// Lowercase hexadecimal text of the 32 bytes.
    pub fn to_hex(&self) -> (s: String)
        ensures
            s@ == spec_hex_encode(self@),
            s@.len() == 64,
    {
        proof {
            lemma_hex_encode_len(self@);
        }
        hex_encode(self.bytes.as_slice())
    }

    /// Parses 64 hexadecimal digits of either case.
    pub fn from_hex(hex: &str) -> (r: Result<Hash, HashError>)
        ensures
            match spec_hex_decode(hex@) {
                None => r == Err::<Hash, HashError>(HashError::InvalidHex),
                Some(b) => if b.len() == 32 {
                    r matches Ok(h) && h@ == b
                } else {
                    r == Err::<Hash, HashError>(HashError::InvalidLength(b.len() as usize))
                },
            },
    {
        let bytes = match hex_decode(hex) {
            Ok(b) => b,
            Err(_) => return Err(HashError::InvalidHex),
        };
        if bytes.len() != 32 {
            return Err(HashError::InvalidLength(bytes.len()));
        }
        let mut arr = [0u8; 32];
        let mut i: usize = 0;
        while i < 32
            invariant
                bytes@.len() == 32,
                i <= 32,
                forall|j: int| 0 <= j < i ==> arr@[j] == bytes@[j],
            decreases 32 - i,
        {
            arr[i] = bytes[i];
            i = i + 1;
        }
        assert(arr@ =~= bytes@);
        Ok(Hash { bytes: arr })
    }

    /// Whether this is the hash of `data`.
    pub fn verify(&self, data: &[u8]) -> (b: bool)
        ensures
            b == (spec_blake3(data@) == self@),
    {
        let h = Hash::compute(data);
        h.same_as(self)
    }

    /// Whether two hashes hold the same bytes.
    pub fn same_as(&self, other: &Hash) -> (b: bool)
        ensures
            b == (self@ == other@),
    {
        let mut i: usize = 0;
        while i < 32
            invariant
                i <= 32,
                self@.len() == 32,
                other@.len() == 32,
                forall|j: int| 0 <= j < i ==> self@[j] == other@[j],
            decreases 32 - i,
        {
            if self.bytes[i] != other.bytes[i] {
                return false;
            }
            i = i + 1;
        }
        assert(self@ =~= other@);
        true
    }

    /// This hash chained with `other`: the hash of the 64 bytes of `self`
    /// followed by those of `other`.
    pub fn chain(&self, other: &Hash) -> (h: Hash)
        ensures
            h@ == spec_chain(self@, other@),
    {
        let mut combined: Vec<u8> = Vec::with_capacity(64);
        let mut i: usize = 0;
        while i < 32
            invariant
                i <= 32,
                self@.len() == 32,
                combined@ == self@.take(i as int),
            decreases 32 - i,
        {
            combined.push(self.bytes[i]);
            i = i + 1;
            assert(combined@ =~= self@.take(i as int));
        }
        let mut k: usize = 0;
        while k < 32
            invariant
                k <= 32,
                self@.len() == 32,
                other@.len() == 32,
                combined@ == self@ + other@.take(k as int),
            decreases 32 - k,
        {
            combined.push(other.bytes[k]);
            k = k + 1;
            assert(combined@ =~= self@ + other@.take(k as int));
        }
        assert(self@.take(32) =~= self@);
        assert(other@.take(32) =~= other@);
        Hash::compute(combined.as_slice())
    }

    /// Rendering as lowercase hexadecimal text.
    pub fn to_string(&self) -> (s: String)
        ensures
            s@ == spec_hex_encode(self@),
    {
        self.to_hex()
    }
}

impl PartialEq for Hash {
    fn eq(&self, other: &Hash) -> (r: bool) {
        self.same_as(other)
    }
}

impl Eq for Hash {
}

impl PartialEqSpecImpl for Hash {
    open spec fn obeys_eq_spec() -> bool {
        true
    }

    open spec fn eq_spec(&self, other: &Hash) -> bool {
        self@ == other@
    }
}

impl Default for Hash {
    fn default() -> (h: Hash)
        ensures
            h@ == empty_digest(),
    {
        Hash::empty()
    }
}

/// Hash errors.
#[derive(Debug, Clone, Copy, PartialEq, Eq, Structural)]
pub enum HashError {
    /// Invalid hexadecimal text.
    InvalidHex,
    /// The decoded bytes are not 32 long.
    InvalidLength(usize),
}

impl HashError {
    /// The error message.
    pub fn to_string(&self) -> (s: String)
        ensures
            s@ == match *self {
                HashError::InvalidHex => "Invalid hex encoding"@,
                HashError::InvalidLength(n) => "Invalid hash length: "@
                    + crate::core_types::text::spec_decimal(n as nat) + " (expected 32)"@,
            },
    {
        proof {
            reveal_strlit("");
        }
        match self {
            HashError::InvalidHex => crate::core_types::error::cat2("Invalid hex encoding", ""),
            HashError::InvalidLength(n) => {
                let d = crate::core_types::text::usize_to_decimal(*n);
                crate::core_types::error::cat4("Invalid hash length: ", d.as_str(), " (expected 32)", "")
            },
        }
    }
}

/// A chain of hashes linking events.
pub struct HashChain {
    hashes: Vec<Hash>,
}

/// The byte views of a list of hashes.
pub open spec fn hashes_view(hs: Seq<Hash>) -> Seq<Seq<u8>> {
    hs.map_values(|h: Hash| h@)
}

impl View for HashChain {
    type V = Seq<Seq<u8>>;

    closed spec fn view(&self) -> Seq<Seq<u8>> {
        hashes_view(self.hashes@)
    }
}

/// Whether no two neighbouring hashes of the chain are equal.
pub open spec fn spec_neighbours_differ(hs: Seq<Seq<u8>>) -> bool {
    forall|i: int| 1 <= i < hs.len() ==> #[trigger] hs[i] != hs[i - 1]
}

impl HashChain {
    /// An empty chain.
    pub fn new() -> (c: Self)
        ensures
            c@ == Seq::<Seq<u8>>::empty(),
    {
        let c = HashChain { hashes: Vec::new() };
        assert(c@ =~= Seq::<Seq<u8>>::empty());
        c
    }

    /// A chain holding one hash.
    pub fn with_initial(initial: Hash) -> (c: Self)
        ensures
            c@ == seq![initial@],
    {
        let mut hashes = Vec::new();
        hashes.push(initial);
        let c = HashChain { hashes };
        assert(c@ =~= seq![initial@]);
        c
    }

    /// Appends a hash.
    pub fn push(&mut self, hash: Hash)
        ensures
            final(self)@ == old(self)@.push(hash@),
    {
        self.hashes.push(hash);
        assert(self@ =~= old(self)@.push(hash@));
    }

    /// The last hash, if any.
    pub fn tip(&self) -> (t: Option<Hash>)
        ensures
            self@.len() == 0 ==> t is None,
            self@.len() > 0 ==> (t matches Some(h) && h@ == self@.last()),
    {
        if self.hashes.len() == 0 {
            None
        } else {
            Some(self.hashes[self.hashes.len() - 1])
        }
    }

    /// All hashes, oldest first.
    pub fn as_slice(&self) -> (s: &[Hash])
        ensures
            hashes_view(s@) == self@,
    {
        self.hashes.as_slice()
    }

    /// The number of hashes.
    pub fn len(&self) -> (n: usize)
        ensures
            n == self@.len(),
    {
        self.hashes.len()
    }

    /// Whether the chain holds no hash.
    pub fn is_empty(&self) -> (b: bool)
        ensures
            b == (self@.len() == 0),
    {
        self.hashes.len() == 0
    }

    /// Whether no hash repeats the one before it.
    pub fn validate(&self) -> (b: bool)
        ensures
            b == spec_neighbours_differ(self@),
    {
        let n = self.hashes.len();
        if n <= 1 {
            return true;
        }
        let mut i: usize = 1;
        while i < n
            invariant
                n == self.hashes@.len(),
                1 <= i <= n,
                forall|k: int| 1 <= k < i ==> #[trigger] self@[k] != self@[k - 1],
            decreases n - i,
        {
            if self.hashes[i - 1].same_as(&self.hashes[i]) {
                assert(self@[i as int] == self.hashes@[i as int]@);
                assert(self@[i - 1] == self.hashes@[i - 1]@);
                return false;
            }
            i = i + 1;
        }
        true
    }

    /// The first hash chained in turn with each later one; `None` when empty.
    pub fn root(&self) -> (r: Option<Hash>)
        ensures
            self@.len() == 0 ==> r is None,
            self@.len() > 0 ==> (r matches Some(h) && h@ == spec_root(self@)),
    {
        root_of(self.hashes.as_slice())
    }
}

/// The root of a list of hashes; `None` when empty.
pub fn root_of(hashes: &[Hash]) -> (r: Option<Hash>)
    ensures
        hashes@.len() == 0 ==> r is None,
        hashes@.len() > 0 ==> (r matches Some(h) && h@ == spec_root(hashes_view(hashes@))),
{
    if hashes.len() == 0 {
        return None;
    }
    let ghost hv = hashes_view(hashes@);
    let mut result = hashes[0];
    let mut i: usize = 1;
    assert(hv.take(1) =~= seq![hv[0]]);
    while i < hashes.len()
        invariant
            1 <= i <= hashes@.len(),
            hv == hashes_view(hashes@),
            result@ == spec_root(hv.take(i as int)),
        decreases hashes@.len() - i,
    {
        result = result.chain(&hashes[i]);
        assert(hv.take(i + 1).drop_last() =~= hv.take(i as int));
        i = i + 1;
    }
    assert(hv.take(hashes@.len() as int) =~= hv);
    Some(result)
}

impl Default for HashChain {
    fn default() -> (c: Self)
        ensures
            c@ == Seq::<Seq<u8>>::empty(),
    {
        HashChain::new()
    }
}

/// Hash algorithm of a content address.
#[derive(Debug, Clone, Copy, PartialEq, Eq, Hash, PartialOrd, Ord, Structural)]
pub enum AddressAlgorithm {
    /// BLAKE3.
    Blake3,
}

impl AddressAlgorithm {
    /// The algorithm's name.
    pub fn as_str(&self) -> (s: &'static str)
        ensures
            s@ == "blake3"@,
    {
        "blake3"
    }
}

/// Content address for blob storage.
#[derive(Debug, Clone, Copy, PartialEq, Eq)]
pub struct ContentAddress {
    pub hash: Hash,
    pub algorithm: AddressAlgorithm,
}

/// Text of a content address: `blake3:` and the hash in hexadecimal.
pub open spec fn spec_address_text(hash: Seq<u8>) -> Seq<char> {
    "blake3:"@ + spec_hex_encode(hash)
}

impl ContentAddress {
    /// The BLAKE3 address of `data`.
    pub fn from_data(data: &[u8]) -> (a: Self)
        ensures
            a.hash@ == spec_blake3(data@),
            a.algorithm == AddressAlgorithm::Blake3,
    {
        ContentAddress { hash: Hash::compute(data), algorithm: AddressAlgorithm::Blake3 }
    }

    /// The address of `hash` under `algorithm`.
    pub fn new(hash: Hash, algorithm: AddressAlgorithm) -> (a: Self)
        ensures
            a.hash == hash,
            a.algorithm == algorithm,
    {
        ContentAddress { hash, algorithm }
    }

    /// Rendering as `<algorithm>:<hex hash>`.
    pub fn to_string(&self) -> (s: String)
        ensures
            s@ == spec_address_text(self.hash@),
    {
        proof {
            reveal_strlit("blake3:");
            reveal_strlit("blake3");
            reveal_strlit(":");
        }
        let mut s = String::new();
        s.append(self.algorithm.as_str());
        s.append(":");
        let h = self.hash.to_hex();
        s.append(h.as_str());
        s
    }

    /// Parses `<algorithm>:<hex hash>`; the only algorithm is `blake3`.
    pub fn from_str(s: &str) -> (r: Result<ContentAddress, HashError>)
        ensures
            ({
                let parts = spec_split(s@, ':');
                if parts.len() != 2 || parts[0] != "blake3"@ {
                    r == Err::<ContentAddress, HashError>(HashError::InvalidHex)
                } else {
                    match spec_hex_decode(parts[1]) {
                        None => r == Err::<ContentAddress, HashError>(HashError::InvalidHex),
                        Some(b) => if b.len() == 32 {
                            r matches Ok(a) && a.hash@ == b && a.algorithm == AddressAlgorithm::Blake3
                        } else {
                            r == Err::<ContentAddress, HashError>(HashError::InvalidLength(b.len() as usize))
                        },
                    }
                }
            }),
    {
        let parts = split_char(s, ':');
        if parts.len() != 2 {
            return Err(HashError::InvalidHex);
        }
        assert(strings_view(parts@)[0] == parts@[0]@);
        assert(strings_view(parts@)[1] == parts@[1]@);
        if !str_eq(parts[0].as_str(), "blake3") {
            return Err(HashError::InvalidHex);
        }
        let hash = Hash::from_hex(parts[1].as_str())?;
        Ok(ContentAddress { hash, algorithm: AddressAlgorithm::Blake3 })
    }
}

/// A hexadecimal digit character is never `:`.
pub proof fn lemma_hex_has_no_colon(b: Seq<u8>)
    ensures
        !spec_hex_encode(b).contains(':'),
{
    let e = spec_hex_encode(b);
    lemma_hex_encode_len(b);
    if e.contains(':') {
        let k = choose|k: int| 0 <= k < e.len() && e[k] == ':';
        let i = k / 2;
        lemma_hex_encode_index(b, i);
        lemma_hex_digit_roundtrip((b[i] / 16) as nat);
        lemma_hex_digit_roundtrip((b[i] % 16) as nat);
        assert(k == 2 * i || k == 2 * i + 1);
    }
}

/// Reading back the text of a content address gives the address again:
/// the text splits at `:` into `blake3` and the hexadecimal hash, which
/// decodes to the hash.
pub proof fn lemma_address_roundtrip(hash: Seq<u8>)
    ensures
        spec_split(spec_address_text(hash), ':') == seq!["blake3"@, spec_hex_encode(hash)],
        spec_hex_decode(spec_hex_encode(hash)) == Some(hash),
{
    reveal_strlit("blake3:");
    reveal_strlit("blake3");
    lemma_hex_roundtrip(hash);
    lemma_hex_has_no_colon(hash);
    let a = "blake3"@;
    assert(!a.contains(':')) by {
        if a.contains(':') {
            let k = choose|k: int| 0 <= k < a.len() && a[k] == ':';
        }
    }
    assert(spec_address_text(hash) =~= a + seq![':'] + spec_hex_encode(hash));
    crate::core_types::text::lemma_split_pair(a, spec_hex_encode(hash), ':');
}

} // verus!
