//! Ed25519 signatures for certificates.
use vstd::prelude::*;
use crate::core_types::hash::{spec_hex_encode, spec_hex_decode, hex_encode, hex_decode};
use rand_core::RngCore;
use ed25519_dalek::Signer as DalekSigner;
use ed25519_dalek::Verifier as DalekVerifier;

verus! {

/// The public key of the Ed25519 secret key `secret`.
pub uninterp spec fn spec_ed25519_public(secret: Seq<u8>) -> Seq<u8>;

/// The Ed25519 signature of `msg` under the secret key `secret`.
pub uninterp spec fn spec_ed25519_signature(secret: Seq<u8>, msg: Seq<u8>) -> Seq<u8>;

/// Whether 32 bytes decompress to a curve point, as a public key must.
pub uninterp spec fn spec_ed25519_key_valid(public: Seq<u8>) -> bool;

/// Whether `sig` is a valid signature of `msg` under `public`.
pub uninterp spec fn spec_ed25519_verifies(public: Seq<u8>, msg: Seq<u8>, sig: Seq<u8>) -> bool;

/// 32 random bytes from the operating system.
///
/// Calls `rand_core::OsRng.fill_bytes`. The bytes are random: nothing is
/// stated of them.
#[verifier::external_body]
fn random_secret() -> (b: [u8; 32]) {
    let mut b = [0u8; 32];
    rand_core::OsRng.fill_bytes(&mut b);
    b
}

/// The public key of a secret key.
///
/// Builds `ed25519_dalek::SigningKey::from_bytes(secret)` and returns
/// `verifying_key().to_bytes()`, a function of the secret alone. The bytes
/// are the compression of a curve point, so they decode again as a key.
#[verifier::external_body]
fn ed25519_public(secret: &[u8; 32]) -> (p: [u8; 32])
    ensures
        p@ == spec_ed25519_public(secret@),
        spec_ed25519_key_valid(p@),
{
    ed25519_dalek::SigningKey::from_bytes(secret).verifying_key().to_bytes()
}

/// The signature of `msg` under `secret`.
///
/// Calls `ed25519_dalek::Signer::sign` on `SigningKey::from_bytes(secret)`;
/// Ed25519 signing is deterministic, so the bytes depend on the key and the
/// message alone. As the crate documents, the signature verifies for `msg`
/// under the public key of the same secret.
#[verifier::external_body]
fn ed25519_sign(secret: &[u8; 32], msg: &[u8]) -> (s: [u8; 64])
    ensures
        s@ == spec_ed25519_signature(secret@, msg@),
        spec_ed25519_verifies(spec_ed25519_public(secret@), msg@, s@),
{
    ed25519_dalek::SigningKey::from_bytes(secret).sign(msg).to_bytes()
}

/// Whether 32 bytes form a valid public key.
///
/// Calls `ed25519_dalek::VerifyingKey::from_bytes` and reports whether it
/// returned `Ok`.
#[verifier::external_body]
fn ed25519_key_valid(public: &[u8; 32]) -> (b: bool)
    ensures
        b == spec_ed25519_key_valid(public@),
{
    ed25519_dalek::VerifyingKey::from_bytes(public).is_ok()
}

/// Whether `sig` verifies for `msg` under `public`.
///
/// Builds the key with `VerifyingKey::from_bytes` (a key that does not
/// decode verifies nothing) and the signature with `Signature::from_bytes`,
/// then reports whether `verify` returned `Ok`.
#[verifier::external_body]
fn ed25519_verify(public: &[u8; 32], msg: &[u8], sig: &[u8; 64]) -> (b: bool)
    ensures
        b == (spec_ed25519_key_valid(public@) && spec_ed25519_verifies(public@, msg@, sig@)),
{
    let signature = ed25519_dalek::Signature::from_bytes(sig);
    match ed25519_dalek::VerifyingKey::from_bytes(public) {
        Ok(key) => key.verify(msg, &signature).is_ok(),
        Err(_) => false,
    }
}

/// What checking `signature` over `msg` under the key `public` gives: a
/// signature that is not 64 bytes long is refused; otherwise whether the key
/// is valid and the signature verifies.
pub open spec fn spec_check(public: Seq<u8>, msg: Seq<u8>, signature: Signature) -> Result<bool, SignatureError> {
    if signature.bytes@.len() != 64 {
        Err(SignatureError::InvalidSignature)
    } else {
        Ok(spec_ed25519_key_valid(public) && spec_ed25519_verifies(public, msg, signature.bytes@))
    }
}

/// Signature schemes.
#[derive(Debug, Clone, Copy, PartialEq, Eq, Structural)]
pub enum SignatureScheme {
    /// Ed25519.
    Ed25519,
}

impl Default for SignatureScheme {
    fn default() -> (s: Self)
        ensures
            s == SignatureScheme::Ed25519,
    {
        SignatureScheme::Ed25519
    }
}

/// A signature and its scheme.
#[derive(Debug, Clone, PartialEq, Eq)]
pub struct Signature {
    pub scheme: SignatureScheme,
    pub bytes: Vec<u8>,
}

impl Signature {
    /// A signature of `scheme` holding `bytes`.
    pub fn new(scheme: SignatureScheme, bytes: Vec<u8>) -> (s: Self)
        ensures
            s.scheme == scheme,
            s.bytes@ == bytes@,
    {
        Signature { scheme, bytes }
    }

    /// An Ed25519 signature holding `bytes`.
    pub fn ed25519(bytes: Vec<u8>) -> (s: Self)
        ensures
            s.scheme == SignatureScheme::Ed25519,
            s.bytes@ == bytes@,
    {
        Signature { scheme: SignatureScheme::Ed25519, bytes }
    }

    /// The signature bytes.
    pub fn as_bytes(&self) -> (b: &[u8])
        ensures
            b@ == self.bytes@,
    {
        self.bytes.as_slice()
    }
}

/// Signature errors.
#[derive(Debug, Clone, Copy, PartialEq, Eq, Structural)]
pub enum SignatureError {
    InvalidSecretKey,
    InvalidPublicKey,
    InvalidSignature,
    InvalidHex,
    UnsupportedScheme,
    VerificationFailed,
}

impl SignatureError {
    /// The error message.
    pub fn to_string(&self) -> (s: String)
        ensures
            s@ == match *self {
                SignatureError::InvalidSecretKey => "invalid secret key"@,
                SignatureError::InvalidPublicKey => "invalid public key"@,
                SignatureError::InvalidSignature => "invalid signature"@,
                SignatureError::InvalidHex => "invalid hex encoding"@,
                SignatureError::UnsupportedScheme => "unsupported signature scheme"@,
                SignatureError::VerificationFailed => "signature verification failed"@,
            },
    {
        let t = match self {
            SignatureError::InvalidSecretKey => "invalid secret key",
            SignatureError::InvalidPublicKey => "invalid public key",
            SignatureError::InvalidSignature => "invalid signature",
            SignatureError::InvalidHex => "invalid hex encoding",
            SignatureError::UnsupportedScheme => "unsupported signature scheme",
            SignatureError::VerificationFailed => "signature verification failed",
        };
        t.to_owned()
    }
}

/// Public key bytes.
#[derive(Debug, Clone, Copy, PartialEq, Eq)]
pub struct PublicKeyBytes(pub [u8; 32]);

impl PublicKeyBytes {
    /// The key holding `bytes`.
    pub fn from_bytes(bytes: [u8; 32]) -> (k: Self)
        ensures
            k.0@ == bytes@,
    {
        PublicKeyBytes(bytes)
    }

    /// The key bytes.
    pub fn as_bytes(&self) -> (b: &[u8])
        ensures
            b@ == self.0@,
    {
        self.0.as_slice()
    }

    /// Lowercase hexadecimal text of the key.
    pub fn to_hex(&self) -> (s: String)
        ensures
            s@ == spec_hex_encode(self.0@),
    {
        hex_encode(self.0.as_slice())
    }

    /// Parses 64 hexadecimal digits.
    pub fn from_hex(hex: &str) -> (r: Result<PublicKeyBytes, SignatureError>)
        ensures
            match spec_hex_decode(hex@) {
                None => r == Err::<PublicKeyBytes, SignatureError>(SignatureError::InvalidHex),
                Some(b) => if b.len() == 32 {
                    r matches Ok(k) && k.0@ == b
                } else {
                    r == Err::<PublicKeyBytes, SignatureError>(SignatureError::InvalidPublicKey)
                },
            },
    {
        let bytes = match hex_decode(hex) {
            Ok(b) => b,
            Err(_) => return Err(SignatureError::InvalidHex),
        };
        if bytes.len() != 32 {
            return Err(SignatureError::InvalidPublicKey);
        }
        let mut arr = [0u8; 32];
        let mut i: usize = 0;
        while i < 32
            invariant
                bytes@.len() == 32,
                i <= 32,
                forall|j: int| 0 <= j < i ==> arr@[j] == bytes@[j],
            decreases 32 - i,
        {
            arr[i] = bytes[i];
            i = i + 1;
        }
        assert(arr@ =~= bytes@);
        Ok(PublicKeyBytes(arr))
    }
}

/// Creates signatures with a secret key.
pub struct Signer {
    secret: [u8; 32],
    public: [u8; 32],
}

impl Signer {
    /// The secret key.
    pub closed spec fn secret(&self) -> Seq<u8> {
        self.secret@
    }

    #[verifier::type_invariant]
    closed spec fn wf(self) -> bool {
        &&& self.public@ == spec_ed25519_public(self.secret@)
        &&& spec_ed25519_key_valid(self.public@)
    }

    /// A signer with a fresh random secret key.
    pub fn new() -> (s: Self) {
        let secret = random_secret();
        let public = ed25519_public(&secret);
        Signer { secret, public }
    }

    /// A signer with the given 32-byte secret key.
    pub fn from_secret(secret: &[u8]) -> (r: Result<Signer, SignatureError>)
        ensures
            secret@.len() != 32 ==> r == Err::<Signer, SignatureError>(SignatureError::InvalidSecretKey),
            secret@.len() == 32 ==> (r matches Ok(s) && s.secret() == secret@),
    {
        if secret.len() != 32 {
            return Err(SignatureError::InvalidSecretKey);
        }
        let mut arr = [0u8; 32];
        let mut i: usize = 0;
        while i < 32
            invariant
                secret@.len() == 32,
                i <= 32,
                forall|j: int| 0 <= j < i ==> arr@[j] == secret@[j],
            decreases 32 - i,
        {
            arr[i] = secret[i];
            i = i + 1;
        }
        assert(arr@ =~= secret@);
        let public = ed25519_public(&arr);
        Ok(Signer { secret: arr, public })
    }

    /// The public key, a valid one.
    pub fn public_key(&self) -> (k: PublicKeyBytes)
        ensures
            k.0@ == spec_ed25519_public(self.secret()),
            spec_ed25519_key_valid(k.0@),
    {
        proof {
            use_type_invariant(self);
        }
        PublicKeyBytes(self.public)
    }

    /// Signs `message`. The signature checks out for `message` under this
    /// signer's public key.
    pub fn sign(&self, message: &[u8]) -> (r: Result<Signature, SignatureError>)
        ensures
            r matches Ok(s) && s.scheme == SignatureScheme::Ed25519
                && s.bytes@ == spec_ed25519_signature(self.secret(), message@)
                && spec_check(spec_ed25519_public(self.secret()), message@, s) == Ok::<bool, SignatureError>(true),
            spec_ed25519_public(self.secret()).len() == 32,
    {
        proof {
            use_type_invariant(self);
        }
        let sig = ed25519_sign(&self.secret, message);
        let mut bytes: Vec<u8> = Vec::new();
        let mut i: usize = 0;
        while i < 64
            invariant
                i <= 64,
                bytes@ == sig@.take(i as int),
            decreases 64 - i,
        {
            bytes.push(sig[i]);
            i = i + 1;
            assert(bytes@ =~= sig@.take(i as int));
        }
        assert(sig@.take(64) =~= sig@);
        Ok(Signature::ed25519(bytes))
    }
}

impl Default for Signer {
    fn default() -> (s: Self) {
        Signer::new()
    }
}

/// Verifies signatures under one public key.
pub struct Verifier {
    public: [u8; 32],
}

impl Verifier {
    /// The public key.
    pub closed spec fn public(&self) -> Seq<u8> {
        self.public@
    }

    /// A verifier for `public_key`, refused when the bytes are not a valid key.
    pub fn new(public_key: PublicKeyBytes) -> (r: Result<Verifier, SignatureError>)
        ensures
            spec_ed25519_key_valid(public_key.0@) ==> (r matches Ok(v) && v.public() == public_key.0@),
            !spec_ed25519_key_valid(public_key.0@) ==> r == Err::<Verifier, SignatureError>(
                SignatureError::InvalidPublicKey,
            ),
    {
        if !ed25519_key_valid(&public_key.0) {
            return Err(SignatureError::InvalidPublicKey);
        }
        Ok(Verifier { public: public_key.0 })
    }

    /// Whether `signature` is a valid signature of `message`; a signature
    /// that is not 64 bytes long is refused.
    pub fn verify(&self, message: &[u8], signature: &Signature) -> (r: Result<bool, SignatureError>)
        ensures
            r == spec_check(self.public(), message@, *signature),
    {
        if signature.bytes.len() != 64 {
            return Err(SignatureError::InvalidSignature);
        }
        let mut arr = [0u8; 64];
        let mut i: usize = 0;
        while i < 64
            invariant
                signature.bytes@.len() == 64,
                i <= 64,
                forall|j: int| 0 <= j < i ==> arr@[j] == signature.bytes@[j],
            decreases 64 - i,
        {
            arr[i] = signature.bytes[i];
            i = i + 1;
        }
        assert(arr@ =~= signature.bytes@);
        Ok(ed25519_verify(&self.public, message, &arr))
    }
}

} // verus!
