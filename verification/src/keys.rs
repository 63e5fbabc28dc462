//! One-time keys: the public identity of a token, the secret that spends it,
//! the base keys they are derived from, and signatures.

use crate::bytes::same_bytes;
use blsttc::SecretKey;
use vstd::prelude::*;

verus! {

/// Whether 32 bytes are the big-endian encoding of a BLS secret key.
pub uninterp spec fn bls_secret_key_decodes(secret: Seq<u8>) -> bool;

/// Whether 48 bytes are the compressed encoding of a BLS public key.
pub uninterp spec fn bls_public_key_decodes(public: Seq<u8>) -> bool;

/// The encoding of the public key that matches the secret key `secret`.
pub uninterp spec fn bls_public_key(secret: Seq<u8>) -> Seq<u8>;

/// The encoding of the signature of `msg` under the secret key `secret`.
pub uninterp spec fn bls_signature(secret: Seq<u8>, msg: Seq<u8>) -> Seq<u8>;

/// Whether `public` and `signature` decode to a key and a signature such
/// that the signature matches `msg` under the key.
pub uninterp spec fn bls_verifies(public: Seq<u8>, signature: Seq<u8>, msg: Seq<u8>) -> bool;

/// The encoding of the child of the public key `public` at `index`.
pub uninterp spec fn bls_child_public_key(public: Seq<u8>, index: Seq<u8>) -> Seq<u8>;

/// The encoding of the child of the secret key `secret` at `index`.
pub uninterp spec fn bls_child_secret_key(secret: Seq<u8>, index: Seq<u8>) -> Seq<u8>;

/// The index at which a one-time key is derived from a base key.
pub type DerivationIndex = [u8; 32];

/// The public identity of one token: a one-time BLS public key, held as its
/// 48-byte compressed encoding.
#[derive(Clone, Copy, Debug, PartialEq, Eq, PartialOrd, Ord, Hash)]
pub struct DbcId {
    pub bytes: [u8; 48],
}

impl View for DbcId {
    type V = Seq<u8>;

    open spec fn view(&self) -> Seq<u8> {
        self.bytes@
    }
}

/// A BLS signature, held as its 96-byte compressed encoding.
#[derive(Clone, Copy, Debug, PartialEq, Eq, PartialOrd, Ord, Hash)]
pub struct Signature {
    pub bytes: [u8; 96],
}

impl View for Signature {
    type V = Seq<u8>;

    open spec fn view(&self) -> Seq<u8> {
        self.bytes@
    }
}

impl Signature {
    /// The signature that holds the given bytes.
    pub fn from_bytes(bytes: [u8; 96]) -> (r: Signature)
        ensures
            r.bytes == bytes,
    {
        Signature { bytes }
    }

    /// The bytes of the signature.
    pub fn to_bytes(&self) -> (r: [u8; 96])
        ensures
            r@ == self@,
    {
        self.bytes
    }

    /// Whether the two signatures hold the same bytes.
    pub fn same(&self, other: &Signature) -> (r: bool)
        ensures
            r == (self@ == other@),
            r == (*self == *other),
    {
        let r = same_bytes(self.bytes.as_slice(), other.bytes.as_slice());
        proof {
            if r {
                assert(self.bytes@ =~= other.bytes@);
                assert(self.bytes == other.bytes);
            }
        }
        r
    }
}

/// The public key of a verifier, held as its 48-byte compressed encoding.
#[derive(Clone, Copy, Debug, PartialEq, Eq, PartialOrd, Ord, Hash)]
pub struct PublicKey {
    pub bytes: [u8; 48],
}

impl View for PublicKey {
    type V = Seq<u8>;

    open spec fn view(&self) -> Seq<u8> {
        self.bytes@
    }
}

impl PublicKey {
    /// The key that holds the given bytes.
    pub fn from_bytes(bytes: [u8; 48]) -> (r: PublicKey)
        ensures
            r.bytes == bytes,
    {
        PublicKey { bytes }
    }

    /// The bytes of the key.
    pub fn to_bytes(&self) -> (r: [u8; 48])
        ensures
            r@ == self@,
    {
        self.bytes
    }

    /// Whether the two keys are the same.
    pub fn same(&self, other: &PublicKey) -> (r: bool)
        ensures
            r == (self@ == other@),
            r == (*self == *other),
    {
        let r = same_bytes(self.bytes.as_slice(), other.bytes.as_slice());
        proof {
            if r {
                assert(self.bytes@ =~= other.bytes@);
                assert(self.bytes == other.bytes);
            }
        }
        r
    }

    /// Whether `signature` is a signature of `msg` by the secret key of
    /// this key.
    pub fn verify(&self, signature: &Signature, msg: &[u8]) -> (r: bool)
        ensures
            r == bls_verifies(self@, signature@, msg@),
    {
        bls_verify(&self.bytes, &signature.bytes, msg)
    }
}

impl DbcId {
    /// The identity that holds the given bytes.
    pub fn from_bytes(bytes: [u8; 48]) -> (r: DbcId)
        ensures
            r.bytes == bytes,
    {
        DbcId { bytes }
    }

    /// The bytes of the identity.
    pub fn to_bytes(&self) -> (r: [u8; 48])
        ensures
            r@ == self@,
    {
        self.bytes
    }

    /// Whether the two identities are the same key.
    pub fn same(&self, other: &DbcId) -> (r: bool)
        ensures
            r == (self@ == other@),
            r == (*self == *other),
    {
        let r = same_bytes(self.bytes.as_slice(), other.bytes.as_slice());
        proof {
            if r {
                assert(self.bytes@ =~= other.bytes@);
                assert(self.bytes == other.bytes);
            }
        }
        r
    }

    /// Whether `signature` is a signature of `msg` by the secret key of this
    /// identity.
    pub fn verify(&self, signature: &Signature, msg: &[u8]) -> (r: bool)
        ensures
            r == bls_verifies(self@, signature@, msg@),
    {
        bls_verify(&self.bytes, &signature.bytes, msg)
    }
}

/// The one-time secret key of a token, held as its 32-byte big-endian
/// encoding. It signs the one transaction that spends the token.
#[derive(Clone, Copy, Debug, PartialEq, Eq)]
pub struct DerivedKey {
    bytes: [u8; 32],
}

impl View for DerivedKey {
    type V = Seq<u8>;

    closed spec fn view(&self) -> Seq<u8> {
        self.bytes@
    }
}

impl DerivedKey {
    #[verifier::type_invariant]
    spec fn decodes(self) -> bool {
        bls_secret_key_decodes(self.bytes@)
    }

    /// The identity of the token that this key spends.
    pub open spec fn spec_dbc_id(self) -> Seq<u8> {
        bls_public_key(self@)
    }

    /// Reads a key from its encoding; `None` where the bytes encode no key.
    pub fn from_bytes(bytes: [u8; 32]) -> (r: Option<DerivedKey>)
        ensures
            r.is_some() == bls_secret_key_decodes(bytes@),
            r matches Some(k) ==> k@ == bytes@,
    {
        if secret_key_decodes(&bytes) {
            Some(DerivedKey { bytes })
        } else {
            None
        }
    }

    /// The encoding of the key.
    pub fn to_bytes(&self) -> (r: [u8; 32])
        ensures
            r@ == self@,
            bls_secret_key_decodes(r@),
    {
        proof {
            use_type_invariant(self);
        }
        self.bytes
    }

    /// The identity of the token that this key spends.
    pub fn dbc_id(&self) -> (r: DbcId)
        ensures
            r@ == self.spec_dbc_id(),
    {
        proof {
            use_type_invariant(self);
        }
        match public_key_of(&self.bytes) {
            Some(bytes) => DbcId { bytes },
            None => vstd::pervasive::unreached(),
        }
    }

    /// Signs `msg`.
    pub fn sign(&self, msg: &[u8]) -> (r: Signature)
        ensures
            r@ == bls_signature(self@, msg@),
    {
        proof {
            use_type_invariant(self);
        }
        match sign_with(&self.bytes, msg) {
            Some(bytes) => Signature { bytes },
            None => vstd::pervasive::unreached(),
        }
    }
}

/// The base public key of an owner, from which the identities of the tokens
/// sent to that owner are derived. Held as its 48-byte compressed encoding.
#[derive(Clone, Copy, Debug, PartialEq, Eq)]
pub struct PublicAddress {
    bytes: [u8; 48],
}

impl View for PublicAddress {
    type V = Seq<u8>;

    closed spec fn view(&self) -> Seq<u8> {
        self.bytes@
    }
}

impl PublicAddress {
    #[verifier::type_invariant]
    spec fn decodes(self) -> bool {
        bls_public_key_decodes(self.bytes@)
    }

    /// Reads a base key from its encoding; `None` where the bytes encode no
    /// public key.
    pub fn from_bytes(bytes: [u8; 48]) -> (r: Option<PublicAddress>)
        ensures
            r.is_some() == bls_public_key_decodes(bytes@),
            r matches Some(k) ==> k@ == bytes@,
    {
        if public_key_decodes(&bytes) {
            Some(PublicAddress { bytes })
        } else {
            None
        }
    }

    /// The encoding of the key.
    pub fn to_bytes(&self) -> (r: [u8; 48])
        ensures
            r@ == self@,
    {
        self.bytes
    }

    /// The identity of the token that is derived from this key at `index`.
    pub fn dbc_id(&self, index: &DerivationIndex) -> (r: DbcId)
        ensures
            r@ == bls_child_public_key(self@, index@),
    {
        proof {
            use_type_invariant(self);
        }
        match child_public_key(&self.bytes, index) {
            Some(bytes) => DbcId { bytes },
            None => vstd::pervasive::unreached(),
        }
    }
}

/// The base secret key of an owner, from which the one-time secrets of the
/// owner's tokens are derived. Held as its 32-byte big-endian encoding.
#[derive(Clone, Copy, Debug, PartialEq, Eq)]
pub struct MainKey {
    bytes: [u8; 32],
}

impl View for MainKey {
    type V = Seq<u8>;

    closed spec fn view(&self) -> Seq<u8> {
        self.bytes@
    }
}

impl MainKey {
    #[verifier::type_invariant]
    spec fn decodes(self) -> bool {
        bls_secret_key_decodes(self.bytes@)
    }

    /// Reads a base secret from its encoding; `None` where the bytes encode
    /// no key.
    pub fn from_bytes(bytes: [u8; 32]) -> (r: Option<MainKey>)
        ensures
            r.is_some() == bls_secret_key_decodes(bytes@),
            r matches Some(k) ==> k@ == bytes@,
    {
        if secret_key_decodes(&bytes) {
            Some(MainKey { bytes })
        } else {
            None
        }
    }

    /// The encoding of the public key that matches this secret.
    pub fn public_key_bytes(&self) -> (r: [u8; 48])
        ensures
            r@ == bls_public_key(self@),
    {
        proof {
            use_type_invariant(self);
        }
        match public_key_of(&self.bytes) {
            Some(bytes) => bytes,
            None => vstd::pervasive::unreached(),
        }
    }

    /// The one-time secret that is derived from this key at `index`.
    pub fn derive_key(&self, index: &DerivationIndex) -> (r: DerivedKey)
        ensures
            r@ == bls_child_secret_key(self@, index@),
    {
        proof {
            use_type_invariant(self);
        }
        match child_secret_key(&self.bytes, index) {
            Some(bytes) => DerivedKey { bytes },
            None => vstd::pervasive::unreached(),
        }
    }
}

/// `SecretKey::from_bytes` of blsttc: whether the bytes are accepted.
#[verifier::external_body]
fn secret_key_decodes(secret: &[u8; 32]) -> (r: bool)
    ensures
        r == bls_secret_key_decodes(secret@),
{
    SecretKey::from_bytes(*secret).is_ok()
}

/// `PublicKey::from_bytes` of blsttc: whether the bytes are accepted.
#[verifier::external_body]
fn public_key_decodes(public: &[u8; 48]) -> (r: bool)
    ensures
        r == bls_public_key_decodes(public@),
{
    blsttc::PublicKey::from_bytes(*public).is_ok()
}

/// `SecretKey::public_key` of blsttc, from and to encodings: there is a
/// result exactly where the secret key decodes, and it is the encoding of
/// the matching public key.
#[verifier::external_body]
fn public_key_of(secret: &[u8; 32]) -> (r: Option<[u8; 48]>)
    ensures
        r.is_some() == bls_secret_key_decodes(secret@),
        r matches Some(public) ==> public@ == bls_public_key(secret@),
{
    let key = SecretKey::from_bytes(*secret).ok()?;
    Some(key.public_key().to_bytes())
}

/// `SecretKey::sign` of blsttc, from and to encodings: there is a result
/// exactly where the secret key decodes, and it is the encoding of the
/// signature of `msg`.
#[verifier::external_body]
fn sign_with(secret: &[u8; 32], msg: &[u8]) -> (r: Option<[u8; 96]>)
    ensures
        r.is_some() == bls_secret_key_decodes(secret@),
        r matches Some(signature) ==> signature@ == bls_signature(secret@, msg@),
{
    let key = SecretKey::from_bytes(*secret).ok()?;
    Some(key.sign(msg).to_bytes())
}

/// `PublicKey::verify` of blsttc, from encodings: `false` where the key or
/// the signature does not decode, else what `verify` returns.
#[verifier::external_body]
fn bls_verify(public: &[u8; 48], signature: &[u8; 96], msg: &[u8]) -> (r: bool)
    ensures
        r == bls_verifies(public@, signature@, msg@),
{
    match (blsttc::PublicKey::from_bytes(*public), blsttc::Signature::from_bytes(*signature)) {
        (Ok(key), Ok(sig)) => key.verify(&sig, msg),
        _ => false,
    }
}

/// `PublicKey::derive_child` of blsttc, from and to encodings: there is a
/// result exactly where the public key decodes, and it is the encoding of
/// the child key at `index`.
#[verifier::external_body]
fn child_public_key(public: &[u8; 48], index: &[u8; 32]) -> (r: Option<[u8; 48]>)
    ensures
        r.is_some() == bls_public_key_decodes(public@),
        r matches Some(child) ==> child@ == bls_child_public_key(public@, index@),
{
    let key = blsttc::PublicKey::from_bytes(*public).ok()?;
    Some(key.derive_child(index).to_bytes())
}

/// `SecretKey::derive_child` of blsttc, from and to encodings: there is a
/// result exactly where the secret key decodes; it is the encoding of the
/// child key at `index`, which decodes in turn.
#[verifier::external_body]
fn child_secret_key(secret: &[u8; 32], index: &[u8; 32]) -> (r: Option<[u8; 32]>)
    ensures
        r.is_some() == bls_secret_key_decodes(secret@),
        r matches Some(child) ==> child@ == bls_child_secret_key(secret@, index@)
            && bls_secret_key_decodes(child@),
{
    let key = SecretKey::from_bytes(*secret).ok()?;
    Some(key.derive_child(index).to_bytes())
}

} // verus!
