//! SHA3-256 digests, by which transactions are identified and ordered.

use crate::bytes::{less_bytes, lex_less, same_bytes};
use tiny_keccak::{Hasher, Sha3};
use vstd::prelude::*;

verus! {

/// The SHA3-256 digest of `data`, as tiny-keccak computes it.
pub uninterp spec fn sha3_256(data: Seq<u8>) -> Seq<u8>;

/// A 32-byte digest.
#[derive(Clone, Copy, Debug, PartialEq, Eq, PartialOrd, Ord, Hash)]
pub struct Hash {
    pub bytes: [u8; 32],
}

impl View for Hash {
    type V = Seq<u8>;

    open spec fn view(&self) -> Seq<u8> {
        self.bytes@
    }
}

impl Hash {
    /// The digest that holds the first 32 bytes of `bytes`.
    pub open spec fn with_encoding(bytes: Seq<u8>) -> Hash {
        Hash { bytes: crate::bytes::array_of::<32>(bytes) }
    }

    /// The digest with the bytes of `hash` is `hash`.
    pub proof fn lemma_with_own_encoding(hash: Hash)
        ensures
            Hash::with_encoding(hash@) == hash,
    {
        crate::bytes::lemma_array_of::<32>(hash@);
    }

    /// The digest that holds the given bytes.
    pub fn from_bytes(bytes: [u8; 32]) -> (r: Hash)
        ensures
            r@ == bytes@,
            r.bytes == bytes,
    {
        Hash { bytes }
    }

    /// The bytes of the digest.
    pub fn to_bytes(&self) -> (r: [u8; 32])
        ensures
            r@ == self@,
    {
        self.bytes
    }

    /// The SHA3-256 digest of `data`.
    pub fn of(data: &[u8]) -> (r: Hash)
        ensures
            r@ == sha3_256(data@),
    {
        Hash { bytes: sha3_256_digest(data) }
    }

    /// Whether the two digests hold the same bytes.
    pub fn same(&self, other: &Hash) -> (r: bool)
        ensures
            r == (self@ == other@),
            r == (*self == *other),
    {
        let r = same_bytes(self.bytes.as_slice(), other.bytes.as_slice());
        proof {
            if r {
                assert(self.bytes@ =~= other.bytes@);
                assert(self.bytes == other.bytes);
            }
        }
        r
    }

    /// Whether this digest comes before `other`, byte by byte.
    pub fn less(&self, other: &Hash) -> (r: bool)
        ensures
            r == lex_less(self@, other@),
    {
        less_bytes(self.bytes.as_slice(), other.bytes.as_slice())
    }
}

/// The SHA3-256 sponge of tiny-keccak, fed `data` once and finalised into
/// 32 bytes: the result is the SHA3-256 digest of `data`.
#[verifier::external_body]
fn sha3_256_digest(data: &[u8]) -> (r: [u8; 32])
    ensures
        r@ == sha3_256(data@),
{
    let mut sha3 = Sha3::v256();
    sha3.update(data);
    let mut digest = [0u8; 32];
    sha3.finalize(&mut digest);
    digest
}

} // verus!
