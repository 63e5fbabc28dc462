//! Spent proofs: the attestation of a verifier that an input was spent in
//! a transaction, whole or as the shares of a threshold of signers.

use crate::amount::BlindedAmount;
use crate::bytes::{append, less_bytes, same_bytes};
use crate::keymap::Key;
use crate::error::Error;
use crate::hash::sha3_256;
use crate::keys::{bls_verifies, DbcId, PublicKey, Signature};
use blsttc::{PublicKeySet, SignatureShare};
use vstd::prelude::*;

verus! {

/// The encoding of the master public key of the key set that `key_set`
/// encodes; `None` where it encodes no key set.
pub uninterp spec fn bls_key_set_public_key(key_set: Seq<u8>) -> Option<Seq<u8>>;

/// The encoding of the signature that the signature shares `shares`, each
/// with its index in `indices`, combine to under the key set that
/// `key_set` encodes; `None` where the key set or a share does not
/// decode, or where the shares are too few.
pub uninterp spec fn bls_combined_signature(
    key_set: Seq<u8>,
    indices: Seq<u64>,
    shares: Seq<Seq<u8>>,
) -> Option<Seq<u8>>;

/// What a spent proof attests: that the token `dbc_id`, of the blinded
/// amount `blinded_amount`, was spent in the transaction of the hash
/// `transaction_hash`.
#[derive(Clone, Copy, Debug, PartialEq, Eq)]
pub struct SpentProofContent {
    pub dbc_id: DbcId,
    pub transaction_hash: crate::hash::Hash,
    pub blinded_amount: BlindedAmount,
}

impl SpentProofContent {
    /// The encoding of the content: identity, transaction hash,
    /// compressed blinded amount.
    pub open spec fn spec_to_bytes(self) -> Seq<u8> {
        self.dbc_id@ + self.transaction_hash@ + self.blinded_amount@
    }

    /// The digest of the content, which the verifier signs.
    pub open spec fn spec_hash(self) -> Seq<u8> {
        sha3_256(self.spec_to_bytes())
    }

    /// The encoding of the content: identity, transaction hash,
    /// compressed blinded amount.
    pub fn to_bytes(&self) -> (r: Vec<u8>)
        ensures
            r@ == self.spec_to_bytes(),
    {
        let mut v: Vec<u8> = Vec::new();
        append(&mut v, self.dbc_id.bytes.as_slice());
        append(&mut v, self.transaction_hash.bytes.as_slice());
        append(&mut v, self.blinded_amount.bytes.as_slice());
        v
    }

    /// The digest of the content, which the verifier signs.
    pub fn hash(&self) -> (r: crate::hash::Hash)
        ensures
            r@ == self.spec_hash(),
    {
        let bytes = self.to_bytes();
        crate::hash::Hash::of(bytes.as_slice())
    }

    /// Whether the two contents are the same.
    pub fn same(&self, other: &SpentProofContent) -> (r: bool)
        ensures
            r == (*self == *other),
    {
        self.dbc_id.same(&other.dbc_id) && self.transaction_hash.same(&other.transaction_hash)
            && self.blinded_amount.same(&other.blinded_amount)
    }
}

/// A verifier that tells which keys speak for the spentbook.
pub trait SpentProofKeyVerifier {
    type Error;

    /// Whether `key` speaks for the spentbook.
    spec fn is_known(&self, key: PublicKey) -> bool;

    /// Checks that `key` speaks for the spentbook.
    fn verify_known_key(&self, key: &PublicKey) -> (r: Result<(), Self::Error>)
        ensures
            r is Ok == self.is_known(*key),
    ;
}

/// The verifier that knows the keys of a list.
#[derive(Debug)]
pub struct KnownKeys {
    pub keys: Vec<PublicKey>,
}

impl Clone for KnownKeys {
    fn clone(&self) -> (r: KnownKeys)
        ensures
            r.keys@ == self.keys@,
    {
        KnownKeys { keys: vstd::slice::slice_to_vec(self.keys.as_slice()) }
    }
}

impl SpentProofKeyVerifier for KnownKeys {
    type Error = ();

    open spec fn is_known(&self, key: PublicKey) -> bool {
        self.keys@.contains(key)
    }

    fn verify_known_key(&self, key: &PublicKey) -> (r: Result<(), ()>) {
        let mut i: usize = 0;
        while i < self.keys.len()
            invariant
                i <= self.keys@.len(),
                forall|k: int| 0 <= k < i ==> self.keys@[k] != *key,
            decreases self.keys@.len() - i,
        {
            if self.keys[i].same(key) {
                return Ok(());
            }
            i += 1;
        }
        Err(())
    }
}

/// The attestation of a verifier that an input was spent in a
/// transaction: the content and the signature of the spentbook's key over
/// the digest of the content.
#[derive(Clone, Copy, Debug, PartialEq, Eq)]
pub struct SpentProof {
    pub content: SpentProofContent,
    pub spentbook_pub_key: PublicKey,
    pub spentbook_sig: Signature,
}

impl Key for SpentProof {
    /// The encoding of the proof: the content, the key and the signature.
    open spec fn key_bytes(&self) -> Seq<u8> {
        self.content.spec_to_bytes() + self.spentbook_pub_key@ + self.spentbook_sig@
    }

    proof fn lemma_bytes_tell_keys_apart(a: SpentProof, b: SpentProof) {
        let x = a.key_bytes();
        let y = b.key_bytes();
        assert(a.content.dbc_id@ =~= x.subrange(0, 48));
        assert(b.content.dbc_id@ =~= y.subrange(0, 48));
        assert(a.content.transaction_hash@ =~= x.subrange(48, 80));
        assert(b.content.transaction_hash@ =~= y.subrange(48, 80));
        assert(a.content.blinded_amount@ =~= x.subrange(80, 112));
        assert(b.content.blinded_amount@ =~= y.subrange(80, 112));
        assert(a.spentbook_pub_key@ =~= x.subrange(112, 160));
        assert(b.spentbook_pub_key@ =~= y.subrange(112, 160));
        assert(a.spentbook_sig@ =~= x.subrange(160, 256));
        assert(b.spentbook_sig@ =~= y.subrange(160, 256));
        assert(a.content.dbc_id.bytes == b.content.dbc_id.bytes);
        assert(a.content.transaction_hash.bytes == b.content.transaction_hash.bytes);
        assert(a.content.blinded_amount.bytes == b.content.blinded_amount.bytes);
        assert(a.spentbook_pub_key.bytes == b.spentbook_pub_key.bytes);
        assert(a.spentbook_sig.bytes == b.spentbook_sig.bytes);
    }

    fn is(&self, other: &SpentProof) -> (r: bool) {
        self.same(other)
    }

    fn comes_before(&self, other: &SpentProof) -> (r: bool) {
        let mine = self.to_bytes();
        let theirs = other.to_bytes();
        less_bytes(mine.as_slice(), theirs.as_slice())
    }
}

impl SpentProof {
    /// The encoding of the proof: the content, the key and the signature.
    pub fn to_bytes(&self) -> (r: Vec<u8>)
        ensures
            r@ == self.key_bytes(),
    {
        let mut v = self.content.to_bytes();
        append(&mut v, self.spentbook_pub_key.bytes.as_slice());
        append(&mut v, self.spentbook_sig.bytes.as_slice());
        v
    }

    /// What `verify` returns: an error where the proof names another
    /// transaction than `tx_hash`, where its signature does not match the
    /// digest of its content, or where its key is not known, in this
    /// order.
    pub open spec fn spec_verify(self, tx_hash: Seq<u8>, key_known: bool) -> Result<(), Error> {
        if self.content.transaction_hash@ != tx_hash {
            Err(Error::InvalidTransactionHash)
        } else if !bls_verifies(
            self.spentbook_pub_key@,
            self.spentbook_sig@,
            self.content.spec_hash(),
        ) {
            Err(Error::InvalidSpentProofSignature(self.content.dbc_id))
        } else if !key_known {
            Err(Error::FailedKnownKeyCheck)
        } else {
            Ok(())
        }
    }

    /// The identity of the token that the proof is about.
    pub fn dbc_id(&self) -> (r: &DbcId)
        ensures
            *r == self.content.dbc_id,
    {
        &self.content.dbc_id
    }

    /// The hash of the transaction that the token was spent in.
    pub fn transaction_hash(&self) -> (r: crate::hash::Hash)
        ensures
            r == self.content.transaction_hash,
    {
        self.content.transaction_hash
    }

    /// The blinded amount of the token.
    pub fn blinded_amount(&self) -> (r: &BlindedAmount)
        ensures
            *r == self.content.blinded_amount,
    {
        &self.content.blinded_amount
    }

    /// Whether the two proofs are the same.
    pub fn same(&self, other: &SpentProof) -> (r: bool)
        ensures
            r == (*self == *other),
    {
        self.content.same(&other.content) && self.spentbook_pub_key.same(&other.spentbook_pub_key)
            && self.spentbook_sig.same(&other.spentbook_sig)
    }

    /// Checks that the proof is about the transaction of the hash
    /// `tx_hash`, that it is signed by its key, and that its key speaks
    /// for the spentbook.
    pub fn verify<K: SpentProofKeyVerifier>(
        &self,
        tx_hash: crate::hash::Hash,
        proof_key_verifier: &K,
    ) -> (r: Result<(), Error>)
        ensures
            r == self.spec_verify(tx_hash@, proof_key_verifier.is_known(self.spentbook_pub_key)),
    {
        if !self.content.transaction_hash.same(&tx_hash) {
            return Err(Error::InvalidTransactionHash);
        }
        let digest = self.content.hash();
        if !self.spentbook_pub_key.verify(&self.spentbook_sig, digest.bytes.as_slice()) {
            return Err(Error::InvalidSpentProofSignature(self.content.dbc_id));
        }
        match proof_key_verifier.verify_known_key(&self.spentbook_pub_key) {
            Ok(()) => Ok(()),
            Err(_) => Err(Error::FailedKnownKeyCheck),
        }
    }

    /// The proof that the shares `shares` combine to, for the token
    /// `dbc_id` in the transaction of the hash `transaction_hash`. The
    /// blinded amount and the key set are those of the first share.
    pub fn try_from_proof_shares(
        dbc_id: DbcId,
        transaction_hash: crate::hash::Hash,
        shares: &[SpentProofShare],
    ) -> (r: Result<SpentProof, Error>)
        ensures
            r == combined_proof(dbc_id, transaction_hash, share_views(shares@)),
    {
        if shares.len() == 0 {
            return Err(Error::MissingSpentProofShare(dbc_id));
        }
        let first = &shares[0];
        if first.spentbook_pks.len() < 48 {
            return Err(Error::SpentProofSharesDoNotCombine(dbc_id));
        }
        let mut indices: Vec<u64> = Vec::new();
        let mut signatures: Vec<Signature> = Vec::new();
        let mut i: usize = 0;
        while i < shares.len()
            invariant
                i <= shares@.len(),
                indices@ =~= indices_of(share_views(shares@.subrange(0, i as int))),
                signatures@ =~= signatures_of(share_views(shares@.subrange(0, i as int))),
            decreases shares@.len() - i,
        {
            indices.push(shares[i].index);
            signatures.push(shares[i].signature_share);
            i += 1;
        }
        assert(shares@.subrange(0, shares@.len() as int) =~= shares@);
        let key = match key_set_public_key(first.spentbook_pks.as_slice()) {
            Some(bytes) => PublicKey { bytes },
            None => {
                return Err(Error::SpentProofSharesDoNotCombine(dbc_id));
            },
        };
        let signature = match combine_signature_shares(
            first.spentbook_pks.as_slice(),
            indices.as_slice(),
            signatures.as_slice(),
        ) {
            Some(bytes) => Signature { bytes },
            None => {
                return Err(Error::SpentProofSharesDoNotCombine(dbc_id));
            },
        };
        let proof = SpentProof {
            content: SpentProofContent {
                dbc_id,
                transaction_hash,
                blinded_amount: first.content.blinded_amount,
            },
            spentbook_pub_key: key,
            spentbook_sig: signature,
        };
        proof {
            crate::bytes::lemma_array_of::<48>(key@);
            crate::bytes::lemma_array_of::<96>(signature@);
        }
        Ok(proof)
    }
}

/// One signer's share of a spent proof: the content, the key set of the
/// signers, and the signer's index and signature share.
#[derive(Debug, PartialEq, Eq)]
pub struct SpentProofShare {
    pub content: SpentProofContent,
    pub spentbook_pks: Vec<u8>,
    pub index: u64,
    pub signature_share: Signature,
}

/// What a spent proof share holds.
pub struct SpentProofShareView {
    pub content: SpentProofContent,
    pub spentbook_pks: Seq<u8>,
    pub index: u64,
    pub signature_share: Signature,
}

impl View for SpentProofShare {
    type V = SpentProofShareView;

    open spec fn view(&self) -> SpentProofShareView {
        SpentProofShareView {
            content: self.content,
            spentbook_pks: self.spentbook_pks@,
            index: self.index,
            signature_share: self.signature_share,
        }
    }
}

impl Clone for SpentProofShare {
    fn clone(&self) -> (r: SpentProofShare)
        ensures
            r@ == self@,
    {
        SpentProofShare {
            content: self.content,
            spentbook_pks: vstd::slice::slice_to_vec(self.spentbook_pks.as_slice()),
            index: self.index,
            signature_share: self.signature_share,
        }
    }
}

impl SpentProofShare {
    /// The identity of the token that the share is about.
    pub fn dbc_id(&self) -> (r: &DbcId)
        ensures
            *r == self.content.dbc_id,
    {
        &self.content.dbc_id
    }

    /// Whether the two shares hold the same.
    pub fn same(&self, other: &SpentProofShare) -> (r: bool)
        ensures
            r == (self@ == other@),
    {
        let r = self.content.same(&other.content) && same_bytes(
            self.spentbook_pks.as_slice(),
            other.spentbook_pks.as_slice(),
        ) && self.index == other.index && self.signature_share.same(&other.signature_share);
        r
    }
}

/// The views of `shares`, in their order.
pub open spec fn share_views(shares: Seq<SpentProofShare>) -> Seq<SpentProofShareView> {
    Seq::new(shares.len(), |i: int| shares[i]@)
}

/// The indices of `shares`, in their order.
pub open spec fn indices_of(shares: Seq<SpentProofShareView>) -> Seq<u64> {
    Seq::new(shares.len(), |i: int| shares[i].index)
}

/// The signature shares of `shares`, in their order.
pub open spec fn signatures_of(shares: Seq<SpentProofShareView>) -> Seq<Signature> {
    Seq::new(shares.len(), |i: int| shares[i].signature_share)
}

/// The encodings of `signatures`, in their order.
pub open spec fn encodings_of(signatures: Seq<Signature>) -> Seq<Seq<u8>> {
    Seq::new(signatures.len(), |i: int| signatures[i]@)
}

/// What combining `shares` into a proof for the token `dbc_id` in the
/// transaction of the hash `transaction_hash` returns.
pub open spec fn combined_proof(
    dbc_id: DbcId,
    transaction_hash: crate::hash::Hash,
    shares: Seq<SpentProofShareView>,
) -> Result<SpentProof, Error> {
    if shares.len() == 0 {
        Err(Error::MissingSpentProofShare(dbc_id))
    } else if shares[0].spentbook_pks.len() < 48 {
        Err(Error::SpentProofSharesDoNotCombine(dbc_id))
    } else {
        match (
            bls_key_set_public_key(shares[0].spentbook_pks),
            bls_combined_signature(
                shares[0].spentbook_pks,
                indices_of(shares),
                encodings_of(signatures_of(shares)),
            ),
        ) {
            (Some(key), Some(signature)) => Ok(
                SpentProof {
                    content: SpentProofContent {
                        dbc_id,
                        transaction_hash,
                        blinded_amount: shares[0].content.blinded_amount,
                    },
                    spentbook_pub_key: key_of(key),
                    spentbook_sig: signature_of(signature),
                },
            ),
            _ => Err(Error::SpentProofSharesDoNotCombine(dbc_id)),
        }
    }
}

/// The public key that holds the first 48 bytes of `bytes`.
pub open spec fn key_of(bytes: Seq<u8>) -> PublicKey {
    PublicKey { bytes: crate::bytes::array_of::<48>(bytes) }
}

/// The signature that holds the first 96 bytes of `bytes`.
pub open spec fn signature_of(bytes: Seq<u8>) -> Signature {
    Signature { bytes: crate::bytes::array_of::<96>(bytes) }
}

/// `PublicKeySet::from_bytes` and `public_key` of blsttc: the encoding of
/// the master public key of the key set; `None` where the bytes encode no
/// key set.
#[verifier::external_body]
fn key_set_public_key(key_set: &[u8]) -> (r: Option<[u8; 48]>)
    requires
        key_set@.len() >= 48,
    ensures
        r is Some == bls_key_set_public_key(key_set@) is Some,
        r matches Some(key) ==> bls_key_set_public_key(key_set@) == Some(key@),
{
    let keys = PublicKeySet::from_bytes(key_set.to_vec()).ok()?;
    Some(keys.public_key().to_bytes())
}

/// `PublicKeySet::combine_signatures` of blsttc, from and to encodings:
/// the signature that the shares combine to, each taken with its index;
/// `None` where the key set or a share does not decode, or where
/// `combine_signatures` fails.
#[verifier::external_body]
fn combine_signature_shares(key_set: &[u8], indices: &[u64], shares: &[Signature]) -> (r: Option<
    [u8; 96],
>)
    requires
        key_set@.len() >= 48,
    ensures
        r is Some == bls_combined_signature(key_set@, indices@, encodings_of(shares@)) is Some,
        r matches Some(signature) ==> bls_combined_signature(
            key_set@,
            indices@,
            encodings_of(shares@),
        ) == Some(signature@),
{
    let keys = PublicKeySet::from_bytes(key_set.to_vec()).ok()?;
    let mut parsed: Vec<(u64, SignatureShare)> = Vec::new();
    for (index, share) in indices.iter().zip(shares.iter()) {
        parsed.push((*index, SignatureShare::from_bytes(share.bytes).ok()?));
    }
    Some(keys.combine_signatures(parsed).ok()?.to_bytes())
}

} // verus!
