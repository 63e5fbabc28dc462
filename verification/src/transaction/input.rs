//! The inputs of a transaction: revealed, as the holder sees a token that
//! can be spent, and blinded, as the transaction shows it.

use crate::amount::{BlindedAmount, PedersenGens, RevealedAmount};
use crate::bytes::append;
use crate::error::Error;
use crate::keys::{bls_signature, bls_verifies, DbcId, DerivedKey, Signature};
use vstd::prelude::*;

verus! {

/// The holder's view of a token that can be spent: the one-time secret key
/// and the revealed amount.
#[derive(Clone, Copy, Debug, PartialEq, Eq)]
pub struct RevealedInput {
    pub derived_key: DerivedKey,
    pub revealed_amount: RevealedAmount,
}

impl RevealedInput {
    pub fn new(derived_key: DerivedKey, revealed_amount: RevealedAmount) -> (r: RevealedInput)
        ensures
            r.derived_key == derived_key,
            r.revealed_amount == revealed_amount,
    {
        RevealedInput { derived_key, revealed_amount }
    }

    /// The identity of the token.
    pub fn dbc_id(&self) -> (r: DbcId)
        ensures
            r@ == self.derived_key.spec_dbc_id(),
    {
        self.derived_key.dbc_id()
    }

    /// The revealed amount of the token.
    pub fn revealed_amount(&self) -> (r: &RevealedAmount)
        ensures
            *r == self.revealed_amount,
    {
        &self.revealed_amount
    }

    /// The commitment to the amount of the token under the generators
    /// `pc_gens`.
    pub fn blinded_amount(&self, pc_gens: &PedersenGens) -> (r: BlindedAmount)
        ensures
            r@ == pc_gens.spec_commit(
                self.revealed_amount.value as nat,
                self.revealed_amount.blinding_factor@,
            ),
            pc_gens.is_default() ==> r@ == self.revealed_amount.spec_blinded_amount(),
    {
        self.revealed_amount.blinded_amount(pc_gens)
    }

    /// The public form of this input: the identity of the token, the
    /// commitment to its amount under the generators `pc_gens`, and the
    /// signature of the token's one-time key over `msg`.
    pub fn sign(&self, msg: &[u8], pc_gens: &PedersenGens) -> (r: BlindedInput)
        ensures
            r.dbc_id@ == self.derived_key.spec_dbc_id(),
            r.blinded_amount@ == pc_gens.spec_commit(
                self.revealed_amount.value as nat,
                self.revealed_amount.blinding_factor@,
            ),
            pc_gens.is_default() ==> r.blinded_amount@
                == self.revealed_amount.spec_blinded_amount(),
            r.signature@ == bls_signature(self.derived_key@, msg@),
    {
        BlindedInput {
            dbc_id: self.dbc_id(),
            blinded_amount: self.blinded_amount(pc_gens),
            signature: self.derived_key.sign(msg),
        }
    }
}

/// The public view of an input: the identity of the token, the commitment
/// to its amount, and the signature of the token's one-time key over the
/// transaction.
#[derive(Clone, Copy, Debug, PartialEq, Eq)]
pub struct BlindedInput {
    pub dbc_id: DbcId,
    pub blinded_amount: BlindedAmount,
    pub signature: Signature,
}

impl BlindedInput {
    /// The encoding of the input: identity, compressed blinded amount,
    /// signature.
    pub open spec fn spec_to_bytes(self) -> Seq<u8> {
        self.dbc_id@ + self.blinded_amount@ + self.signature@
    }

    /// What `verify` returns.
    pub open spec fn spec_verify(self, msg: Seq<u8>, blinded_amount: BlindedAmount) -> Result<
        (),
        Error,
    > {
        if self.blinded_amount@ != blinded_amount@ {
            Err(Error::InvalidInputBlindedAmount)
        } else if !bls_verifies(self.dbc_id@, self.signature@, msg) {
            Err(Error::InvalidSignature)
        } else {
            Ok(())
        }
    }

    /// Two inputs with the same encoding are the same input.
    pub proof fn lemma_encoding_is_injective(a: BlindedInput, b: BlindedInput)
        requires
            a.spec_to_bytes() == b.spec_to_bytes(),
        ensures
            a == b,
    {
        let x = a.spec_to_bytes();
        let y = b.spec_to_bytes();
        assert(a.dbc_id@ =~= x.subrange(0, 48));
        assert(b.dbc_id@ =~= y.subrange(0, 48));
        assert(a.blinded_amount@ =~= x.subrange(48, 80));
        assert(b.blinded_amount@ =~= y.subrange(48, 80));
        assert(a.signature@ =~= x.subrange(80, 176));
        assert(b.signature@ =~= y.subrange(80, 176));
        assert(a.dbc_id.bytes == b.dbc_id.bytes);
        assert(a.blinded_amount.bytes == b.blinded_amount.bytes);
        assert(a.signature.bytes == b.signature.bytes);
    }

    /// Reads an input from its encoding; `None` where the bytes are not
    /// as many as an encoding has.
    pub fn from_bytes(bytes: &[u8]) -> (r: Option<BlindedInput>)
        ensures
            r is Some == (bytes@.len() == 176),
            r matches Some(input) ==> input.spec_to_bytes() == bytes@,
    {
        if bytes.len() != 176 {
            return None;
        }
        let mut dbc_id = [0u8; 48];
        let mut blinded_amount = [0u8; 32];
        let mut signature = [0u8; 96];
        let mut i: usize = 0;
        while i < 48
            invariant
                i <= 48,
                bytes@.len() == 176,
                forall|k: int| 0 <= k < i ==> dbc_id@[k] == bytes@[k],
            decreases 48 - i,
        {
            dbc_id[i] = bytes[i];
            i += 1;
        }
        let mut i: usize = 0;
        while i < 32
            invariant
                i <= 32,
                bytes@.len() == 176,
                forall|k: int| 0 <= k < i ==> blinded_amount@[k] == bytes@[48 + k],
            decreases 32 - i,
        {
            blinded_amount[i] = bytes[48 + i];
            i += 1;
        }
        let mut i: usize = 0;
        while i < 96
            invariant
                i <= 96,
                bytes@.len() == 176,
                forall|k: int| 0 <= k < i ==> signature@[k] == bytes@[80 + k],
            decreases 96 - i,
        {
            signature[i] = bytes[80 + i];
            i += 1;
        }
        let input = BlindedInput {
            dbc_id: DbcId { bytes: dbc_id },
            blinded_amount: BlindedAmount { bytes: blinded_amount },
            signature: Signature { bytes: signature },
        };
        assert(input.spec_to_bytes() =~= bytes@);
        Some(input)
    }

    /// The encoding of the input: identity, compressed blinded amount,
    /// signature.
    pub fn to_bytes(&self) -> (r: Vec<u8>)
        ensures
            r@ == self.spec_to_bytes(),
    {
        let mut v: Vec<u8> = Vec::new();
        append(&mut v, self.dbc_id.bytes.as_slice());
        append(&mut v, self.blinded_amount.bytes.as_slice());
        append(&mut v, self.signature.bytes.as_slice());
        v
    }

    /// The identity of the token that this input spends.
    pub fn dbc_id(&self) -> (r: DbcId)
        ensures
            r == self.dbc_id,
    {
        self.dbc_id
    }

    /// Checks that the input carries the blinded amount `blinded_amount`,
    /// and that its signature is one of the input's own key over `msg`.
    pub fn verify(&self, msg: &[u8], blinded_amount: BlindedAmount) -> (r: Result<(), Error>)
        ensures
            r == self.spec_verify(msg@, blinded_amount),
    {
        if !self.blinded_amount.same(&blinded_amount) {
            return Err(Error::InvalidInputBlindedAmount);
        }
        if !self.dbc_id.verify(&self.signature, msg) {
            return Err(Error::InvalidSignature);
        }
        Ok(())
    }
}

} // verus!
