//! The outputs of a transaction: intended, revealed and blinded.

use crate::amount::{Amount, BlindedAmount, RevealedAmount};
use crate::bytes::append;
use crate::keys::DbcId;
use crate::range_proof::RangeProof;
use blsttc::rand::rngs::OsRng;
use vstd::prelude::*;

verus! {

/// An output as it is intended: an amount for an identity.
#[derive(Clone, Copy, Debug, PartialEq, Eq)]
pub struct Output {
    pub dbc_id: DbcId,
    pub amount: Amount,
}

impl Output {
    pub fn new(dbc_id: DbcId, amount: Amount) -> (r: Output)
        ensures
            r.dbc_id == dbc_id,
            r.amount == amount,
    {
        Output { dbc_id, amount }
    }

    /// The identity of the token that the output creates.
    pub fn dbc_id(&self) -> (r: &DbcId)
        ensures
            *r == self.dbc_id,
    {
        &self.dbc_id
    }

    /// The amount of the output under a blinding factor drawn from `rng`.
    pub fn revealed_amount(&self, rng: &mut OsRng) -> (r: RevealedAmount)
        ensures
            r.value == self.amount,
    {
        RevealedAmount::from_amount(self.amount, rng)
    }
}

/// An output with the blinding factor that was assigned to it.
#[derive(Clone, Copy, Debug, PartialEq, Eq)]
pub struct RevealedOutput {
    pub dbc_id: DbcId,
    pub revealed_amount: RevealedAmount,
}

impl RevealedOutput {
    pub fn new(dbc_id: DbcId, revealed_amount: RevealedAmount) -> (r: RevealedOutput)
        ensures
            r.dbc_id == dbc_id,
            r.revealed_amount == revealed_amount,
    {
        RevealedOutput { dbc_id, revealed_amount }
    }

    /// The identity of the token that the output creates.
    pub fn dbc_id(&self) -> (r: &DbcId)
        ensures
            *r == self.dbc_id,
    {
        &self.dbc_id
    }

    /// The revealed amount of the output.
    pub fn revealed_amount(&self) -> (r: &RevealedAmount)
        ensures
            *r == self.revealed_amount,
    {
        &self.revealed_amount
    }
}

/// The public view of an output: the identity of the new token, the proof
/// that its amount is in range, and the commitment to the amount.
#[derive(Clone, Copy, Debug, PartialEq, Eq)]
pub struct BlindedOutput {
    pub dbc_id: DbcId,
    pub range_proof: RangeProof,
    pub blinded_amount: BlindedAmount,
}

impl BlindedOutput {
    /// The encoding of the output: identity, range proof, compressed
    /// blinded amount.
    pub open spec fn spec_to_bytes(self) -> Seq<u8> {
        self.dbc_id@ + self.range_proof@ + self.blinded_amount@
    }

    pub fn new(dbc_id: DbcId, range_proof: RangeProof, blinded_amount: BlindedAmount) -> (r:
        BlindedOutput)
        ensures
            r.dbc_id == dbc_id,
            r.range_proof == range_proof,
            r.blinded_amount == blinded_amount,
    {
        BlindedOutput { dbc_id, range_proof, blinded_amount }
    }

    /// The identity of the token that the output creates.
    pub fn dbc_id(&self) -> (r: &DbcId)
        ensures
            *r == self.dbc_id,
    {
        &self.dbc_id
    }

    /// The proof that the amount is in range.
    pub fn range_proof(&self) -> (r: &RangeProof)
        ensures
            *r == self.range_proof,
    {
        &self.range_proof
    }

    /// The commitment to the amount.
    pub fn blinded_amount(&self) -> (r: BlindedAmount)
        ensures
            r == self.blinded_amount,
    {
        self.blinded_amount
    }

    /// Two outputs with the same encoding are the same output.
    pub proof fn lemma_encoding_is_injective(a: BlindedOutput, b: BlindedOutput)
        requires
            a.spec_to_bytes() == b.spec_to_bytes(),
        ensures
            a == b,
    {
        let x = a.spec_to_bytes();
        let y = b.spec_to_bytes();
        assert(a.dbc_id@ =~= x.subrange(0, 48));
        assert(b.dbc_id@ =~= y.subrange(0, 48));
        assert(a.range_proof@ =~= x.subrange(48, 720));
        assert(b.range_proof@ =~= y.subrange(48, 720));
        assert(a.blinded_amount@ =~= x.subrange(720, 752));
        assert(b.blinded_amount@ =~= y.subrange(720, 752));
        assert(a.dbc_id.bytes == b.dbc_id.bytes);
        assert(a.range_proof.bytes == b.range_proof.bytes);
        assert(a.blinded_amount.bytes == b.blinded_amount.bytes);
    }

    /// Reads an output from its encoding; `None` where the bytes are not
    /// as many as an encoding has.
    pub fn from_bytes(bytes: &[u8]) -> (r: Option<BlindedOutput>)
        ensures
            r is Some == (bytes@.len() == 752),
            r matches Some(output) ==> output.spec_to_bytes() == bytes@,
    {
        if bytes.len() != 752 {
            return None;
        }
        let mut dbc_id = [0u8; 48];
        let mut range_proof = [0u8; 672];
        let mut blinded_amount = [0u8; 32];
        let mut i: usize = 0;
        while i < 48
            invariant
                i <= 48,
                bytes@.len() == 752,
                forall|k: int| 0 <= k < i ==> dbc_id@[k] == bytes@[k],
            decreases 48 - i,
        {
            dbc_id[i] = bytes[i];
            i += 1;
        }
        let mut i: usize = 0;
        while i < 672
            invariant
                i <= 672,
                bytes@.len() == 752,
                forall|k: int| 0 <= k < i ==> range_proof@[k] == bytes@[48 + k],
            decreases 672 - i,
        {
            range_proof[i] = bytes[48 + i];
            i += 1;
        }
        let mut i: usize = 0;
        while i < 32
            invariant
                i <= 32,
                bytes@.len() == 752,
                forall|k: int| 0 <= k < i ==> blinded_amount@[k] == bytes@[720 + k],
            decreases 32 - i,
        {
            blinded_amount[i] = bytes[720 + i];
            i += 1;
        }
        let output = BlindedOutput {
            dbc_id: DbcId { bytes: dbc_id },
            range_proof: RangeProof { bytes: range_proof },
            blinded_amount: BlindedAmount { bytes: blinded_amount },
        };
        assert(output.spec_to_bytes() =~= bytes@);
        Some(output)
    }

    /// The encoding of the output: identity, range proof, compressed
    /// blinded amount.
    pub fn to_bytes(&self) -> (r: Vec<u8>)
        ensures
            r@ == self.spec_to_bytes(),
    {
        let mut v: Vec<u8> = Vec::new();
        append(&mut v, self.dbc_id.bytes.as_slice());
        append(&mut v, self.range_proof.bytes.as_slice());
        append(&mut v, self.blinded_amount.bytes.as_slice());
        v
    }
}

} // verus!
