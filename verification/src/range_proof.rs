//! Range proofs: zero-knowledge proofs that a committed value lies in
//! `[0, 2^64)`.

use crate::amount::{
    pedersen_commit, ristretto_decodes, BlindedAmount, PedersenGens, RevealedAmount,
};
use crate::error::RangeProofError;
use crate::scalar::{group_order, le_value};
use blsttc::rand::rngs::OsRng;
use bulletproofs::{BulletproofGens, ProofError};
use curve25519_dalek_ng::ristretto::CompressedRistretto;
use curve25519_dalek_ng::scalar::Scalar;
use merlin::Transcript;
use vstd::prelude::*;

verus! {

/// The number of bits of the range that is proved.
pub const RANGE_PROOF_BITS: usize = 64;

/// The number of parties that can produce an aggregated proof.
pub const RANGE_PROOF_PARTIES: usize = 1;

/// The error type of bulletproofs.
#[verifier::external_type_specification]
#[verifier::external_body]
pub struct ExProofError(ProofError);

/// Whether the bytes are the encoding of a range proof: whether
/// `RangeProof::from_bytes` of bulletproofs accepts them.
pub uninterp spec fn range_proof_decodes(proof: Seq<u8>) -> bool;

/// The label under which every proof transcript starts.
pub fn transcript_label() -> (r: &'static str)
    ensures
        r@ == "SN_DBC"@,
{
    "SN_DBC"
}

/// A range proof for one 64-bit value, held as its 672-byte encoding.
#[derive(Clone, Copy, Debug, PartialEq, Eq)]
pub struct RangeProof {
    pub bytes: [u8; 672],
}

impl View for RangeProof {
    type V = Seq<u8>;

    open spec fn view(&self) -> Seq<u8> {
        self.bytes@
    }
}

impl RangeProof {
    /// The proof that holds the given bytes.
    pub fn from_bytes(bytes: [u8; 672]) -> (r: RangeProof)
        ensures
            r.bytes == bytes,
    {
        RangeProof { bytes }
    }

    /// The encoding of the proof.
    pub fn to_bytes(&self) -> (r: [u8; 672])
        ensures
            r@ == self@,
    {
        self.bytes
    }

    /// The proof that holds the bytes `bytes`; `None` where they are not
    /// as many as the encoding of a proof for 64 bits has.
    pub fn from_encoding(bytes: &[u8]) -> (r: Option<RangeProof>)
        ensures
            r is Some == (bytes@.len() == 672),
            r matches Some(proof) ==> proof@ == bytes@,
    {
        if bytes.len() != 672 {
            return None;
        }
        let mut copy = [0u8; 672];
        let mut i: usize = 0;
        while i < 672
            invariant
                i <= 672,
                bytes@.len() == 672,
                forall|k: int| 0 <= k < i ==> copy@[k] == bytes@[k],
            decreases 672 - i,
        {
            copy[i] = bytes[i];
            i += 1;
        }
        assert(copy@ =~= bytes@);
        Some(RangeProof { bytes: copy })
    }

    /// Proves that the value of `amount` lies in `[0, 2^64)`, under the
    /// generators `pc_gens` and a fresh transcript. With the proof comes
    /// the commitment that it is about, which is the blinded form of
    /// `amount`. The proof depends on `rng`, and the prover decides whether
    /// one is made; one that is made is the encoding of a range proof.
    pub fn prove(amount: &RevealedAmount, pc_gens: &PedersenGens, rng: &mut OsRng) -> (r: Result<
        (RangeProof, BlindedAmount),
        RangeProofError,
    >)
        ensures
            r matches Ok((_, commitment)) ==> commitment@ == pc_gens.spec_commit(
                amount.value as nat,
                amount.blinding_factor@,
            ),
            r matches Ok((_, commitment)) ==> (pc_gens.is_default() ==> commitment@
                == amount.spec_blinded_amount()),
            r matches Ok((proof, _)) ==> range_proof_decodes(proof@),
    {
        let blinding = amount.blinding_factor.to_bytes();
        let made = match prove_range(
            &pc_gens.b().bytes,
            &pc_gens.b_blinding().bytes,
            amount.value,
            &blinding,
            transcript_label(),
            RANGE_PROOF_BITS,
            RANGE_PROOF_PARTIES,
            rng,
        ) {
            Some(made) => made,
            None => vstd::pervasive::unreached(),
        };
        match made {
            Ok((proof, commitment)) => match RangeProof::from_encoding(proof.as_slice()) {
                Some(proof) => Ok((proof, BlindedAmount { bytes: commitment })),
                None => vstd::pervasive::unreached(),
            },
            Err(e) => Err(proof_error(e)),
        }
    }

    /// Checks the proof against `commitment`, under the generators
    /// `pc_gens` and a fresh transcript. The check draws a random
    /// challenge, so its outcome is no function of the proof. Whatever is
    /// drawn, a proof is accepted only where it is the encoding of a range
    /// proof and `commitment` is a point.
    pub fn verify(&self, pc_gens: &PedersenGens, commitment: &BlindedAmount) -> (r: Result<
        (),
        RangeProofError,
    >)
        ensures
            r is Ok ==> range_proof_decodes(self@) && ristretto_decodes(commitment@),
    {
        let checked = match verify_range(
            &pc_gens.b().bytes,
            &pc_gens.b_blinding().bytes,
            &self.bytes,
            &commitment.bytes,
            transcript_label(),
            RANGE_PROOF_BITS,
            RANGE_PROOF_PARTIES,
        ) {
            Some(checked) => checked,
            None => vstd::pervasive::unreached(),
        };
        match checked {
            Ok(()) => Ok(()),
            Err(e) => Err(proof_error(e)),
        }
    }
}

/// Tells the variants of bulletproofs' `ProofError` apart.
#[verifier::external_body]
fn proof_error(e: ProofError) -> RangeProofError {
    match e {
        ProofError::VerificationError => RangeProofError::Verification,
        ProofError::FormatError => RangeProofError::Format,
        ProofError::WrongNumBlindingFactors => RangeProofError::WrongNumBlindingFactors,
        ProofError::InvalidBitsize => RangeProofError::InvalidBitsize,
        ProofError::InvalidAggregation => RangeProofError::InvalidAggregation,
        ProofError::InvalidGeneratorsLength => RangeProofError::InvalidGeneratorsLength,
        ProofError::ProvingError(_) => RangeProofError::Proving,
    }
}

/// `RangeProof::prove_single_with_rng` of bulletproofs, under the Pedersen
/// generators that `b` and `b_blinding` encode and a transcript that
/// starts at `label`. There is a result exactly where `b` and `b_blinding`
/// encode points. The proof depends on `rng`. The commitment that comes
/// with it is the Pedersen commitment to `value` under the scalar that
/// `blinding` encodes, a proof for 64 bits is encoded in 672 bytes, and
/// the encoding of a proof is one that `RangeProof::from_bytes` accepts.
#[verifier::external_body]
fn prove_range(
    b: &[u8; 32],
    b_blinding: &[u8; 32],
    value: u64,
    blinding: &[u8; 32],
    label: &'static str,
    bits: usize,
    parties: usize,
    rng: &mut OsRng,
) -> (r: Option<Result<(Vec<u8>, [u8; 32]), ProofError>>)
    requires
        le_value(blinding@) < group_order(),
    ensures
        r is Some == (ristretto_decodes(b@) && ristretto_decodes(b_blinding@)),
        r matches Some(Ok((proof, commitment))) ==> {
            &&& commitment@ == pedersen_commit(b@, b_blinding@, value as nat, le_value(blinding@))
            &&& bits == 64 ==> proof@.len() == 672
            &&& range_proof_decodes(proof@)
        },
{
    let b = CompressedRistretto(*b).decompress()?;
    let b_blinding = CompressedRistretto(*b_blinding).decompress()?;
    let gens = bulletproofs::PedersenGens { B: b, B_blinding: b_blinding };
    let bp_gens = BulletproofGens::new(bits, parties);
    let mut transcript = Transcript::new(label.as_bytes());
    let scalar = Scalar::from_bits(*blinding);
    let made = bulletproofs::RangeProof::prove_single_with_rng(
        &bp_gens, &gens, &mut transcript, value, &scalar, bits, rng,
    );
    Some(made.map(|(proof, commitment)| (proof.to_bytes(), commitment.to_bytes())))
}

/// `RangeProof::from_bytes` and `verify_single` of bulletproofs, under the
/// Pedersen generators that `b` and `b_blinding` encode and a transcript
/// that starts at `label`. There is a result exactly where `b` and
/// `b_blinding` encode points. The check draws a random challenge, so its
/// outcome is not named. Whatever is drawn, it passes only where
/// `from_bytes` accepts the proof and the commitment decompresses.
#[verifier::external_body]
fn verify_range(
    b: &[u8; 32],
    b_blinding: &[u8; 32],
    proof: &[u8; 672],
    commitment: &[u8; 32],
    label: &'static str,
    bits: usize,
    parties: usize,
) -> (r: Option<Result<(), ProofError>>)
    ensures
        r is Some == (ristretto_decodes(b@) && ristretto_decodes(b_blinding@)),
        r matches Some(Ok(())) ==> range_proof_decodes(proof@) && ristretto_decodes(commitment@),
{
    let b = CompressedRistretto(*b).decompress()?;
    let b_blinding = CompressedRistretto(*b_blinding).decompress()?;
    let gens = bulletproofs::PedersenGens { B: b, B_blinding: b_blinding };
    let bp_gens = BulletproofGens::new(bits, parties);
    let mut transcript = Transcript::new(label.as_bytes());
    let point = CompressedRistretto(*commitment);
    let parsed = bulletproofs::RangeProof::from_bytes(proof);
    Some(parsed.and_then(|p| p.verify_single(&bp_gens, &gens, &mut transcript, &point, bits)))
}

} // verus!
