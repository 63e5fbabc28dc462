//! The errors that the library reports.

use crate::keys::DbcId;
use vstd::prelude::*;

verus! {

/// Why a range proof could not be made or was refused.
#[derive(Clone, Copy, Debug, PartialEq, Eq)]
pub enum RangeProofError {
    /// The proof does not verify.
    Verification,
    /// The proof's encoding is malformed.
    Format,
    /// The number of blinding factors differs from the number of values.
    WrongNumBlindingFactors,
    /// The bit size is none of 8, 16, 32 and 64.
    InvalidBitsize,
    /// The aggregation size is no power of two.
    InvalidAggregation,
    /// There are too few generators for the proof.
    InvalidGeneratorsLength,
    /// The prover failed inside.
    Proving,
}

/// An error of the library.
#[derive(Clone, Copy, Debug, PartialEq, Eq)]
pub enum Error {
    /// The hash of the transaction is not the one that the spend names.
    InvalidTransactionHash,
    /// An input carries another blinded amount than the one expected of it.
    InvalidInputBlindedAmount,
    /// An input's signature does not match the transaction.
    InvalidSignature,
    /// The transaction has no input.
    MissingTxInputs,
    /// Two inputs of the transaction have the same identity.
    DbcIdNotUniqueAcrossInputs,
    /// The blinded amounts of the inputs and of the outputs do not add up
    /// to the same.
    InconsistentDbcTransaction,
    /// A blinded amount encodes no group element.
    FailedToDecompressBlindedAmount,
    /// The spentbook knows no blinded amount for this input.
    MissingAmountForDbcId(DbcId),
    /// The input was spent before, in another transaction.
    DbcAlreadySpent,
    /// A spent proof names a transaction that was not supplied.
    MissingSpentTransaction,
    /// No owner is known for an output.
    PublicKeyNotFound,
    /// A range proof could not be made or was refused.
    RangeProof(RangeProofError),
    /// The secret key is not the one that the token is addressed to.
    SecretKeyDoesNotMatchPublicKey,
    /// The token does not carry the secret key of its owner.
    DbcBearerRequired,
    /// There is no spent proof share for this input.
    MissingSpentProofShare(DbcId),
    /// The spent proof shares of this input cannot be combined.
    SpentProofSharesDoNotCombine(DbcId),
    /// The number of spent proofs is not the number of inputs.
    SpentProofInputLenMismatch,
    /// A spent proof is for no input of the transaction, or an input has
    /// not exactly one spent proof.
    SpentProofInputIdMismatch,
    /// The signature of the spent proof of this input does not match.
    InvalidSpentProofSignature(DbcId),
    /// A spent proof is signed by a key that is not known.
    FailedKnownKeyCheck,
}

} // verus!
