//! Verification of a transaction together with the spent proofs of its
//! inputs.

use crate::amount::BlindedAmount;
use crate::error::{Error, RangeProofError};
use crate::keys::DbcId;
use crate::spent_proof::{SpentProof, SpentProofKeyVerifier};
use crate::transaction::input::BlindedInput;
use crate::transaction::{DbcTransaction, TransactionView};
use vstd::prelude::*;

verus! {

/// The number of proofs among `proofs` that are about the token `id`.
pub open spec fn proofs_for(proofs: Seq<SpentProof>, id: DbcId) -> nat
    decreases proofs.len(),
{
    if proofs.len() == 0 {
        0
    } else {
        proofs_for(proofs.drop_last(), id) + if proofs.last().content.dbc_id == id {
            1nat
        } else {
            0nat
        }
    }
}

/// The blinded amount that the last proof about the token `id` among
/// `proofs` names.
pub open spec fn amount_in(proofs: Seq<SpentProof>, id: DbcId) -> Option<BlindedAmount>
    decreases proofs.len(),
{
    if proofs.len() == 0 {
        None
    } else if proofs.last().content.dbc_id == id {
        Some(proofs.last().content.blinded_amount)
    } else {
        amount_in(proofs.drop_last(), id)
    }
}

/// Whether each of `inputs` has exactly one proof among `proofs`.
pub open spec fn each_input_has_one_proof(
    inputs: Seq<BlindedInput>,
    proofs: Seq<SpentProof>,
) -> bool {
    forall|i: int| 0 <= i < inputs.len() ==> proofs_for(proofs, (#[trigger] inputs[i]).dbc_id) == 1
}

/// The blinded amounts that `proofs` name for `inputs`, in the order of
/// the inputs.
pub open spec fn amounts_from(inputs: Seq<BlindedInput>, proofs: Seq<SpentProof>) -> Seq<
    BlindedAmount,
> {
    Seq::new(inputs.len(), |i: int| amount_in(proofs, inputs[i].dbc_id)->0)
}

/// The first error among `proofs`, each checked against the transaction
/// hash `tx_hash` and the keys that `verifier` knows, in order.
pub open spec fn proofs_check<K: SpentProofKeyVerifier>(
    verifier: &K,
    proofs: Seq<SpentProof>,
    tx_hash: Seq<u8>,
) -> Result<(), Error>
    decreases proofs.len(),
{
    if proofs.len() == 0 {
        Ok(())
    } else {
        match proofs[0].spec_verify(tx_hash, verifier.is_known(proofs[0].spentbook_pub_key)) {
            Err(e) => Err(e),
            Ok(()) => proofs_check(verifier, proofs.drop_first(), tx_hash),
        }
    }
}

/// What the verification of `tx` with `proofs` returns, given what the
/// check of the range proofs returned. The checks come in this order:
/// there are as many proofs as inputs; each input has exactly one proof;
/// each proof is about `tx`, signed by its key, and its key is known to
/// `verifier`; `tx` verifies against the blinded amounts that the proofs
/// name for its inputs.
pub open spec fn verification<K: SpentProofKeyVerifier>(
    verifier: &K,
    tx: TransactionView,
    proofs: Seq<SpentProof>,
    range_proofs: Result<(), RangeProofError>,
) -> Result<(), Error> {
    if proofs.len() != tx.inputs.len() {
        Err(Error::SpentProofInputLenMismatch)
    } else if !each_input_has_one_proof(tx.inputs, proofs) {
        Err(Error::SpentProofInputIdMismatch)
    } else {
        match proofs_check(verifier, proofs, tx.hash()) {
            Err(e) => Err(e),
            Ok(()) => tx.verify(amounts_from(tx.inputs, proofs), range_proofs),
        }
    }
}

/// The verifier of transactions with their spent proofs.
#[derive(Clone, Copy, Debug)]
pub struct TransactionVerifier {}

impl TransactionVerifier {
    /// The blinded amount that `proofs` name for the token `id`, where
    /// exactly one proof is about it.
    fn amount_of(proofs: &[SpentProof], id: &DbcId) -> (r: Option<BlindedAmount>)
        ensures
            r is Some == (proofs_for(proofs@, *id) == 1),
            r matches Some(amount) ==> amount_in(proofs@, *id) == Some(amount),
    {
        let mut count: usize = 0;
        let mut found: Option<BlindedAmount> = None;
        let mut j: usize = 0;
        assert(proofs@.subrange(0, 0) =~= Seq::<SpentProof>::empty());
        while j < proofs.len()
            invariant
                j <= proofs@.len(),
                count == proofs_for(proofs@.subrange(0, j as int), *id),
                count <= j,
                found == amount_in(proofs@.subrange(0, j as int), *id),
            decreases proofs@.len() - j,
        {
            let ghost next = proofs@.subrange(0, j + 1);
            assert(next.drop_last() =~= proofs@.subrange(0, j as int));
            assert(next.last() == proofs@[j as int]);
            if proofs[j].content.dbc_id.same(id) {
                count += 1;
                found = Some(proofs[j].content.blinded_amount);
            }
            j += 1;
        }
        assert(proofs@.subrange(0, proofs@.len() as int) =~= proofs@);
        if count == 1 {
            proof {
                lemma_counted_is_found(proofs@, *id);
            }
            found
        } else {
            None
        }
    }

    /// The blinded amounts that `proofs` name for `inputs`, where each
    /// input has exactly one proof.
    fn amounts_of(inputs: &[BlindedInput], proofs: &[SpentProof]) -> (r: Option<
        Vec<BlindedAmount>,
    >)
        ensures
            r is Some == each_input_has_one_proof(inputs@, proofs@),
            r matches Some(amounts) ==> amounts@ == amounts_from(inputs@, proofs@),
    {
        let mut amounts: Vec<BlindedAmount> = Vec::new();
        let mut i: usize = 0;
        while i < inputs.len()
            invariant
                i <= inputs@.len(),
                amounts@.len() == i,
                forall|k: int|
                    0 <= k < i ==> proofs_for(proofs@, (#[trigger] inputs@[k]).dbc_id) == 1,
                forall|k: int|
                    0 <= k < i ==> amount_in(proofs@, inputs@[k].dbc_id) == Some(
                        #[trigger] amounts@[k],
                    ),
            decreases inputs@.len() - i,
        {
            match Self::amount_of(proofs, &inputs[i].dbc_id) {
                Some(amount) => {
                    amounts.push(amount);
                },
                None => {
                    return None;
                },
            }
            i += 1;
        }
        assert(amounts@ =~= amounts_from(inputs@, proofs@));
        Some(amounts)
    }

    /// Checks each of `proofs` against the transaction hash `tx_hash` and
    /// the keys that `verifier` knows.
    fn verify_proofs<K: SpentProofKeyVerifier>(
        verifier: &K,
        proofs: &[SpentProof],
        tx_hash: crate::hash::Hash,
    ) -> (r: Result<(), Error>)
        ensures
            r == proofs_check(verifier, proofs@, tx_hash@),
    {
        let mut i: usize = 0;
        assert(proofs@.skip(0) =~= proofs@);
        while i < proofs.len()
            invariant
                i <= proofs@.len(),
                proofs_check(verifier, proofs@, tx_hash@) == proofs_check(
                    verifier,
                    proofs@.skip(i as int),
                    tx_hash@,
                ),
            decreases proofs@.len() - i,
        {
            let ghost rest = proofs@.skip(i as int);
            assert(rest[0] == proofs@[i as int]);
            assert(rest.drop_first() =~= proofs@.skip(i + 1));
            match proofs[i].verify(tx_hash, verifier) {
                Err(e) => {
                    return Err(e);
                },
                Ok(()) => {},
            }
            i += 1;
        }
        Ok(())
    }

    /// Verification, given what the check of the range proofs returned.
    pub fn verify_with_range_proofs<K: SpentProofKeyVerifier>(
        verifier: &K,
        transaction: &DbcTransaction,
        spent_proofs: &[SpentProof],
        range_proofs: Result<(), RangeProofError>,
    ) -> (r: Result<(), Error>)
        ensures
            r == verification(verifier, transaction@, spent_proofs@, range_proofs),
    {
        if spent_proofs.len() != transaction.inputs.len() {
            return Err(Error::SpentProofInputLenMismatch);
        }
        let amounts = match Self::amounts_of(transaction.inputs.as_slice(), spent_proofs) {
            Some(amounts) => amounts,
            None => {
                return Err(Error::SpentProofInputIdMismatch);
            },
        };
        match Self::verify_proofs(verifier, spent_proofs, transaction.hash()) {
            Err(e) => {
                return Err(e);
            },
            Ok(()) => {},
        }
        transaction.verify_with_range_proofs(amounts.as_slice(), range_proofs)
    }

    /// Verifies the transaction with the spent proofs of its inputs: each
    /// input has exactly one proof, each proof is about this transaction
    /// and signed by a key that `verifier` knows, and the transaction
    /// verifies against the blinded amounts that the proofs name.
    ///
    /// The check of a range proof draws a random challenge, so its outcome
    /// is not a function of the transaction; the result is what
    /// [`verification`] gives for some outcome of that check.
    pub fn verify<K: SpentProofKeyVerifier>(
        verifier: &K,
        transaction: &DbcTransaction,
        spent_proofs: &[SpentProof],
    ) -> (r: Result<(), Error>)
        ensures
            exists|range_proofs: Result<(), RangeProofError>|
                {
                    &&& r == #[trigger] verification(
                        verifier,
                        transaction@,
                        spent_proofs@,
                        range_proofs,
                    )
                    &&& transaction.outputs@.len() == 0 ==> range_proofs is Ok
                },
    {
        let ghost pass: Result<(), RangeProofError> = Ok(());
        if spent_proofs.len() != transaction.inputs.len() {
            assert(verification(verifier, transaction@, spent_proofs@, pass) is Err);
            return Err(Error::SpentProofInputLenMismatch);
        }
        let amounts = match Self::amounts_of(transaction.inputs.as_slice(), spent_proofs) {
            Some(amounts) => amounts,
            None => {
                assert(verification(verifier, transaction@, spent_proofs@, pass) is Err);
                return Err(Error::SpentProofInputIdMismatch);
            },
        };
        match Self::verify_proofs(verifier, spent_proofs, transaction.hash()) {
            Err(e) => {
                assert(verification(verifier, transaction@, spent_proofs@, pass) is Err);
                return Err(e);
            },
            Ok(()) => {},
        }
        let r = transaction.verify(amounts.as_slice());
        proof {
            let range_proofs = choose|range_proofs: Result<(), RangeProofError>|
                {
                    &&& r == #[trigger] transaction@.verify(amounts@, range_proofs)
                    &&& transaction.outputs@.len() == 0 ==> range_proofs is Ok
                };
            assert(r == verification(verifier, transaction@, spent_proofs@, range_proofs));
        }
        r
    }
}

/// Where a proof is about a token, the proofs name an amount for it.
pub proof fn lemma_counted_is_found(proofs: Seq<SpentProof>, id: DbcId)
    requires
        proofs_for(proofs, id) > 0,
    ensures
        amount_in(proofs, id) is Some,
    decreases proofs.len(),
{
    if proofs.len() > 0 && proofs.last().content.dbc_id != id {
        lemma_counted_is_found(proofs.drop_last(), id);
    }
}

} // verus!
