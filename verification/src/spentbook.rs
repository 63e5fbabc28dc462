//! The spentbook of one verifier: the append-only record of the inputs that
//! were spent, and in which transaction.

use crate::amount::BlindedAmount;
use crate::error::{Error, RangeProofError};
use crate::bytes::lex_less;
use crate::keymap::{has_key, place_of, sorted_insert, KeyMap};
use crate::keys::{DbcId, PublicAddress, Signature};
use crate::transaction::input::BlindedInput;
use crate::transaction::output::BlindedOutput;
use crate::transaction::{DbcTransaction, TransactionView};
use vstd::prelude::*;

verus! {

/// The statement of a holder that a token is spent in a transaction.
#[derive(Clone, Copy, Debug, PartialEq, Eq)]
pub struct SignedSpend {
    pub dbc_id: DbcId,
    pub spent_tx_hash: crate::hash::Hash,
    pub derived_key_sig: Signature,
}

impl SignedSpend {
    /// The identity of the token that is spent.
    pub fn dbc_id(&self) -> (r: &DbcId)
        ensures
            *r == self.dbc_id,
    {
        &self.dbc_id
    }

    /// The hash of the transaction in which the token is spent.
    pub fn spent_tx_hash(&self) -> (r: crate::hash::Hash)
        ensures
            r == self.spent_tx_hash,
    {
        self.spent_tx_hash
    }
}

/// What a spentbook holds.
pub struct SpentbookView {
    /// The transactions that were logged, by their hash.
    pub transactions: Map<crate::hash::Hash, TransactionView>,
    /// The inputs that are spent, each with the hash of the transaction
    /// that spent it.
    pub dbc_ids: Map<DbcId, crate::hash::Hash>,
    /// The outputs of the logged transactions, by the identity of the
    /// token that each created.
    pub outputs_by_input_id: Map<DbcId, BlindedOutput>,
    /// The one token that no logged transaction created, and its blinded
    /// amount.
    pub genesis: (DbcId, BlindedAmount),
}

/// The map `outputs_by_id` with each of `outputs` registered under its
/// identity, in order; an identity that has an output keeps it.
pub open spec fn register_outputs(
    outputs_by_id: Map<DbcId, BlindedOutput>,
    outputs: Seq<BlindedOutput>,
) -> Map<DbcId, BlindedOutput>
    decreases outputs.len(),
{
    if outputs.len() == 0 {
        outputs_by_id
    } else {
        let before = register_outputs(outputs_by_id, outputs.drop_last());
        if before.contains_key(outputs.last().dbc_id) {
            before
        } else {
            before.insert(outputs.last().dbc_id, outputs.last())
        }
    }
}

impl SpentbookView {
    /// Whether the token `dbc_id` is spent.
    pub open spec fn is_spent(self, dbc_id: DbcId) -> bool {
        self.dbc_ids.contains_key(dbc_id)
    }

    /// Whether every transaction that an input is marked as spent in is
    /// kept, and every transaction that is kept is kept under its own
    /// hash.
    pub open spec fn consistent(self) -> bool {
        &&& forall|id: DbcId| #[trigger]
            self.dbc_ids.contains_key(id) ==> self.transactions.contains_key(self.dbc_ids[id])
        &&& forall|h: crate::hash::Hash| #[trigger]
            self.transactions.contains_key(h) ==> self.transactions[h].hash() == h@
    }

    /// The blinded amount that the spentbook knows for the token
    /// `dbc_id`: that of the genesis, or that of the output which created
    /// the token.
    pub open spec fn amount_of(self, dbc_id: DbcId) -> Option<BlindedAmount> {
        if dbc_id == self.genesis.0 {
            Some(self.genesis.1)
        } else if self.outputs_by_input_id.contains_key(dbc_id) {
            Some(self.outputs_by_input_id[dbc_id].blinded_amount)
        } else {
            None
        }
    }

    /// The blinded amounts that the spentbook knows for `inputs`, in
    /// their order, or the error for the first input of which it knows
    /// none.
    pub open spec fn amounts_for(self, inputs: Seq<BlindedInput>) -> Result<
        Seq<BlindedAmount>,
        Error,
    >
        decreases inputs.len(),
    {
        if inputs.len() == 0 {
            Ok(Seq::empty())
        } else {
            match self.amounts_for(inputs.drop_last()) {
                Err(e) => Err(e),
                Ok(amounts) => match self.amount_of(inputs.last().dbc_id) {
                    Some(amount) => Ok(amounts.push(amount)),
                    None => Err(Error::MissingAmountForDbcId(inputs.last().dbc_id)),
                },
            }
        }
    }

    /// The spentbook after the spend of `spend.dbc_id` in `tx` is
    /// recorded: the input is marked as spent in `tx`, `tx` is kept under
    /// its hash unless a transaction is kept there, and the outputs of
    /// the transaction kept there are registered.
    pub open spec fn record(self, tx: TransactionView, spend: SignedSpend) -> SpentbookView {
        let tx_hash = spend.spent_tx_hash;
        let kept = if self.transactions.contains_key(tx_hash) {
            self.transactions[tx_hash]
        } else {
            tx
        };
        SpentbookView {
            transactions: if self.transactions.contains_key(tx_hash) {
                self.transactions
            } else {
                self.transactions.insert(tx_hash, tx)
            },
            dbc_ids: if self.dbc_ids.contains_key(spend.dbc_id) {
                self.dbc_ids
            } else {
                self.dbc_ids.insert(spend.dbc_id, tx_hash)
            },
            outputs_by_input_id: register_outputs(self.outputs_by_input_id, kept.outputs),
            genesis: self.genesis,
        }
    }

    /// What logging the spend of `spend.dbc_id` in `tx` returns and where
    /// it leaves the spentbook, given what the verification of `tx`
    /// returned. The checks come in this order: the hash that the spend
    /// names is the hash of `tx`; the spentbook knows a blinded amount for
    /// each input of `tx`; the verification passed; the input is not
    /// spent in another transaction. An error leaves the spentbook as it
    /// was.
    pub open spec fn log_spent(
        self,
        tx: TransactionView,
        spend: SignedSpend,
        verification: Result<(), Error>,
    ) -> (Result<(), Error>, SpentbookView) {
        if tx.hash() != spend.spent_tx_hash@ {
            (Err(Error::InvalidTransactionHash), self)
        } else {
            match self.amounts_for(tx.inputs) {
                Err(e) => (Err(e), self),
                Ok(_) => match verification {
                    Err(e) => (Err(e), self),
                    Ok(()) => if self.dbc_ids.contains_key(spend.dbc_id)
                        && self.dbc_ids[spend.dbc_id] != spend.spent_tx_hash {
                        (Err(Error::DbcAlreadySpent), self)
                    } else {
                        (Ok(()), self.record(tx, spend))
                    },
                },
            }
        }
    }

    /// What the verification of `tx` against the blinded amounts that the
    /// spentbook knows for its inputs returns, given what the check of the
    /// range proofs returned.
    pub open spec fn verification(
        self,
        tx: TransactionView,
        range_proofs: Result<(), RangeProofError>,
    ) -> Result<(), Error> {
        match self.amounts_for(tx.inputs) {
            Ok(amounts) => tx.verify(amounts, range_proofs),
            Err(e) => Err(e),
        }
    }
}

/// The views of the transactions of `transactions`.
pub open spec fn views_of(transactions: Map<crate::hash::Hash, DbcTransaction>) -> Map<
    crate::hash::Hash,
    TransactionView,
> {
    Map::new(
        |h: crate::hash::Hash| transactions.contains_key(h),
        |h: crate::hash::Hash| transactions[h]@,
    )
}

/// The spentbook of one verifier. Every transaction that an input is
/// marked as spent in is kept, and every transaction that is kept is kept
/// under its own hash.
#[derive(Debug)]
pub struct SpentbookNode {
    id: PublicAddress,
    transactions: KeyMap<crate::hash::Hash, DbcTransaction>,
    dbc_ids: KeyMap<DbcId, crate::hash::Hash>,
    outputs_by_input_id: KeyMap<DbcId, BlindedOutput>,
    genesis: (DbcId, BlindedAmount),
}

impl View for SpentbookNode {
    type V = SpentbookView;

    closed spec fn view(&self) -> SpentbookView {
        SpentbookView {
            transactions: views_of(self.transactions@),
            dbc_ids: self.dbc_ids@,
            outputs_by_input_id: self.outputs_by_input_id@,
            genesis: self.genesis,
        }
    }
}

impl Clone for SpentbookNode {
    fn clone(&self) -> (r: SpentbookNode)
        ensures
            r@ == self@,
            r.spent_order() == self.spent_order(),
            r.spec_id() == self.spec_id(),
    {
        proof {
            use_type_invariant(self);
        }
        let transactions = self.transactions.clone();
        let dbc_ids = self.dbc_ids.clone();
        let outputs_by_input_id = self.outputs_by_input_id.clone();
        proof {
            assert(dbc_ids.entries() =~= self.dbc_ids.entries());
            assert(dbc_ids@ =~= self.dbc_ids@);
            assert(outputs_by_input_id@ =~= self.outputs_by_input_id@);
            assert(views_of(transactions@) =~= views_of(self.transactions@));
        }
        SpentbookNode {
            id: self.id,
            transactions,
            dbc_ids,
            outputs_by_input_id,
            genesis: self.genesis,
        }
    }
}

impl SpentbookNode {
    #[verifier::type_invariant]
    spec fn consistent(self) -> bool {
        &&& forall|id: DbcId| #[trigger]
            self.dbc_ids@.contains_key(id) ==> self.transactions@.contains_key(self.dbc_ids@[id])
        &&& forall|h: crate::hash::Hash| #[trigger]
            self.transactions@.contains_key(h) ==> self.transactions@[h]@.hash() == h@
    }

    /// The spent inputs, each with the hash of the transaction that spent
    /// it, in ascending order of the bytes of their identities.
    pub closed spec fn spent_order(self) -> Seq<(DbcId, crate::hash::Hash)> {
        self.dbc_ids.entries()
    }

    /// The spent inputs after a spend was logged with the result `r`: a
    /// newly spent input is put where the identities stay in ascending
    /// order; an error, or the replay of a spend, leaves them as they are.
    pub open spec fn spent_order_after(self, r: Result<(), Error>, spend: SignedSpend) -> Seq<
        (DbcId, crate::hash::Hash),
    > {
        if r is Ok {
            sorted_insert(self.spent_order(), spend.dbc_id, spend.spent_tx_hash)
        } else {
            self.spent_order()
        }
    }

    /// The key that names the verifier.
    pub closed spec fn spec_id(self) -> PublicAddress {
        self.id
    }

    /// An empty spentbook of the verifier `id`, with the genesis token
    /// `genesis_id` of the blinded amount `genesis_amount`.
    pub fn new(id: PublicAddress, genesis_id: DbcId, genesis_amount: BlindedAmount) -> (r:
        SpentbookNode)
        ensures
            r@.transactions == Map::<crate::hash::Hash, TransactionView>::empty(),
            r@.dbc_ids == Map::<DbcId, crate::hash::Hash>::empty(),
            r@.outputs_by_input_id == Map::<DbcId, BlindedOutput>::empty(),
            r@.genesis == (genesis_id, genesis_amount),
            r.spent_order().len() == 0,
            r.spec_id() == id,
    {
        let r = SpentbookNode {
            id,
            transactions: KeyMap::new(),
            dbc_ids: KeyMap::new(),
            outputs_by_input_id: KeyMap::new(),
            genesis: (genesis_id, genesis_amount),
        };
        assert(r@.transactions =~= Map::<crate::hash::Hash, TransactionView>::empty());
        r
    }

    /// The key that names the verifier.
    pub fn id(&self) -> (r: PublicAddress)
        ensures
            r == self.spec_id(),
    {
        self.id
    }

    /// The genesis token and its blinded amount.
    pub fn genesis(&self) -> (r: (DbcId, BlindedAmount))
        ensures
            r == self@.genesis,
    {
        self.genesis
    }

    /// Whether the token `dbc_id` is spent.
    pub fn is_spent(&self, dbc_id: &DbcId) -> (r: bool)
        ensures
            r == self@.is_spent(*dbc_id),
    {
        self.dbc_ids.contains_key(dbc_id)
    }

    /// The hash of the transaction in which the token `dbc_id` was spent.
    pub fn spent_in(&self, dbc_id: &DbcId) -> (r: Option<crate::hash::Hash>)
        ensures
            r is Some == self@.is_spent(*dbc_id),
            r matches Some(h) ==> h == self@.dbc_ids[*dbc_id],
    {
        match self.dbc_ids.get(dbc_id) {
            Some(h) => Some(*h),
            None => None,
        }
    }

    /// The transaction that is kept under `hash`.
    pub fn transaction(&self, hash: &crate::hash::Hash) -> (r: Option<DbcTransaction>)
        ensures
            r is Some == self@.transactions.contains_key(*hash),
            r matches Some(tx) ==> tx@ == self@.transactions[*hash],
    {
        match self.transactions.get(hash) {
            Some(tx) => Some(tx.clone()),
            None => None,
        }
    }

    /// The output that created the token `dbc_id`.
    pub fn output_of(&self, dbc_id: &DbcId) -> (r: Option<BlindedOutput>)
        ensures
            r is Some == self@.outputs_by_input_id.contains_key(*dbc_id),
            r matches Some(o) ==> o == self@.outputs_by_input_id[*dbc_id],
    {
        match self.outputs_by_input_id.get(dbc_id) {
            Some(o) => Some(*o),
            None => None,
        }
    }

    /// The spent inputs, each once, each with the transaction that spent
    /// it, in ascending order of the bytes of their identities.
    pub fn iter(&self) -> (r: Vec<(DbcId, DbcTransaction)>)
        ensures
            self@.consistent(),
            forall|i: int, j: int|
                0 <= i < j < r@.len() ==> lex_less((#[trigger] r@[i]).0@, (#[trigger] r@[j]).0@),
            forall|i: int|
                0 <= i < r@.len() ==> {
                    &&& self@.is_spent((#[trigger] r@[i]).0)
                    &&& self@.transactions.contains_key(self@.dbc_ids[r@[i].0])
                    &&& r@[i].1@ == self@.transactions[self@.dbc_ids[r@[i].0]]
                },
            forall|id: DbcId|
                self@.is_spent(id) ==> exists|i: int|
                    0 <= i < r@.len() && (#[trigger] r@[i]).0 == id,
            r@.len() == self.spent_order().len(),
            forall|i: int|
                0 <= i < r@.len() ==> (#[trigger] r@[i]).0 == self.spent_order()[i].0
                    && self@.dbc_ids[r@[i].0] == self.spent_order()[i].1,
    {
        proof {
            use_type_invariant(self);
        }
        let mut pairs: Vec<(DbcId, DbcTransaction)> = Vec::new();
        let mut i: usize = 0;
        while i < self.dbc_ids.len()
            invariant
                i <= self.dbc_ids.entries().len(),
                self.consistent(),
                pairs@.len() == i,
                forall|k: int|
                    0 <= k < i ==> {
                        &&& (#[trigger] pairs@[k]).0 == self.spent_order()[k].0
                        &&& self@.dbc_ids.contains_key(pairs@[k].0)
                        &&& self@.dbc_ids[pairs@[k].0] == self.spent_order()[k].1
                        &&& self@.transactions.contains_key(self.spent_order()[k].1)
                        &&& pairs@[k].1@ == self@.transactions[self.spent_order()[k].1]
                    },
                i > 0 ==> crate::keymap::ascending(self.dbc_ids.entries())
                    && crate::keymap::map_of(self.dbc_ids.entries()) == self.dbc_ids@,
            decreases self.dbc_ids.entries().len() - i,
        {
            let (id, hash) = self.dbc_ids.entry(i);
            match self.transactions.get(hash) {
                Some(tx) => {
                    pairs.push((*id, tx.clone()));
                },
                None => {
                    vstd::pervasive::unreached::<()>();
                },
            }
            i += 1;
        }
        proof {
            if pairs@.len() == 0 {
                self.dbc_ids.lemma_no_entries_no_keys();
            }
            assert forall|id: DbcId| self@.is_spent(id) implies exists|k: int|
                0 <= k < pairs@.len() && (#[trigger] pairs@[k]).0 == id by {
                assert(has_key(self.dbc_ids.entries(), id));
                let k = place_of(self.dbc_ids.entries(), id);
                assert(pairs@[k].0 == id);
            }
        }
        pairs
    }

    /// The blinded amounts that the spentbook knows for `inputs`.
    fn amounts_for(&self, inputs: &[BlindedInput]) -> (r: Result<Vec<BlindedAmount>, Error>)
        ensures
            r matches Ok(amounts) ==> self@.amounts_for(inputs@) == Ok::<Seq<BlindedAmount>, Error>(
                amounts@,
            ),
            r matches Err(e) ==> self@.amounts_for(inputs@) == Err::<Seq<BlindedAmount>, Error>(e),
    {
        let mut amounts: Vec<BlindedAmount> = Vec::new();
        let mut i: usize = 0;
        assert(inputs@.subrange(0, 0) =~= Seq::<BlindedInput>::empty());
        while i < inputs.len()
            invariant
                i <= inputs@.len(),
                self@.amounts_for(inputs@.subrange(0, i as int)) == Ok::<Seq<BlindedAmount>, Error>(
                    amounts@,
                ),
            decreases inputs@.len() - i,
        {
            let ghost next = inputs@.subrange(0, i + 1);
            assert(next.drop_last() =~= inputs@.subrange(0, i as int));
            assert(next.last() == inputs@[i as int]);
            let id = inputs[i].dbc_id;
            if id.same(&self.genesis.0) {
                amounts.push(self.genesis.1);
            } else {
                match self.outputs_by_input_id.get(&id) {
                    Some(output) => {
                        amounts.push(output.blinded_amount);
                    },
                    None => {
                        proof {
                            lemma_amounts_missing(self@, inputs@, i + 1);
                        }
                        return Err(Error::MissingAmountForDbcId(id));
                    },
                }
            }
            i += 1;
        }
        assert(inputs@.subrange(0, inputs@.len() as int) =~= inputs@);
        Ok(amounts)
    }

    /// Logs the spend of the token `signed_spend.dbc_id` in `tx`, once
    /// `tx` verifies against the blinded amounts that the spentbook knows
    /// for its inputs.
    ///
    /// The check of a range proof draws a random challenge, so the outcome
    /// of the verification is not a function of `tx`; the result and the
    /// spentbook afterwards are what [`SpentbookView::log_spent`] gives
    /// for some outcome of that check.
    pub fn log_spent(&mut self, tx: &DbcTransaction, signed_spend: &SignedSpend) -> (r: Result<
        (),
        Error,
    >)
        ensures
            exists|range_proofs: Result<(), RangeProofError>|
                {
                    &&& (r, final(self)@) == old(self)@.log_spent(
                        tx@,
                        *signed_spend,
                        #[trigger] old(self)@.verification(tx@, range_proofs),
                    )
                    &&& tx.outputs@.len() == 0 ==> range_proofs is Ok
                },
            final(self).spec_id() == old(self).spec_id(),
            final(self).spent_order() == old(self).spent_order_after(r, *signed_spend),
    {
        self.log_spent_worker(tx, signed_spend, true)
    }

    /// Logs the spend of the token `signed_spend.dbc_id` in `tx` without
    /// verifying `tx`: for the tests that need an invalid transaction in
    /// a spentbook.
    pub fn log_spent_and_skip_tx_verification(
        &mut self,
        spent_tx: &DbcTransaction,
        signed_spend: &SignedSpend,
    ) -> (r: Result<(), Error>)
        ensures
            (r, final(self)@) == old(self)@.log_spent(spent_tx@, *signed_spend, Ok(())),
            final(self).spec_id() == old(self).spec_id(),
            final(self).spent_order() == old(self).spent_order_after(r, *signed_spend),
    {
        self.log_spent_worker(spent_tx, signed_spend, false)
    }

    fn log_spent_worker(
        &mut self,
        spent_tx: &DbcTransaction,
        signed_spend: &SignedSpend,
        verify_tx: bool,
    ) -> (r: Result<(), Error>)
        ensures
            final(self).spec_id() == old(self).spec_id(),
            final(self).spent_order() == old(self).spent_order_after(r, *signed_spend),
            !verify_tx ==> (r, final(self)@) == old(self)@.log_spent(
                spent_tx@,
                *signed_spend,
                Ok(()),
            ),
            verify_tx ==> exists|range_proofs: Result<(), RangeProofError>|
                {
                    &&& (r, final(self)@) == old(self)@.log_spent(
                        spent_tx@,
                        *signed_spend,
                        #[trigger] old(self)@.verification(spent_tx@, range_proofs),
                    )
                    &&& spent_tx.outputs@.len() == 0 ==> range_proofs is Ok
                },
    {
        let input_id = signed_spend.dbc_id;
        let spent_tx_hash = signed_spend.spent_tx_hash;
        let tx_hash = spent_tx.hash();
        let ghost pass: Result<(), RangeProofError> = Ok(());
        if !tx_hash.same(&spent_tx_hash) {
            assert(self@.log_spent(spent_tx@, *signed_spend, Ok(())).0 is Err);
            assert(self@.log_spent(spent_tx@, *signed_spend, Ok(())) == self@.log_spent(
                spent_tx@,
                *signed_spend,
                self@.verification(spent_tx@, pass),
            ));
            return Err(Error::InvalidTransactionHash);
        }
        let tx_blinded_amounts = match self.amounts_for(spent_tx.inputs.as_slice()) {
            Ok(amounts) => amounts,
            Err(e) => {
                assert(self@.log_spent(spent_tx@, *signed_spend, Ok(())) == self@.log_spent(
                    spent_tx@,
                    *signed_spend,
                    self@.verification(spent_tx@, pass),
                ));
                return Err(e);
            },
        };
        let ghost mut range_proofs: Result<(), RangeProofError> = Ok(());
        let ghost mut verdict: Result<(), Error> = Ok(());
        if verify_tx {
            let verified = spent_tx.verify(tx_blinded_amounts.as_slice());
            proof {
                range_proofs = choose|range_proofs: Result<(), RangeProofError>|
                    {
                        &&& verified == #[trigger] spent_tx@.verify(
                            tx_blinded_amounts@,
                            range_proofs,
                        )
                        &&& spent_tx.outputs@.len() == 0 ==> range_proofs is Ok
                    };
                verdict = self@.verification(spent_tx@, range_proofs);
            }
            match verified {
                Err(e) => {
                    assert(verdict == Err::<(), Error>(e));
                    return Err(e);
                },
                Ok(()) => {},
            }
        }
        assert(verdict == Ok::<(), Error>(()));
        assert(verify_tx ==> verdict == self@.verification(spent_tx@, range_proofs));
        match self.dbc_ids.get(&input_id) {
            Some(existing_tx_hash) => {
                if !existing_tx_hash.same(&tx_hash) {
                    assert((Err::<(), Error>(Error::DbcAlreadySpent), self@) == self@.log_spent(
                        spent_tx@,
                        *signed_spend,
                        verdict,
                    ));
                    return Err(Error::DbcAlreadySpent);
                }
            },
            None => {},
        }
        let ghost before = self@;
        proof {
            use_type_invariant(&*self);
        }
        let mut taken = SpentbookNode::new(self.id, self.genesis.0, self.genesis.1);
        core::mem::swap(self, &mut taken);
        let SpentbookNode { id, mut transactions, mut dbc_ids, mut outputs_by_input_id, genesis } =
            taken;
        let ghost transactions_before = transactions@;
        let ghost dbc_ids_before = dbc_ids@;
        dbc_ids.insert_if_absent(input_id, tx_hash);
        transactions.insert_if_absent(tx_hash, spent_tx.clone());
        match transactions.get(&tx_hash) {
            Some(existing_tx) => {
                let ghost outputs_before = outputs_by_input_id@;
                let mut j: usize = 0;
                assert(existing_tx.outputs@.subrange(0, 0) =~= Seq::<BlindedOutput>::empty());
                while j < existing_tx.outputs.len()
                    invariant
                        j <= existing_tx.outputs@.len(),
                        outputs_by_input_id@ == register_outputs(
                            outputs_before,
                            existing_tx.outputs@.subrange(0, j as int),
                        ),
                    decreases existing_tx.outputs@.len() - j,
                {
                    let ghost next = existing_tx.outputs@.subrange(0, j + 1);
                    assert(next.drop_last() =~= existing_tx.outputs@.subrange(0, j as int));
                    assert(next.last() == existing_tx.outputs@[j as int]);
                    let output = existing_tx.outputs[j];
                    outputs_by_input_id.insert_if_absent(output.dbc_id, output);
                    j += 1;
                }
                assert(existing_tx.outputs@.subrange(0, existing_tx.outputs@.len() as int)
                    =~= existing_tx.outputs@);
            },
            None => {
                vstd::pervasive::unreached::<()>();
            },
        }
        proof {
            assert forall|id: DbcId| #[trigger]
                dbc_ids@.contains_key(id) implies transactions@.contains_key(dbc_ids@[id]) by {
                if dbc_ids_before.contains_key(id) {
                    assert(transactions_before.contains_key(dbc_ids_before[id]));
                }
            }
        }
        *self = SpentbookNode { id, transactions, dbc_ids, outputs_by_input_id, genesis };
        proof {
            let after = before.record(spent_tx@, *signed_spend);
            assert(self@.transactions =~= after.transactions);
            assert(self@.dbc_ids =~= after.dbc_ids);
            assert(self@.outputs_by_input_id == after.outputs_by_input_id);
            assert((Ok::<(), Error>(()), self@) == before.log_spent(
                spent_tx@,
                *signed_spend,
                verdict,
            ));
        }
        Ok(())
    }
}

/// Where the spentbook knows no amounts for a prefix of the inputs, it
/// knows none for the whole, and the error is the same.
pub proof fn lemma_amounts_missing(book: SpentbookView, inputs: Seq<BlindedInput>, n: int)
    requires
        0 <= n <= inputs.len(),
        book.amounts_for(inputs.subrange(0, n)) is Err,
    ensures
        book.amounts_for(inputs) == book.amounts_for(inputs.subrange(0, n)),
    decreases inputs.len() - n,
{
    if n == inputs.len() {
        assert(inputs.subrange(0, n) =~= inputs);
    } else {
        let next = inputs.subrange(0, n + 1);
        assert(next.drop_last() =~= inputs.subrange(0, n));
        lemma_amounts_missing(book, inputs, n + 1);
    }
}

/// Registering outputs keeps what the map held, and leaves each of the
/// outputs' identities with an output.
pub proof fn lemma_register_outputs_keeps(
    outputs_by_id: Map<DbcId, BlindedOutput>,
    outputs: Seq<BlindedOutput>,
)
    ensures
        forall|id: DbcId| #[trigger]
            outputs_by_id.contains_key(id) ==> register_outputs(
                outputs_by_id,
                outputs,
            ).contains_key(id) && register_outputs(outputs_by_id, outputs)[id] == outputs_by_id[id],
        forall|j: int|
            0 <= j < outputs.len() ==> register_outputs(outputs_by_id, outputs).contains_key(
                (#[trigger] outputs[j]).dbc_id,
            ),
    decreases outputs.len(),
{
    if outputs.len() > 0 {
        lemma_register_outputs_keeps(outputs_by_id, outputs.drop_last());
        let before = register_outputs(outputs_by_id, outputs.drop_last());
        assert forall|j: int| 0 <= j < outputs.len() implies register_outputs(
            outputs_by_id,
            outputs,
        ).contains_key((#[trigger] outputs[j]).dbc_id) by {
            if j < outputs.len() - 1 {
                assert(outputs.drop_last()[j] == outputs[j]);
                assert(before.contains_key(outputs.drop_last()[j].dbc_id));
            }
        }
    }
}

/// Registering outputs whose identities all have an output changes
/// nothing.
pub proof fn lemma_register_known_outputs(
    outputs_by_id: Map<DbcId, BlindedOutput>,
    outputs: Seq<BlindedOutput>,
)
    requires
        forall|j: int|
            0 <= j < outputs.len() ==> outputs_by_id.contains_key((#[trigger] outputs[j]).dbc_id),
    ensures
        register_outputs(outputs_by_id, outputs) == outputs_by_id,
    decreases outputs.len(),
{
    if outputs.len() > 0 {
        assert forall|j: int| 0 <= j < outputs.drop_last().len() implies outputs_by_id.contains_key(
            (#[trigger] outputs.drop_last()[j]).dbc_id,
        ) by {
            assert(outputs.drop_last()[j] == outputs[j]);
        }
        lemma_register_known_outputs(outputs_by_id, outputs.drop_last());
        assert(outputs_by_id.contains_key(outputs[outputs.len() - 1].dbc_id));
    }
}

/// A spentbook that knows a blinded amount for each of `inputs` knows the
/// same amounts after any spend is recorded.
pub proof fn lemma_record_keeps_amounts(
    book: SpentbookView,
    tx: TransactionView,
    spend: SignedSpend,
    inputs: Seq<BlindedInput>,
)
    requires
        book.amounts_for(inputs) is Ok,
    ensures
        book.record(tx, spend).amounts_for(inputs) == book.amounts_for(inputs),
    decreases inputs.len(),
{
    if inputs.len() > 0 {
        lemma_record_keeps_amounts(book, tx, spend, inputs.drop_last());
        let kept = if book.transactions.contains_key(spend.spent_tx_hash) {
            book.transactions[spend.spent_tx_hash]
        } else {
            tx
        };
        lemma_register_outputs_keeps(book.outputs_by_input_id, kept.outputs);
        let id = inputs.last().dbc_id;
        if id != book.genesis.0 {
            assert(book.outputs_by_input_id.contains_key(id));
        }
    }
}

/// Logging is idempotent: once a spend is logged, logging it again with
/// the same transaction succeeds and leaves the spentbook as it is. The
/// spentbook then still knows the same blinded amounts for the inputs of
/// the transaction, so the transaction is verified against the same.
pub proof fn lemma_log_spent_is_idempotent(
    book: SpentbookView,
    tx: TransactionView,
    spend: SignedSpend,
    verification: Result<(), Error>,
)
    requires
        book.log_spent(tx, spend, verification).0 is Ok,
    ensures
        ({
            let after = book.log_spent(tx, spend, verification).1;
            &&& after.log_spent(tx, spend, verification) == (Ok::<(), Error>(()), after)
            &&& after.amounts_for(tx.inputs) == book.amounts_for(tx.inputs)
        }),
{
    let after = book.record(tx, spend);
    assert(after == book.log_spent(tx, spend, verification).1);
    lemma_record_keeps_amounts(book, tx, spend, tx.inputs);
    let tx_hash = spend.spent_tx_hash;
    let kept = if book.transactions.contains_key(tx_hash) {
        book.transactions[tx_hash]
    } else {
        tx
    };
    assert(after.transactions.contains_key(tx_hash) && after.transactions[tx_hash] == kept);
    assert(after.dbc_ids.contains_key(spend.dbc_id) && after.dbc_ids[spend.dbc_id] == tx_hash);
    lemma_register_outputs_keeps(book.outputs_by_input_id, kept.outputs);
    lemma_register_known_outputs(after.outputs_by_input_id, kept.outputs);
    let again = after.record(tx, spend);
    assert(again.transactions == after.transactions);
    assert(again.dbc_ids == after.dbc_ids);
    assert(again.outputs_by_input_id == after.outputs_by_input_id);
}

/// A token is spent once: after the spend of a token in a transaction is
/// logged, the token is spent, and logging a spend of the same token in a
/// transaction of another hash fails and leaves the spentbook as it is.
/// Where the later spend passes the checks that come first (its hash is
/// that of its transaction, the spentbook knows the amounts of the
/// inputs, and the transaction verifies), the error is `DbcAlreadySpent`.
pub proof fn lemma_spent_once(
    book: SpentbookView,
    tx: TransactionView,
    spend: SignedSpend,
    verification: Result<(), Error>,
    other_tx: TransactionView,
    other_spend: SignedSpend,
    other_verification: Result<(), Error>,
)
    requires
        book.log_spent(tx, spend, verification).0 is Ok,
        other_spend.dbc_id == spend.dbc_id,
        other_tx.hash() != tx.hash(),
    ensures
        ({
            let after = book.log_spent(tx, spend, verification).1;
            let later = after.log_spent(other_tx, other_spend, other_verification);
            &&& after.is_spent(spend.dbc_id)
            &&& later.0 is Err
            &&& later.1 == after
            &&& (other_tx.hash() == other_spend.spent_tx_hash@ && after.amounts_for(
                other_tx.inputs,
            ) is Ok && other_verification is Ok) ==> later.0 == Err::<(), Error>(
                Error::DbcAlreadySpent,
            )
        }),
{
    let after = book.record(tx, spend);
    assert(after == book.log_spent(tx, spend, verification).1);
    assert(after.dbc_ids.contains_key(spend.dbc_id) && after.dbc_ids[spend.dbc_id]
        == spend.spent_tx_hash);
    if other_tx.hash() == other_spend.spent_tx_hash@ {
        assert(other_spend.spent_tx_hash@ != spend.spent_tx_hash@);
    }
}

/// The spentbook only grows: logging a spend keeps every transaction,
/// every spent input with the transaction it was spent in, and every
/// output, as they are. So a token that is spent stays spent, in the same
/// transaction.
pub proof fn lemma_log_spent_only_appends(
    book: SpentbookView,
    tx: TransactionView,
    spend: SignedSpend,
    verification: Result<(), Error>,
)
    ensures
        ({
            let after = book.log_spent(tx, spend, verification).1;
            &&& after.genesis == book.genesis
            &&& forall|h: crate::hash::Hash| #[trigger]
                book.transactions.contains_key(h) ==> after.transactions.contains_key(h)
                    && after.transactions[h] == book.transactions[h]
            &&& forall|id: DbcId| #[trigger]
                book.dbc_ids.contains_key(id) ==> after.dbc_ids.contains_key(id)
                    && after.dbc_ids[id] == book.dbc_ids[id]
            &&& forall|id: DbcId| #[trigger]
                book.outputs_by_input_id.contains_key(id)
                    ==> after.outputs_by_input_id.contains_key(id)
                    && after.outputs_by_input_id[id] == book.outputs_by_input_id[id]
        }),
{
    let kept = if book.transactions.contains_key(spend.spent_tx_hash) {
        book.transactions[spend.spent_tx_hash]
    } else {
        tx
    };
    lemma_register_outputs_keeps(book.outputs_by_input_id, kept.outputs);
}

/// Logging a spend keeps the spentbook consistent: every transaction that
/// an input is marked as spent in is kept, and every transaction that is
/// kept is kept under its own hash.
pub proof fn lemma_log_spent_keeps_consistent(
    book: SpentbookView,
    tx: TransactionView,
    spend: SignedSpend,
    verification: Result<(), Error>,
)
    requires
        book.consistent(),
    ensures
        book.log_spent(tx, spend, verification).1.consistent(),
{
    let after = book.log_spent(tx, spend, verification).1;
    assert forall|id: DbcId| #[trigger] after.dbc_ids.contains_key(id) implies
        after.transactions.contains_key(after.dbc_ids[id]) by {
        if book.dbc_ids.contains_key(id) {
            assert(book.transactions.contains_key(book.dbc_ids[id]));
        }
    }
    assert forall|h: crate::hash::Hash| #[trigger] after.transactions.contains_key(h) implies
        after.transactions[h].hash() == h@ by {
        if book.transactions.contains_key(h) {
            assert(book.transactions[h].hash() == h@);
        }
    }
}

} // verus!
