//! The builders: one gathers the inputs and outputs of a transaction
//! until it is signed, the other gathers the witnesses of the signed
//! transaction until the new tokens are made.

use crate::amount::{Amount, BlindedAmount, RevealedAmount, Token};
use crate::dbc::{clone_transactions, transaction_views, Dbc, DbcContent, DbcView, OwnerOnce};
use crate::error::{Error, RangeProofError};
use crate::keymap::{keys_of, sorted_keys, sorted_set, KeyMap};
use crate::keys::{bls_child_secret_key, bls_public_key, DbcId, DerivedKey, MainKey};
use crate::spent_proof::{
    combined_proof, share_views, SpentProof, SpentProofKeyVerifier, SpentProofShare,
    SpentProofShareView,
};
use crate::transaction::input::RevealedInput;
use crate::transaction::output::{BlindedOutput, Output, RevealedOutput};
use crate::transaction::{
    is_adjusted, is_blinding_of, is_signed, revealed_amounts_of_inputs, DbcTransaction,
    InputHistory, RevealedTx, TransactionView,
};
use crate::verification::{verification, TransactionVerifier};
use blsttc::rand::rngs::OsRng;
use vstd::prelude::*;

verus! {

/// The owner of each output, by the identity of the output.
pub type OutputOwnerMap = KeyMap<DbcId, OwnerOnce>;

/// The sum of `amounts`.
pub open spec fn amount_sum(amounts: Seq<Amount>) -> nat
    decreases amounts.len(),
{
    if amounts.len() == 0 {
        0
    } else {
        amount_sum(amounts.drop_last()) + amounts.last() as nat
    }
}

/// The values of `inputs`, in their order.
pub open spec fn input_values(inputs: Seq<InputHistory>) -> Seq<Amount> {
    Seq::new(inputs.len(), |i: int| inputs[i].input.revealed_amount.value)
}

/// The amounts of `outputs`, in their order.
pub open spec fn output_values(outputs: Seq<Output>) -> Seq<Amount> {
    Seq::new(outputs.len(), |i: int| outputs[i].amount)
}

/// The sum of a sequence of amounts is at least the sum of each of its
/// prefixes.
pub proof fn lemma_amount_sum_grows(amounts: Seq<Amount>, n: int)
    requires
        0 <= n <= amounts.len(),
    ensures
        amount_sum(amounts.subrange(0, n)) <= amount_sum(amounts),
    decreases amounts.len() - n,
{
    if n == amounts.len() {
        assert(amounts.subrange(0, n) =~= amounts);
    } else {
        let next = amounts.subrange(0, n + 1);
        assert(next.drop_last() =~= amounts.subrange(0, n));
        lemma_amount_sum_grows(amounts, n + 1);
    }
}

/// The sum of `amounts`, which fits.
fn sum_amounts(amounts: &Vec<Amount>) -> (r: Amount)
    requires
        amount_sum(amounts@) <= u64::MAX,
    ensures
        r == amount_sum(amounts@),
{
    let mut sum: u64 = 0;
    let mut i: usize = 0;
    assert(amounts@.subrange(0, 0) =~= Seq::<Amount>::empty());
    while i < amounts.len()
        invariant
            i <= amounts@.len(),
            sum == amount_sum(amounts@.subrange(0, i as int)),
            amount_sum(amounts@) <= u64::MAX,
        decreases amounts@.len() - i,
    {
        let ghost next = amounts@.subrange(0, i + 1);
        assert(next.drop_last() =~= amounts@.subrange(0, i as int));
        assert(next.last() == amounts@[i as int]);
        proof {
            lemma_amount_sum_grows(amounts@, i + 1);
        }
        sum = sum + amounts[i];
        i += 1;
    }
    assert(amounts@.subrange(0, amounts@.len() as int) =~= amounts@);
    sum
}

/// The outputs of `outputs`, in their order.
pub open spec fn outputs_of(outputs: Seq<(Output, OwnerOnce)>) -> Seq<Output> {
    Seq::new(outputs.len(), |i: int| outputs[i].0)
}

/// The owners `owners` with the owner of each of `outputs` put under the
/// identity of its output, in order; a later owner replaces an earlier
/// one.
pub open spec fn owners_after(
    owners: Map<DbcId, OwnerOnce>,
    outputs: Seq<(Output, OwnerOnce)>,
) -> Map<DbcId, OwnerOnce>
    decreases outputs.len(),
{
    if outputs.len() == 0 {
        owners
    } else {
        owners_after(owners, outputs.drop_last()).insert(outputs.last().0.dbc_id, outputs.last().1)
    }
}

/// A builder that gathers the inputs and the outputs of a transaction and
/// then signs it.
#[derive(Debug)]
pub struct TransactionBuilder {
    pub revealed_tx: RevealedTx,
    pub output_owner_map: OutputOwnerMap,
}

impl Default for TransactionBuilder {
    fn default() -> (r: TransactionBuilder)
        ensures
            r.revealed_tx.inputs@.len() == 0,
            r.revealed_tx.outputs@.len() == 0,
            r.output_owner_map@ == Map::<DbcId, OwnerOnce>::empty(),
    {
        TransactionBuilder {
            revealed_tx: RevealedTx { inputs: Vec::new(), outputs: Vec::new() },
            output_owner_map: KeyMap::new(),
        }
    }
}

impl TransactionBuilder {
    /// Whether `after` is `before` with `input` added: the inputs are
    /// those of `before` and then `input`, and the outputs and their
    /// owners are those of `before`.
    pub open spec fn has_input_added(
        before: TransactionBuilder,
        input: InputHistory,
        after: TransactionBuilder,
    ) -> bool {
        &&& after.revealed_tx.inputs@ == before.revealed_tx.inputs@.push(input)
        &&& after.revealed_tx.outputs@ == before.revealed_tx.outputs@
        &&& after.output_owner_map@ == before.output_owner_map@
    }

    /// Whether `after` is `before` with `output` added for `owner`: the
    /// outputs are those of `before` and then `output`, `owner` is the
    /// owner of `output`, and the inputs are those of `before`.
    pub open spec fn has_output_added(
        before: TransactionBuilder,
        output: Output,
        owner: OwnerOnce,
        after: TransactionBuilder,
    ) -> bool {
        &&& after.revealed_tx.inputs@ == before.revealed_tx.inputs@
        &&& after.revealed_tx.outputs@ == before.revealed_tx.outputs@.push(output)
        &&& after.output_owner_map@ == before.output_owner_map@.insert(output.dbc_id, owner)
    }

    /// Adds an input, with the transaction that created the token.
    pub fn add_input(self, input: RevealedInput, input_src_tx: DbcTransaction) -> (r:
        TransactionBuilder)
        ensures
            Self::has_input_added(self, InputHistory { input, input_src_tx }, r),
    {
        let mut builder = self;
        builder.revealed_tx.inputs.push(InputHistory { input, input_src_tx });
        builder
    }

    /// Adds the inputs, in their order.
    pub fn add_inputs(self, inputs: Vec<(RevealedInput, DbcTransaction)>) -> (r: TransactionBuilder)
        ensures
            r.revealed_tx.inputs@ == self.revealed_tx.inputs@ + Seq::new(
                inputs@.len(),
                |i: int| InputHistory { input: inputs@[i].0, input_src_tx: inputs@[i].1 },
            ),
            r.revealed_tx.outputs@ == self.revealed_tx.outputs@,
            r.output_owner_map@ == self.output_owner_map@,
    {
        let mut builder = self;
        let mut rest = inputs;
        let ghost all = rest@;
        let ghost start = builder.revealed_tx.inputs@;
        while rest.len() > 0
            invariant
                rest@.len() <= all.len(),
                rest@ == all.skip(all.len() - rest@.len()),
                builder.revealed_tx.inputs@ == start + Seq::new(
                    (all.len() - rest@.len()) as nat,
                    |i: int| InputHistory { input: all[i].0, input_src_tx: all[i].1 },
                ),
                builder.revealed_tx.outputs@ == self.revealed_tx.outputs@,
                builder.output_owner_map@ == self.output_owner_map@,
            decreases rest@.len(),
        {
            let ghost done = all.len() - rest@.len();
            let ghost before = builder.revealed_tx.inputs@;
            let (input, input_src_tx) = rest.remove(0);
            assert(rest@ =~= all.skip(done + 1));
            builder = builder.add_input(input, input_src_tx);
            assert(builder.revealed_tx.inputs@ =~= start + Seq::new(
                (done + 1) as nat,
                |i: int| InputHistory { input: all[i].0, input_src_tx: all[i].1 },
            ));
        }
        builder
    }

    /// Adds the token `dbc` as an input, for the holder of the base
    /// secret key `base_sk`. An error where `base_sk` is not the key that
    /// the token is addressed to.
    pub fn add_input_dbc(self, dbc: &Dbc, base_sk: &MainKey) -> (r: Result<
        TransactionBuilder,
        Error,
    >)
        ensures
            bls_public_key(base_sk@) != dbc.content.owner_base.spec_public_key() ==> r matches Err(
                Error::SecretKeyDoesNotMatchPublicKey,
            ),
            bls_public_key(base_sk@) == dbc.content.owner_base.spec_public_key() ==> (r matches Ok(
                after,
            ) && Self::has_dbc_added(self, *dbc, bls_child_secret_key(
                base_sk@,
                dbc.content.derivation_index@,
            ), after)),
    {
        match dbc.as_revealed_input(base_sk) {
            Err(e) => Err(e),
            Ok(input) => {
                let after = self.add_input(input, dbc.transaction.clone());
                assert(after.revealed_tx.inputs@.drop_last() =~= self.revealed_tx.inputs@);
                Ok(after)
            },
        }
    }

    /// Whether `after` is `before` with the token `dbc` added as an input
    /// under the one-time secret key `secret`: the last input has that
    /// key, the amount of the token and the transaction of the token, and
    /// all else is as in `before`.
    pub open spec fn has_dbc_added(
        before: TransactionBuilder,
        dbc: Dbc,
        secret: Seq<u8>,
        after: TransactionBuilder,
    ) -> bool {
        &&& after.revealed_tx.inputs@.len() == before.revealed_tx.inputs@.len() + 1
        &&& after.revealed_tx.inputs@.drop_last() == before.revealed_tx.inputs@
        &&& after.revealed_tx.inputs@.last().input.derived_key@ == secret
        &&& after.revealed_tx.inputs@.last().input.revealed_amount == dbc.content.revealed_amount
        &&& after.revealed_tx.inputs@.last().input_src_tx@ == dbc.transaction@
        &&& after.revealed_tx.outputs@ == before.revealed_tx.outputs@
        &&& after.output_owner_map@ == before.output_owner_map@
    }

    /// Adds the tokens as inputs, each for the holder of its base secret
    /// key, in their order. An error where one of the keys is not the key
    /// that its token is addressed to.
    pub fn add_inputs_dbc(self, dbcs: Vec<(Dbc, MainKey)>) -> (r: Result<TransactionBuilder, Error>)
        ensures
            r matches Err(e) ==> e == Error::SecretKeyDoesNotMatchPublicKey,
            r is Ok == (forall|k: int|
                0 <= k < dbcs@.len() ==> bls_public_key((#[trigger] dbcs@[k]).1@)
                    == dbcs@[k].0.content.owner_base.spec_public_key()),
            r matches Ok(after) ==> {
                &&& after.revealed_tx.inputs@.len() == self.revealed_tx.inputs@.len() + dbcs@.len()
                &&& after.revealed_tx.inputs@.subrange(0, self.revealed_tx.inputs@.len() as int)
                    == self.revealed_tx.inputs@
                &&& forall|k: int|
                    0 <= k < dbcs@.len() ==> {
                        let added = #[trigger] after.revealed_tx.inputs@[self.revealed_tx.inputs@.len()
                            + k];
                        &&& added.input.derived_key@ == bls_child_secret_key(
                            dbcs@[k].1@,
                            dbcs@[k].0.content.derivation_index@,
                        )
                        &&& added.input.revealed_amount == dbcs@[k].0.content.revealed_amount
                        &&& added.input_src_tx@ == dbcs@[k].0.transaction@
                    }
                &&& after.revealed_tx.outputs@ == self.revealed_tx.outputs@
                &&& after.output_owner_map@ == self.output_owner_map@
            },
    {
        let mut builder = self;
        let ghost start = builder.revealed_tx.inputs@;
        let mut i: usize = 0;
        while i < dbcs.len()
            invariant
                i <= dbcs@.len(),
                start == self.revealed_tx.inputs@,
                forall|k: int|
                    0 <= k < i ==> bls_public_key((#[trigger] dbcs@[k]).1@)
                        == dbcs@[k].0.content.owner_base.spec_public_key(),
                builder.revealed_tx.inputs@.len() == start.len() + i,
                builder.revealed_tx.inputs@.subrange(0, start.len() as int) == start,
                forall|k: int|
                    0 <= k < i ==> {
                        let added = #[trigger] builder.revealed_tx.inputs@[start.len() + k];
                        &&& added.input.derived_key@ == bls_child_secret_key(
                            dbcs@[k].1@,
                            dbcs@[k].0.content.derivation_index@,
                        )
                        &&& added.input.revealed_amount == dbcs@[k].0.content.revealed_amount
                        &&& added.input_src_tx@ == dbcs@[k].0.transaction@
                    },
                builder.revealed_tx.outputs@ == self.revealed_tx.outputs@,
                builder.output_owner_map@ == self.output_owner_map@,
            decreases dbcs@.len() - i,
        {
            let ghost before = builder.revealed_tx.inputs@;
            match builder.add_input_dbc(&dbcs[i].0, &dbcs[i].1) {
                Err(e) => {
                    return Err(e);
                },
                Ok(next) => {
                    builder = next;
                },
            }
            proof {
                let now = builder.revealed_tx.inputs@;
                assert(now.drop_last() == before);
                assert(now.subrange(0, start.len() as int) =~= before.subrange(
                    0,
                    start.len() as int,
                ));
                assert forall|k: int| 0 <= k < i implies #[trigger] now[start.len() + k]
                    == before[start.len() + k] by {
                    assert(now.drop_last()[start.len() + k] == now[start.len() + k]);
                }
            }
            i += 1;
        }
        Ok(builder)
    }

    /// Adds the bearer token `dbc` as an input. An error where the token
    /// does not carry the secret key of its owner.
    pub fn add_input_dbc_bearer(self, dbc: &Dbc) -> (r: Result<TransactionBuilder, Error>)
        ensures
            match dbc.content.owner_base {
                crate::dbc::Owner::SecretKey(secret) => r matches Ok(after) && Self::has_dbc_added(
                    self,
                    *dbc,
                    bls_child_secret_key(secret@, dbc.content.derivation_index@),
                    after,
                ),
                crate::dbc::Owner::PublicKey(_) => r matches Err(Error::DbcBearerRequired),
            },
    {
        match dbc.as_revealed_input_bearer() {
            Err(e) => Err(e),
            Ok(input) => {
                let after = self.add_input(input, dbc.transaction.clone());
                assert(after.revealed_tx.inputs@.drop_last() =~= self.revealed_tx.inputs@);
                Ok(after)
            },
        }
    }

    /// Adds the bearer tokens as inputs, in their order. An error where
    /// one of them does not carry the secret key of its owner.
    pub fn add_inputs_dbc_bearer(self, dbcs: &[Dbc]) -> (r: Result<TransactionBuilder, Error>)
        ensures
            r matches Err(e) ==> e == Error::DbcBearerRequired,
            r is Ok == (forall|k: int|
                0 <= k < dbcs@.len() ==> (#[trigger] dbcs@[k]).content.owner_base is SecretKey),
            r matches Ok(after) ==> {
                &&& after.revealed_tx.inputs@.len() == self.revealed_tx.inputs@.len() + dbcs@.len()
                &&& after.revealed_tx.inputs@.subrange(0, self.revealed_tx.inputs@.len() as int)
                    == self.revealed_tx.inputs@
                &&& forall|k: int|
                    0 <= k < dbcs@.len() ==> {
                        let added = #[trigger] after.revealed_tx.inputs@[self.revealed_tx.inputs@.len()
                            + k];
                        &&& added.input.derived_key@ == bls_child_secret_key(
                            dbcs@[k].content.owner_base->SecretKey_0@,
                            dbcs@[k].content.derivation_index@,
                        )
                        &&& added.input.revealed_amount == dbcs@[k].content.revealed_amount
                        &&& added.input_src_tx@ == dbcs@[k].transaction@
                    }
                &&& after.revealed_tx.outputs@ == self.revealed_tx.outputs@
                &&& after.output_owner_map@ == self.output_owner_map@
            },
    {
        let mut builder = self;
        let ghost start = builder.revealed_tx.inputs@;
        let mut i: usize = 0;
        while i < dbcs.len()
            invariant
                i <= dbcs@.len(),
                start == self.revealed_tx.inputs@,
                forall|k: int| 0 <= k < i ==> (#[trigger] dbcs@[k]).content.owner_base is SecretKey,
                builder.revealed_tx.inputs@.len() == start.len() + i,
                builder.revealed_tx.inputs@.subrange(0, start.len() as int) == start,
                forall|k: int|
                    0 <= k < i ==> {
                        let added = #[trigger] builder.revealed_tx.inputs@[start.len() + k];
                        &&& added.input.derived_key@ == bls_child_secret_key(
                            dbcs@[k].content.owner_base->SecretKey_0@,
                            dbcs@[k].content.derivation_index@,
                        )
                        &&& added.input.revealed_amount == dbcs@[k].content.revealed_amount
                        &&& added.input_src_tx@ == dbcs@[k].transaction@
                    },
                builder.revealed_tx.outputs@ == self.revealed_tx.outputs@,
                builder.output_owner_map@ == self.output_owner_map@,
            decreases dbcs@.len() - i,
        {
            let ghost before = builder.revealed_tx.inputs@;
            match builder.add_input_dbc_bearer(&dbcs[i]) {
                Err(e) => {
                    return Err(e);
                },
                Ok(next) => {
                    builder = next;
                },
            }
            proof {
                let now = builder.revealed_tx.inputs@;
                assert(now.drop_last() == before);
                assert(now.subrange(0, start.len() as int) =~= before.subrange(
                    0,
                    start.len() as int,
                ));
                assert forall|k: int| 0 <= k < i implies #[trigger] now[start.len() + k]
                    == before[start.len() + k] by {
                    assert(now.drop_last()[start.len() + k] == now[start.len() + k]);
                }
            }
            i += 1;
        }
        Ok(builder)
    }

    /// Adds an input by its one-time secret key and its revealed amount,
    /// with the transaction that created the token.
    pub fn add_input_by_secrets(
        self,
        secret_key: DerivedKey,
        revealed_amount: RevealedAmount,
        input_src_tx: DbcTransaction,
    ) -> (r: TransactionBuilder)
        ensures
            Self::has_input_added(
                self,
                InputHistory {
                    input: RevealedInput { derived_key: secret_key, revealed_amount },
                    input_src_tx,
                },
                r,
            ),
    {
        let revealed_input = RevealedInput::new(secret_key, revealed_amount);
        self.add_input(revealed_input, input_src_tx)
    }

    /// Adds the inputs by their secrets, in their order.
    pub fn add_inputs_by_secrets(
        self,
        secrets: Vec<(DerivedKey, RevealedAmount, DbcTransaction)>,
    ) -> (r: TransactionBuilder)
        ensures
            r.revealed_tx.inputs@ == self.revealed_tx.inputs@ + Seq::new(
                secrets@.len(),
                |i: int|
                    InputHistory {
                        input: RevealedInput {
                            derived_key: secrets@[i].0,
                            revealed_amount: secrets@[i].1,
                        },
                        input_src_tx: secrets@[i].2,
                    },
            ),
            r.revealed_tx.outputs@ == self.revealed_tx.outputs@,
            r.output_owner_map@ == self.output_owner_map@,
    {
        let mut builder = self;
        let mut rest = secrets;
        let ghost all = rest@;
        let ghost start = builder.revealed_tx.inputs@;
        while rest.len() > 0
            invariant
                rest@.len() <= all.len(),
                rest@ == all.skip(all.len() - rest@.len()),
                builder.revealed_tx.inputs@ == start + Seq::new(
                    (all.len() - rest@.len()) as nat,
                    |i: int|
                        InputHistory {
                            input: RevealedInput { derived_key: all[i].0, revealed_amount: all[i].1 },
                            input_src_tx: all[i].2,
                        },
                ),
                builder.revealed_tx.outputs@ == self.revealed_tx.outputs@,
                builder.output_owner_map@ == self.output_owner_map@,
            decreases rest@.len(),
        {
            let ghost done = all.len() - rest@.len();
            let (secret_key, revealed_amount, input_src_tx) = rest.remove(0);
            assert(rest@ =~= all.skip(done + 1));
            builder = builder.add_input_by_secrets(secret_key, revealed_amount, input_src_tx);
            assert(builder.revealed_tx.inputs@ =~= start + Seq::new(
                (done + 1) as nat,
                |i: int|
                    InputHistory {
                        input: RevealedInput { derived_key: all[i].0, revealed_amount: all[i].1 },
                        input_src_tx: all[i].2,
                    },
            ));
        }
        builder
    }

    /// Adds an output and its owner.
    pub fn add_output(self, output: Output, owner: OwnerOnce) -> (r: TransactionBuilder)
        ensures
            Self::has_output_added(self, output, owner, r),
    {
        let mut builder = self;
        builder.output_owner_map.insert(output.dbc_id, owner);
        builder.revealed_tx.outputs.push(output);
        builder
    }

    /// Adds the outputs with their owners, in their order.
    pub fn add_outputs(self, outputs: Vec<(Output, OwnerOnce)>) -> (r: TransactionBuilder)
        ensures
            r.revealed_tx.inputs@ == self.revealed_tx.inputs@,
            r.revealed_tx.outputs@ == self.revealed_tx.outputs@ + outputs_of(outputs@),
            r.output_owner_map@ == owners_after(self.output_owner_map@, outputs@),
    {
        let mut builder = self;
        let mut i: usize = 0;
        assert(outputs@.subrange(0, 0) =~= Seq::<(Output, OwnerOnce)>::empty());
        assert(builder.revealed_tx.outputs@ =~= self.revealed_tx.outputs@ + outputs_of(
            outputs@.subrange(0, 0),
        ));
        while i < outputs.len()
            invariant
                i <= outputs@.len(),
                builder.revealed_tx.inputs@ == self.revealed_tx.inputs@,
                builder.revealed_tx.outputs@ == self.revealed_tx.outputs@ + outputs_of(
                    outputs@.subrange(0, i as int),
                ),
                builder.output_owner_map@ == owners_after(
                    self.output_owner_map@,
                    outputs@.subrange(0, i as int),
                ),
            decreases outputs@.len() - i,
        {
            let ghost next = outputs@.subrange(0, i + 1);
            assert(next.drop_last() =~= outputs@.subrange(0, i as int));
            assert(next.last() == outputs@[i as int]);
            builder = builder.add_output(outputs[i].0, outputs[i].1);
            assert(builder.revealed_tx.outputs@ =~= self.revealed_tx.outputs@ + outputs_of(next));
            i += 1;
        }
        assert(outputs@.subrange(0, outputs@.len() as int) =~= outputs@);
        builder
    }

    /// Adds an output of `amount` for the token that `owner` addresses:
    /// the identity of the output is the one derived for `owner`, and
    /// `owner` is put under it.
    pub fn add_output_by_amount(self, amount: Token, owner: OwnerOnce) -> (r: TransactionBuilder)
        ensures
            r.revealed_tx.inputs@ == self.revealed_tx.inputs@,
            r.revealed_tx.outputs@.len() == self.revealed_tx.outputs@.len() + 1,
            r.revealed_tx.outputs@.drop_last() == self.revealed_tx.outputs@,
            r.revealed_tx.outputs@.last().dbc_id@ == owner.spec_dbc_id(),
            r.revealed_tx.outputs@.last().amount == amount.nano,
            r.output_owner_map@ == self.output_owner_map@.insert(
                r.revealed_tx.outputs@.last().dbc_id,
                owner,
            ),
    {
        let pk = owner.dbc_id();
        let output = Output::new(pk, amount.as_nano());
        let mut builder = self;
        builder.output_owner_map.insert(pk, owner);
        builder.revealed_tx.outputs.push(output);
        assert(builder.revealed_tx.outputs@.drop_last() =~= self.revealed_tx.outputs@);
        builder
    }

    /// The outputs from place `from` on, each with the owner that stands
    /// at its place in `owners`.
    pub open spec fn outputs_with_owners(
        outputs: Seq<Output>,
        from: int,
        owners: Seq<(Token, OwnerOnce)>,
    ) -> Seq<(Output, OwnerOnce)> {
        Seq::new(owners.len(), |k: int| (outputs[from + k], owners[k].1))
    }

    /// Adds an output for each amount and owner, in their order: the
    /// identity of each output is the one derived for its owner, and the
    /// owner is put under it.
    pub fn add_outputs_by_amount(self, outputs: Vec<(Token, OwnerOnce)>) -> (r: TransactionBuilder)
        ensures
            r.revealed_tx.inputs@ == self.revealed_tx.inputs@,
            r.revealed_tx.outputs@.len() == self.revealed_tx.outputs@.len() + outputs@.len(),
            r.revealed_tx.outputs@.subrange(0, self.revealed_tx.outputs@.len() as int)
                == self.revealed_tx.outputs@,
            forall|k: int|
                0 <= k < outputs@.len() ==> {
                    let added = #[trigger] r.revealed_tx.outputs@[self.revealed_tx.outputs@.len()
                        + k];
                    added.dbc_id@ == outputs@[k].1.spec_dbc_id() && added.amount
                        == outputs@[k].0.nano
                },
            r.output_owner_map@ == owners_after(
                self.output_owner_map@,
                Self::outputs_with_owners(
                    r.revealed_tx.outputs@,
                    self.revealed_tx.outputs@.len() as int,
                    outputs@,
                ),
            ),
    {
        let mut builder = self;
        let mut i: usize = 0;
        let ghost start = self.revealed_tx.outputs@.len() as int;
        assert(builder.revealed_tx.outputs@.subrange(0, start) =~= self.revealed_tx.outputs@);
        assert(outputs@.subrange(0, 0) =~= Seq::<(Token, OwnerOnce)>::empty());
        while i < outputs.len()
            invariant
                i <= outputs@.len(),
                start == self.revealed_tx.outputs@.len(),
                builder.revealed_tx.inputs@ == self.revealed_tx.inputs@,
                builder.revealed_tx.outputs@.len() == start + i,
                builder.revealed_tx.outputs@.subrange(0, start) == self.revealed_tx.outputs@,
                forall|k: int|
                    0 <= k < i ==> {
                        let added = #[trigger] builder.revealed_tx.outputs@[start + k];
                        added.dbc_id@ == outputs@[k].1.spec_dbc_id() && added.amount
                            == outputs@[k].0.nano
                    },
                builder.output_owner_map@ == owners_after(
                    self.output_owner_map@,
                    Self::outputs_with_owners(
                        builder.revealed_tx.outputs@,
                        start,
                        outputs@.subrange(0, i as int),
                    ),
                ),
            decreases outputs@.len() - i,
        {
            let ghost before = builder.revealed_tx.outputs@;
            let ghost listed = Self::outputs_with_owners(
                before,
                start,
                outputs@.subrange(0, i as int),
            );
            builder = builder.add_output_by_amount(outputs[i].0, outputs[i].1);
            proof {
                let now = builder.revealed_tx.outputs@;
                assert(now.drop_last() == before);
                assert forall|k: int| 0 <= k < before.len() implies now[k] == before[k] by {
                    assert(now.drop_last()[k] == now[k]);
                }
                assert(now.subrange(0, start) =~= before.subrange(0, start));
                let next = Self::outputs_with_owners(now, start, outputs@.subrange(0, i + 1));
                assert(next.drop_last() =~= listed);
                assert(next.last() == (now.last(), outputs@[i as int].1));
            }
            i += 1;
        }
        assert(outputs@.subrange(0, outputs@.len() as int) =~= outputs@);
        builder
    }

    /// The identities of the inputs, in their order.
    pub fn input_owners(&self) -> (r: Vec<DbcId>)
        ensures
            r@.len() == self.revealed_tx.inputs@.len(),
            forall|i: int|
                0 <= i < r@.len() ==> (#[trigger] r@[i])@
                    == self.revealed_tx.inputs@[i].input.derived_key.spec_dbc_id(),
    {
        self.revealed_tx.input_ids()
    }

    /// The sum of the amounts of the inputs.
    pub fn inputs_amount_sum(&self) -> (r: Token)
        requires
            amount_sum(input_values(self.revealed_tx.inputs@)) <= u64::MAX,
        ensures
            r.nano == amount_sum(input_values(self.revealed_tx.inputs@)),
    {
        let mut values: Vec<Amount> = Vec::new();
        let mut i: usize = 0;
        while i < self.revealed_tx.inputs.len()
            invariant
                i <= self.revealed_tx.inputs@.len(),
                values@ =~= input_values(self.revealed_tx.inputs@.subrange(0, i as int)),
            decreases self.revealed_tx.inputs@.len() - i,
        {
            values.push(self.revealed_tx.inputs[i].input.revealed_amount.value);
            i += 1;
        }
        assert(self.revealed_tx.inputs@.subrange(0, self.revealed_tx.inputs@.len() as int)
            =~= self.revealed_tx.inputs@);
        Token::from_nano(sum_amounts(&values))
    }

    /// The sum of the amounts of the outputs.
    pub fn outputs_amount_sum(&self) -> (r: Token)
        requires
            amount_sum(output_values(self.revealed_tx.outputs@)) <= u64::MAX,
        ensures
            r.nano == amount_sum(output_values(self.revealed_tx.outputs@)),
    {
        let mut values: Vec<Amount> = Vec::new();
        let mut i: usize = 0;
        while i < self.revealed_tx.outputs.len()
            invariant
                i <= self.revealed_tx.outputs@.len(),
                values@ =~= output_values(self.revealed_tx.outputs@.subrange(0, i as int)),
            decreases self.revealed_tx.outputs@.len() - i,
        {
            values.push(self.revealed_tx.outputs[i].amount);
            i += 1;
        }
        assert(self.revealed_tx.outputs@.subrange(0, self.revealed_tx.outputs@.len() as int)
            =~= self.revealed_tx.outputs@);
        Token::from_nano(sum_amounts(&values))
    }

    /// Signs the transaction and hands it, with the revealed outputs and
    /// the owners of the outputs, to the builder of the new tokens.
    ///
    /// The blinding factors and the range proofs depend on `rng`, and the
    /// prover decides whether a proof is made.
    pub fn build(self, rng: OsRng) -> (r: Result<DbcBuilder, Error>)
        ensures
            r matches Ok(builder) ==> {
                &&& is_adjusted(
                    self.revealed_tx.outputs@,
                    revealed_amounts_of_inputs(self.revealed_tx.inputs@),
                    builder.revealed_outputs@,
                )
                &&& is_blinding_of(builder.revealed_outputs@, builder.transaction@.outputs)
                &&& is_signed(
                    self.revealed_tx.inputs@,
                    builder.transaction@.outputs,
                    builder.transaction@,
                )
                &&& builder.output_owner_map@ == self.output_owner_map@
                &&& builder.revealed_tx == self.revealed_tx
                &&& builder.spent_proofs@.len() == 0
                &&& builder.spent_proof_shares@.len() == 0
                &&& builder.spent_transactions.entries().len() == 0
            },
            r matches Err(e) ==> e is RangeProof,
            self.revealed_tx.outputs@.len() == 0 ==> r is Ok,
    {
        let (transaction, revealed_outputs) = match self.revealed_tx.sign(rng) {
            Ok(signed) => signed,
            Err(e) => {
                return Err(e);
            },
        };
        Ok(DbcBuilder::new(transaction, revealed_outputs, self.output_owner_map, self.revealed_tx))
    }

    /// The inputs.
    pub fn inputs(&self) -> (r: &Vec<InputHistory>)
        ensures
            *r == self.revealed_tx.inputs,
    {
        &self.revealed_tx.inputs
    }

    /// The outputs.
    pub fn outputs(&self) -> (r: &Vec<Output>)
        ensures
            *r == self.revealed_tx.outputs,
    {
        &self.revealed_tx.outputs
    }
}

/// The shares among `shares` that are about the token `id`, in their
/// order.
pub open spec fn shares_for(shares: Seq<SpentProofShareView>, id: DbcId) -> Seq<
    SpentProofShareView,
>
    decreases shares.len(),
{
    if shares.len() == 0 {
        Seq::empty()
    } else {
        let before = shares_for(shares.drop_last(), id);
        if shares.last().content.dbc_id == id {
            before.push(shares.last())
        } else {
            before
        }
    }
}

/// The tokens that `shares` are about, in the order of the shares.
pub open spec fn ids_of_shares(shares: Seq<SpentProofShareView>) -> Seq<DbcId> {
    Seq::new(shares.len(), |i: int| shares[i].content.dbc_id)
}

/// The tokens that `shares` are about, each once, in ascending order of
/// the bytes of their identities.
pub open spec fn share_ids(shares: Seq<SpentProofShareView>) -> Seq<DbcId> {
    keys_of(sorted_set(ids_of_shares(shares)))
}

/// For each of `ids`, in order, the proof that the shares about it
/// combine to, for the transaction of the hash `tx_hash`; or the first
/// error.
pub open spec fn combined_proofs(
    ids: Seq<DbcId>,
    shares: Seq<SpentProofShareView>,
    tx_hash: crate::hash::Hash,
) -> Result<Seq<SpentProof>, Error>
    decreases ids.len(),
{
    if ids.len() == 0 {
        Ok(Seq::empty())
    } else {
        match combined_proofs(ids.drop_last(), shares, tx_hash) {
            Err(e) => Err(e),
            Ok(proofs) => match combined_proof(ids.last(), tx_hash, shares_for(shares, ids.last())) {
                Err(e) => Err(e),
                Ok(proof) => Ok(proofs.push(proof)),
            },
        }
    }
}

/// The proofs `proofs`, each once, in ascending order of the bytes of
/// their encodings: the order does not depend on that of `proofs`.
pub open spec fn ordered_proofs(proofs: Seq<SpentProof>) -> Seq<SpentProof> {
    keys_of(sorted_set(proofs))
}

/// The spent proofs that the shares `shares` and the whole proofs
/// `proofs` resolve to, for the transaction of the hash `tx_hash`: the
/// proofs that the shares combine to, one for each token that they are
/// about, and `proofs`, each proof once, in ascending order of their
/// encodings. The shares are combined token by token in ascending order
/// of the identities, and the first combination that fails is the error.
pub open spec fn resolved_proofs(
    shares: Seq<SpentProofShareView>,
    proofs: Seq<SpentProof>,
    tx_hash: crate::hash::Hash,
) -> Result<Seq<SpentProof>, Error> {
    match combined_proofs(share_ids(shares), shares, tx_hash) {
        Err(e) => Err(e),
        Ok(combined) => Ok(ordered_proofs(combined + proofs)),
    }
}

/// The number of `revealed` whose amount commits to `amount`.
pub open spec fn openings(revealed: Seq<RevealedOutput>, amount: BlindedAmount) -> nat
    decreases revealed.len(),
{
    if revealed.len() == 0 {
        0
    } else {
        openings(revealed.drop_last(), amount) + if revealed.last().revealed_amount.spec_blinded_amount()
            == amount@ {
            1nat
        } else {
            0nat
        }
    }
}

/// The amount of the last of `revealed` whose amount commits to `amount`.
pub open spec fn opening_of(revealed: Seq<RevealedOutput>, amount: BlindedAmount) -> Option<
    RevealedAmount,
>
    decreases revealed.len(),
{
    if revealed.len() == 0 {
        None
    } else if revealed.last().revealed_amount.spec_blinded_amount() == amount@ {
        Some(revealed.last().revealed_amount)
    } else {
        opening_of(revealed.drop_last(), amount)
    }
}

/// What `items` hold.
pub open spec fn dbc_views(items: Seq<(Dbc, OwnerOnce, RevealedAmount)>) -> Seq<
    (DbcView, OwnerOnce, RevealedAmount),
> {
    Seq::new(items.len(), |i: int| (items[i].0@, items[i].1, items[i].2))
}

/// A builder that gathers the witnesses of a signed transaction, namely
/// spent proofs, whole or in shares, and the transactions that the inputs
/// came from, and then makes the new tokens.
#[derive(Debug)]
pub struct DbcBuilder {
    pub transaction: DbcTransaction,
    pub revealed_outputs: Vec<RevealedOutput>,
    pub output_owner_map: OutputOwnerMap,
    pub revealed_tx: RevealedTx,
    pub spent_proofs: Vec<SpentProof>,
    pub spent_proof_shares: Vec<SpentProofShare>,
    pub spent_transactions: KeyMap<crate::hash::Hash, DbcTransaction>,
}

impl Clone for DbcBuilder {
    fn clone(&self) -> (r: DbcBuilder)
        ensures
            r.transaction@ == self.transaction@,
            r.revealed_outputs@ == self.revealed_outputs@,
            r.output_owner_map@ == self.output_owner_map@,
            r.revealed_tx.outputs@ == self.revealed_tx.outputs@,
            r.spent_proofs@ == self.spent_proofs@,
            share_views(r.spent_proof_shares@) == share_views(self.spent_proof_shares@),
            r.spent_transactions@.dom() == self.spent_transactions@.dom(),
            r.spent_transaction_views() == self.spent_transaction_views(),
            r.resolved() == self.resolved(),
    {
        let mut shares: Vec<SpentProofShare> = Vec::new();
        let mut i: usize = 0;
        while i < self.spent_proof_shares.len()
            invariant
                i <= self.spent_proof_shares@.len(),
                shares@.len() == i,
                forall|k: int|
                    0 <= k < i ==> (#[trigger] shares@[k])@ == self.spent_proof_shares@[k]@,
            decreases self.spent_proof_shares@.len() - i,
        {
            shares.push(self.spent_proof_shares[i].clone());
            i += 1;
        }
        let output_owner_map = self.output_owner_map.clone();
        let spent_transactions = self.spent_transactions.clone();
        let r = DbcBuilder {
            transaction: self.transaction.clone(),
            revealed_outputs: vstd::slice::slice_to_vec(self.revealed_outputs.as_slice()),
            output_owner_map,
            revealed_tx: self.revealed_tx.clone(),
            spent_proofs: vstd::slice::slice_to_vec(self.spent_proofs.as_slice()),
            spent_proof_shares: shares,
            spent_transactions,
        };
        proof {
            assert(r.output_owner_map@ =~= self.output_owner_map@);
            assert(share_views(r.spent_proof_shares@) =~= share_views(self.spent_proof_shares@));
            assert(r.spent_transaction_views() =~= self.spent_transaction_views());
        }
        r
    }
}

impl DbcBuilder {
    /// The transactions that the inputs came from, in ascending order of
    /// the bytes of their hashes.
    pub open spec fn spent_transaction_views(self) -> Seq<TransactionView> {
        Seq::new(
            self.spent_transactions.entries().len(),
            |i: int| self.spent_transactions.entries()[i].1@,
        )
    }

    /// Whether each output of the transaction is opened by exactly one of
    /// the revealed outputs.
    pub open spec fn opens_each_output_once(self) -> bool {
        forall|j: int|
            0 <= j < self.transaction.outputs@.len() ==> openings(
                self.revealed_outputs@,
                (#[trigger] self.transaction.outputs@[j]).blinded_amount,
            ) == 1
    }

    /// Whether the owner of each output of the transaction is known.
    pub open spec fn owners_known(self) -> bool {
        forall|j: int|
            0 <= j < self.transaction.outputs@.len() ==> self.output_owner_map@.contains_key(
                (#[trigger] self.transaction.outputs@[j]).dbc_id,
            )
    }

    /// The token that output `j` of the transaction creates, with its
    /// owner and its revealed amount: the content is the owner and the
    /// amount that opens the output, the identity is derived from the
    /// owner, and the witnesses are `spent_proofs`, each once in ascending
    /// order of their encodings, and the transactions that the inputs
    /// came from, in ascending order of their hashes.
    pub open spec fn output_dbc(self, spent_proofs: Seq<SpentProof>, j: int) -> (
        DbcView,
        OwnerOnce,
        RevealedAmount,
    ) {
        let output = self.transaction.outputs@[j];
        let owner = self.output_owner_map@[output.dbc_id];
        let amount = opening_of(self.revealed_outputs@, output.blinded_amount)->0;
        (
            DbcView {
                content: DbcContent {
                    owner_base: owner.owner_base,
                    derivation_index: owner.derivation_index,
                    revealed_amount: amount,
                },
                public_key: owner.spec_dbc_id(),
                transaction: self.transaction@,
                inputs_spent_proofs: ordered_proofs(spent_proofs),
                inputs_spent_transactions: self.spent_transaction_views(),
            },
            owner,
            amount,
        )
    }

    /// The tokens that the outputs of the transaction create, in the
    /// order of the outputs; an error where the owner of an output is not
    /// known.
    pub open spec fn output_dbcs(self, spent_proofs: Seq<SpentProof>) -> Result<
        Seq<(DbcView, OwnerOnce, RevealedAmount)>,
        Error,
    > {
        if !self.owners_known() {
            Err(Error::PublicKeyNotFound)
        } else {
            Ok(
                Seq::new(
                    self.transaction.outputs@.len(),
                    |j: int| self.output_dbc(spent_proofs, j),
                ),
            )
        }
    }

    /// What `spent_proofs` returns.
    pub open spec fn resolved(self) -> Result<Seq<SpentProof>, Error> {
        resolved_proofs(
            share_views(self.spent_proof_shares@),
            self.spent_proofs@,
            crate::hash::Hash::with_encoding(self.transaction@.hash()),
        )
    }

    /// Whether the transaction that each of `proofs` names was added.
    pub open spec fn spent_transactions_known(self, proofs: Seq<SpentProof>) -> bool {
        forall|i: int|
            0 <= i < proofs.len() ==> self.spent_transactions@.contains_key(
                (#[trigger] proofs[i]).content.transaction_hash,
            )
    }

    /// Whether `build` comes as far as making the tokens where the range
    /// proofs pass: the spent proofs resolve, the transaction verifies
    /// with them, each proof names a transaction that was added, and the
    /// owner of each output is known.
    pub open spec fn reaches_outputs<K: SpentProofKeyVerifier>(self, verifier: &K) -> bool {
        &&& self.resolved() matches Ok(proofs)
        &&& verification(verifier, self.transaction@, proofs, Ok(())) is Ok
        &&& self.spent_transactions_known(proofs)
        &&& self.owners_known()
    }

    /// What `build_without_verifying` returns: the error of the spent
    /// proofs, else the tokens.
    pub open spec fn spec_build_without_verifying(self) -> Result<
        Seq<(DbcView, OwnerOnce, RevealedAmount)>,
        Error,
    > {
        match self.resolved() {
            Err(e) => Err(e),
            Ok(proofs) => self.output_dbcs(proofs),
        }
    }

    /// What `build` returns, given what the check of the range proofs
    /// returned: the error of the spent proofs, else the error of the
    /// verification of the transaction with the proofs, else an error
    /// where a proof names a transaction that was not added, else the
    /// tokens.
    pub open spec fn spec_build<K: SpentProofKeyVerifier>(
        self,
        verifier: &K,
        range_proofs: Result<(), RangeProofError>,
    ) -> Result<Seq<(DbcView, OwnerOnce, RevealedAmount)>, Error> {
        match self.resolved() {
            Err(e) => Err(e),
            Ok(proofs) => match verification(verifier, self.transaction@, proofs, range_proofs) {
                Err(e) => Err(e),
                Ok(()) => if !self.spent_transactions_known(proofs) {
                    Err(Error::MissingSpentTransaction)
                } else {
                    self.output_dbcs(proofs)
                },
            },
        }
    }

    /// A builder for the tokens of `transaction`, without witnesses yet.
    pub fn new(
        transaction: DbcTransaction,
        revealed_outputs: Vec<RevealedOutput>,
        output_owner_map: OutputOwnerMap,
        revealed_tx: RevealedTx,
    ) -> (r: DbcBuilder)
        ensures
            r.transaction == transaction,
            r.revealed_outputs == revealed_outputs,
            r.output_owner_map == output_owner_map,
            r.revealed_tx == revealed_tx,
            r.spent_proofs@.len() == 0,
            r.spent_proof_shares@.len() == 0,
            r.spent_transactions@ == Map::<crate::hash::Hash, DbcTransaction>::empty(),
            r.spent_transactions.entries().len() == 0,
    {
        DbcBuilder {
            transaction,
            revealed_outputs,
            output_owner_map,
            revealed_tx,
            spent_proofs: Vec::new(),
            spent_proof_shares: Vec::new(),
            spent_transactions: KeyMap::new(),
        }
    }

    /// For each input, its identity and the transaction: what is handed
    /// to the spentbook to log the spend of the input.
    pub fn inputs(&self) -> (r: Vec<(DbcId, DbcTransaction)>)
        ensures
            r@.len() == self.transaction.inputs@.len(),
            forall|i: int|
                0 <= i < r@.len() ==> (#[trigger] r@[i]).0 == self.transaction.inputs@[i].dbc_id
                    && r@[i].1@ == self.transaction@,
    {
        let mut pairs: Vec<(DbcId, DbcTransaction)> = Vec::new();
        let mut i: usize = 0;
        while i < self.transaction.inputs.len()
            invariant
                i <= self.transaction.inputs@.len(),
                pairs@.len() == i,
                forall|k: int|
                    0 <= k < i ==> (#[trigger] pairs@[k]).0 == self.transaction.inputs@[k].dbc_id
                        && pairs@[k].1@ == self.transaction@,
            decreases self.transaction.inputs@.len() - i,
        {
            pairs.push((self.transaction.inputs[i].dbc_id, self.transaction.clone()));
            i += 1;
        }
        pairs
    }

    /// Adds a spent proof, unless it was added before.
    pub fn add_spent_proof(self, proof: SpentProof) -> (r: DbcBuilder)
        ensures
            r.spent_proofs@ == if self.spent_proofs@.contains(proof) {
                self.spent_proofs@
            } else {
                self.spent_proofs@.push(proof)
            },
            r.transaction == self.transaction,
            r.revealed_outputs == self.revealed_outputs,
            r.output_owner_map == self.output_owner_map,
            r.revealed_tx == self.revealed_tx,
            r.spent_proof_shares == self.spent_proof_shares,
            r.spent_transactions == self.spent_transactions,
    {
        let mut builder = self;
        if !contains_proof(&builder.spent_proofs, &proof) {
            builder.spent_proofs.push(proof);
        }
        builder
    }

    /// Adds a spent proof share, unless a share that holds the same was
    /// added before.
    pub fn add_spent_proof_share(self, share: SpentProofShare) -> (r: DbcBuilder)
        ensures
            share_views(r.spent_proof_shares@) == if share_views(self.spent_proof_shares@).contains(
                share@,
            ) {
                share_views(self.spent_proof_shares@)
            } else {
                share_views(self.spent_proof_shares@).push(share@)
            },
            r.transaction == self.transaction,
            r.revealed_outputs == self.revealed_outputs,
            r.output_owner_map == self.output_owner_map,
            r.revealed_tx == self.revealed_tx,
            r.spent_proofs == self.spent_proofs,
            r.spent_transactions == self.spent_transactions,
    {
        let mut builder = self;
        let mut i: usize = 0;
        while i < builder.spent_proof_shares.len()
            invariant
                i <= builder.spent_proof_shares@.len(),
                builder == self,
                forall|k: int| 0 <= k < i ==> (#[trigger] builder.spent_proof_shares@[k])@ != share@,
            decreases builder.spent_proof_shares@.len() - i,
        {
            if builder.spent_proof_shares[i].same(&share) {
                assert(share_views(builder.spent_proof_shares@)[i as int] == share@);
                return builder;
            }
            i += 1;
        }
        assert(!share_views(self.spent_proof_shares@).contains(share@)) by {
            if share_views(self.spent_proof_shares@).contains(share@) {
                let k = choose|k: int|
                    0 <= k < share_views(self.spent_proof_shares@).len() && share_views(
                        self.spent_proof_shares@,
                    )[k] == share@;
                assert(self.spent_proof_shares@[k]@ == share@);
            }
        }
        builder.spent_proof_shares.push(share);
        assert(share_views(builder.spent_proof_shares@) =~= share_views(
            self.spent_proof_shares@,
        ).push(share@));
        builder
    }

    /// Adds the spent proof shares, in their order.
    pub fn add_spent_proof_shares(self, shares: Vec<SpentProofShare>) -> (r: DbcBuilder)
        ensures
            r.transaction == self.transaction,
            r.revealed_outputs == self.revealed_outputs,
            r.output_owner_map == self.output_owner_map,
            r.revealed_tx == self.revealed_tx,
            r.spent_proofs == self.spent_proofs,
            r.spent_transactions == self.spent_transactions,
            share_views(r.spent_proof_shares@) == with_shares(
                share_views(self.spent_proof_shares@),
                share_views(shares@),
            ),
    {
        let mut builder = self;
        let mut rest = shares;
        let ghost all = share_views(rest@);
        assert(all.subrange(0, 0) =~= Seq::<SpentProofShareView>::empty());
        while rest.len() > 0
            invariant
                rest@.len() <= all.len(),
                share_views(rest@) == all.skip(all.len() - rest@.len()),
                builder.transaction == self.transaction,
                builder.revealed_outputs == self.revealed_outputs,
                builder.output_owner_map == self.output_owner_map,
                builder.revealed_tx == self.revealed_tx,
                builder.spent_proofs == self.spent_proofs,
                builder.spent_transactions == self.spent_transactions,
                share_views(builder.spent_proof_shares@) == with_shares(
                    share_views(self.spent_proof_shares@),
                    all.subrange(0, all.len() - rest@.len()),
                ),
            decreases rest@.len(),
        {
            let ghost done = all.len() - rest@.len();
            let ghost before = rest@;
            let share = rest.remove(0);
            assert(share@ == all[done]) by {
                assert(share_views(before)[0] == all.skip(done)[0]);
            }
            assert(share_views(rest@) =~= all.skip(done + 1)) by {
                assert forall|k: int| 0 <= k < rest@.len() implies share_views(rest@)[k] == all.skip(
                    done + 1,
                )[k] by {
                    assert(rest@[k] == before[k + 1]);
                    assert(share_views(before)[k + 1] == all.skip(done)[k + 1]);
                }
            }
            let ghost next = all.subrange(0, done + 1);
            assert(next.drop_last() =~= all.subrange(0, done));
            assert(next.last() == all[done]);
            builder = builder.add_spent_proof_share(share);
        }
        assert(all.subrange(0, all.len() as int) =~= all);
        builder
    }

    /// Adds a transaction that one of the inputs came from, under its
    /// hash, unless a transaction of the same hash was added before.
    pub fn add_spent_transaction(self, spent_tx: DbcTransaction) -> (r: DbcBuilder)
        ensures
            forall|h: crate::hash::Hash|
                #![trigger self.spent_transactions@.contains_key(h)]
                h@ == spent_tx@.hash() ==> {
                    &&& r.spent_transactions@ == if self.spent_transactions@.contains_key(h) {
                        self.spent_transactions@
                    } else {
                        self.spent_transactions@.insert(h, spent_tx)
                    }
                    &&& r.spent_transactions.entries() == crate::keymap::sorted_insert(
                        self.spent_transactions.entries(),
                        h,
                        spent_tx,
                    )
                },
            r.transaction == self.transaction,
            r.revealed_outputs == self.revealed_outputs,
            r.output_owner_map == self.output_owner_map,
            r.revealed_tx == self.revealed_tx,
            r.spent_proofs == self.spent_proofs,
            r.spent_proof_shares == self.spent_proof_shares,
    {
        let mut builder = self;
        let tx_hash = spent_tx.hash();
        builder.spent_transactions.insert_if_absent(tx_hash, spent_tx);
        proof {
            assert forall|h: crate::hash::Hash| h@ == spent_tx@.hash() implies h == tx_hash by {
                assert(h.bytes@ =~= tx_hash.bytes@);
                assert(h.bytes == tx_hash.bytes);
            }
        }
        builder
    }

    /// The spent proofs that the shares and the whole proofs resolve to:
    /// for each input that has shares, the proof that its shares combine
    /// to, bound to the hash of the transaction, and the whole proofs;
    /// each proof once, in ascending order of their encodings. The first
    /// combination that fails, in ascending order of the inputs, is the
    /// error.
    pub fn spent_proofs(&self) -> (r: Result<Vec<SpentProof>, Error>)
        ensures
            r matches Ok(proofs) ==> self.resolved() == Ok::<Seq<SpentProof>, Error>(proofs@),
            r matches Err(e) ==> self.resolved() == Err::<Seq<SpentProof>, Error>(e),
    {
        let transaction_hash = self.transaction.hash();
        proof {
            crate::hash::Hash::lemma_with_own_encoding(transaction_hash);
        }
        let ghost shares = share_views(self.spent_proof_shares@);
        let ids = distinct_share_ids(&self.spent_proof_shares);
        let mut all: Vec<SpentProof> = Vec::new();
        let mut k: usize = 0;
        assert(ids@.subrange(0, 0) =~= Seq::<DbcId>::empty());
        while k < ids.len()
            invariant
                k <= ids@.len(),
                shares == share_views(self.spent_proof_shares@),
                ids@ == share_ids(shares),
                transaction_hash == crate::hash::Hash::with_encoding(self.transaction@.hash()),
                combined_proofs(ids@.subrange(0, k as int), shares, transaction_hash) == Ok::<
                    Seq<SpentProof>,
                    Error,
                >(all@),
            decreases ids@.len() - k,
        {
            let ghost next = ids@.subrange(0, k + 1);
            assert(next.drop_last() =~= ids@.subrange(0, k as int));
            assert(next.last() == ids@[k as int]);
            let group = shares_about(&self.spent_proof_shares, &ids[k]);
            match SpentProof::try_from_proof_shares(ids[k], transaction_hash, group.as_slice()) {
                Err(e) => {
                    proof {
                        lemma_combination_fails(ids@, shares, transaction_hash, k + 1);
                    }
                    return Err(e);
                },
                Ok(proof) => {
                    all.push(proof);
                },
            }
            k += 1;
        }
        assert(ids@.subrange(0, ids@.len() as int) =~= ids@);
        let ghost combined = all@;
        let mut i: usize = 0;
        while i < self.spent_proofs.len()
            invariant
                i <= self.spent_proofs@.len(),
                all@ == combined + self.spent_proofs@.subrange(0, i as int),
            decreases self.spent_proofs@.len() - i,
        {
            all.push(self.spent_proofs[i]);
            assert(all@ =~= combined + self.spent_proofs@.subrange(0, i + 1));
            i += 1;
        }
        assert(self.spent_proofs@.subrange(0, self.spent_proofs@.len() as int)
            =~= self.spent_proofs@);
        Ok(sorted_keys(&all))
    }

    /// Whether each output of the transaction is opened by exactly one of
    /// the revealed outputs.
    pub fn has_one_opening_each(&self) -> (r: bool)
        ensures
            r == self.opens_each_output_once(),
    {
        let commitments = commitments_of(&self.revealed_outputs);
        let mut j: usize = 0;
        while j < self.transaction.outputs.len()
            invariant
                j <= self.transaction.outputs@.len(),
                commitments@.len() == self.revealed_outputs@.len(),
                forall|i: int|
                    0 <= i < commitments@.len() ==> (#[trigger] commitments@[i])@
                        == self.revealed_outputs@[i].revealed_amount.spec_blinded_amount(),
                forall|k: int|
                    0 <= k < j ==> openings(
                        self.revealed_outputs@,
                        (#[trigger] self.transaction.outputs@[k]).blinded_amount,
                    ) == 1,
            decreases self.transaction.outputs@.len() - j,
        {
            let found = opening(
                &self.revealed_outputs,
                &commitments,
                &self.transaction.outputs[j].blinded_amount,
            );
            if found.is_none() {
                return false;
            }
            j += 1;
        }
        true
    }

    /// The tokens that the outputs of the transaction create, each with
    /// its owner and its revealed amount, with `spent_proofs` as the
    /// proofs that the inputs are spent. Nothing is verified.
    ///
    /// Where the owner of each output is known, each output must be opened
    /// by exactly one of the revealed outputs.
    pub fn build_output_dbcs(self, spent_proofs: Vec<SpentProof>) -> (r: Result<
        Vec<(Dbc, OwnerOnce, RevealedAmount)>,
        Error,
    >)
        requires
            self.owners_known() ==> self.opens_each_output_once(),
        ensures
            r matches Ok(items) ==> self.output_dbcs(spent_proofs@) == Ok::<
                Seq<(DbcView, OwnerOnce, RevealedAmount)>,
                Error,
            >(dbc_views(items@)),
            r matches Err(e) ==> self.output_dbcs(spent_proofs@) == Err::<
                Seq<(DbcView, OwnerOnce, RevealedAmount)>,
                Error,
            >(e),
    {
        let commitments = commitments_of(&self.revealed_outputs);
        let mut owner_once_list: Vec<OwnerOnce> = Vec::new();
        let mut j: usize = 0;
        while j < self.transaction.outputs.len()
            invariant
                j <= self.transaction.outputs@.len(),
                owner_once_list@.len() == j,
                forall|k: int|
                    0 <= k < j ==> self.output_owner_map@.contains_key(
                        (#[trigger] self.transaction.outputs@[k]).dbc_id,
                    ) && owner_once_list@[k]
                        == self.output_owner_map@[self.transaction.outputs@[k].dbc_id],
            decreases self.transaction.outputs@.len() - j,
        {
            match self.output_owner_map.get(&self.transaction.outputs[j].dbc_id) {
                Some(owner) => {
                    owner_once_list.push(*owner);
                },
                None => {
                    return Err(Error::PublicKeyNotFound);
                },
            }
            j += 1;
        }
        assert(self.owners_known());
        let spent_transactions = self.spent_transaction_list();
        let ordered = sorted_keys(&spent_proofs);
        let mut output_dbcs: Vec<(Dbc, OwnerOnce, RevealedAmount)> = Vec::new();
        let mut j: usize = 0;
        while j < self.transaction.outputs.len()
            invariant
                j <= self.transaction.outputs@.len(),
                ordered@ == ordered_proofs(spent_proofs@),
                self.opens_each_output_once(),
                self.owners_known(),
                owner_once_list@.len() == self.transaction.outputs@.len(),
                forall|k: int|
                    0 <= k < owner_once_list@.len() ==> (#[trigger] owner_once_list@[k])
                        == self.output_owner_map@[self.transaction.outputs@[k].dbc_id],
                commitments@.len() == self.revealed_outputs@.len(),
                forall|i: int|
                    0 <= i < commitments@.len() ==> (#[trigger] commitments@[i])@
                        == self.revealed_outputs@[i].revealed_amount.spec_blinded_amount(),
                transaction_views(spent_transactions@) == self.spent_transaction_views(),
                output_dbcs@.len() == j,
                forall|k: int|
                    0 <= k < j ==> (#[trigger] dbc_views(output_dbcs@)[k]) == self.output_dbc(
                        spent_proofs@,
                        k,
                    ),
            decreases self.transaction.outputs@.len() - j,
        {
            let output = &self.transaction.outputs[j];
            let owner_once = owner_once_list[j];
            let revealed_amount = match opening(
                &self.revealed_outputs,
                &commitments,
                &output.blinded_amount,
            ) {
                Some(amount) => amount,
                None => vstd::pervasive::unreached(),
            };
            let content = DbcContent::new(
                owner_once.owner_base,
                owner_once.derivation_index,
                revealed_amount,
            );
            let public_key = owner_once.dbc_id();
            let dbc = Dbc {
                content,
                public_key,
                transaction: self.transaction.clone(),
                inputs_spent_proofs: vstd::slice::slice_to_vec(ordered.as_slice()),
                inputs_spent_transactions: clone_transactions(&spent_transactions),
            };
            let ghost before = output_dbcs@;
            output_dbcs.push((dbc, owner_once, revealed_amount));
            proof {
                assert forall|k: int| 0 <= k < j + 1 implies (#[trigger] dbc_views(
                    output_dbcs@,
                )[k]) == self.output_dbc(spent_proofs@, k) by {
                    if k < j {
                        assert(output_dbcs@[k] == before[k]);
                        assert(dbc_views(before)[k] == self.output_dbc(spent_proofs@, k));
                    }
                }
            }
            j += 1;
        }
        assert(dbc_views(output_dbcs@) =~= Seq::new(
            self.transaction.outputs@.len(),
            |j: int| self.output_dbc(spent_proofs@, j),
        ));
        Ok(output_dbcs)
    }

    /// Copies of the transactions that the inputs came from, in ascending
    /// order of the bytes of their hashes.
    fn spent_transaction_list(&self) -> (r: Vec<DbcTransaction>)
        ensures
            transaction_views(r@) == self.spent_transaction_views(),
    {
        let mut list: Vec<DbcTransaction> = Vec::new();
        let mut i: usize = 0;
        while i < self.spent_transactions.len()
            invariant
                i <= self.spent_transactions.entries().len(),
                list@.len() == i,
                forall|k: int|
                    0 <= k < i ==> (#[trigger] list@[k])@
                        == self.spent_transactions.entries()[k].1@,
            decreases self.spent_transactions.entries().len() - i,
        {
            let (_, tx) = self.spent_transactions.entry(i);
            list.push(tx.clone());
            i += 1;
        }
        assert(transaction_views(list@) =~= self.spent_transaction_views());
        list
    }

    /// Whether the transaction that each of `proofs` names was added.
    fn knows_spent_transactions(&self, proofs: &Vec<SpentProof>) -> (r: bool)
        ensures
            r == self.spent_transactions_known(proofs@),
    {
        let mut i: usize = 0;
        while i < proofs.len()
            invariant
                i <= proofs@.len(),
                forall|k: int|
                    0 <= k < i ==> self.spent_transactions@.contains_key(
                        (#[trigger] proofs@[k]).content.transaction_hash,
                    ),
            decreases proofs@.len() - i,
        {
            if !self.spent_transactions.contains_key(&proofs[i].content.transaction_hash) {
                return false;
            }
            i += 1;
        }
        true
    }

    /// Makes the new tokens, once the transaction verifies with the
    /// spent proofs of its inputs and each proof names a transaction that
    /// was added.
    ///
    /// Where no error comes before the tokens are made, each output must
    /// be opened by exactly one of the revealed outputs. The check of a
    /// range proof draws a random challenge, so the result is what
    /// [`Self::spec_build`] gives for some outcome of that check.
    pub fn build<K: SpentProofKeyVerifier>(self, verifier: &K) -> (r: Result<
        Vec<(Dbc, OwnerOnce, RevealedAmount)>,
        Error,
    >)
        requires
            self.reaches_outputs(verifier) ==> self.opens_each_output_once(),
        ensures
            exists|range_proofs: Result<(), RangeProofError>|
                {
                    &&& match r {
                        Ok(items) => Ok::<Seq<(DbcView, OwnerOnce, RevealedAmount)>, Error>(
                            dbc_views(items@),
                        ),
                        Err(e) => Err::<Seq<(DbcView, OwnerOnce, RevealedAmount)>, Error>(e),
                    } == #[trigger] self.spec_build(verifier, range_proofs)
                    &&& self.transaction.outputs@.len() == 0 ==> range_proofs is Ok
                },
    {
        let ghost pass: Result<(), RangeProofError> = Ok(());
        let spent_proofs = match self.spent_proofs() {
            Ok(proofs) => proofs,
            Err(e) => {
                assert(self.spec_build(verifier, pass) == Err::<
                    Seq<(DbcView, OwnerOnce, RevealedAmount)>,
                    Error,
                >(e));
                return Err(e);
            },
        };
        let verified = TransactionVerifier::verify(
            verifier,
            &self.transaction,
            spent_proofs.as_slice(),
        );
        let ghost range_proofs = choose|range_proofs: Result<(), RangeProofError>|
            {
                &&& verified == #[trigger] verification(
                    verifier,
                    self.transaction@,
                    spent_proofs@,
                    range_proofs,
                )
                &&& self.transaction.outputs@.len() == 0 ==> range_proofs is Ok
            };
        match verified {
            Err(e) => {
                assert(self.spec_build(verifier, range_proofs) == Err::<
                    Seq<(DbcView, OwnerOnce, RevealedAmount)>,
                    Error,
                >(e));
                return Err(e);
            },
            Ok(()) => {},
        }
        if !self.knows_spent_transactions(&spent_proofs) {
            assert(self.spec_build(verifier, range_proofs) == Err::<
                Seq<(DbcView, OwnerOnce, RevealedAmount)>,
                Error,
            >(Error::MissingSpentTransaction));
            return Err(Error::MissingSpentTransaction);
        }
        assert(range_proofs == pass) by {
            assert(verification(verifier, self.transaction@, spent_proofs@, range_proofs) is Ok);
            assert(self.transaction@.verify(
                crate::verification::amounts_from(self.transaction@.inputs, spent_proofs@),
                range_proofs,
            ) is Ok);
            assert(range_proofs is Ok);
            let unit: () = range_proofs->Ok_0;
            assert(unit == ());
            assert(range_proofs == Ok::<(), RangeProofError>(unit));
        }
        let r = self.build_output_dbcs(spent_proofs);
        assert(match r {
            Ok(items) => Ok::<Seq<(DbcView, OwnerOnce, RevealedAmount)>, Error>(dbc_views(items@)),
            Err(e) => Err::<Seq<(DbcView, OwnerOnce, RevealedAmount)>, Error>(e),
        } == self.spec_build(verifier, range_proofs));
        r
    }

    /// Makes the new tokens without verifying the transaction or the
    /// spent proofs.
    ///
    /// Where the spent proofs resolve and the owner of each output is
    /// known, each output must be opened by exactly one of the revealed
    /// outputs.
    pub fn build_without_verifying(self) -> (r: Result<
        Vec<(Dbc, OwnerOnce, RevealedAmount)>,
        Error,
    >)
        requires
            (self.resolved() is Ok && self.owners_known()) ==> self.opens_each_output_once(),
        ensures
            r matches Ok(items) ==> self.spec_build_without_verifying() == Ok::<
                Seq<(DbcView, OwnerOnce, RevealedAmount)>,
                Error,
            >(dbc_views(items@)),
            r matches Err(e) ==> self.spec_build_without_verifying() == Err::<
                Seq<(DbcView, OwnerOnce, RevealedAmount)>,
                Error,
            >(e),
    {
        let spent_proofs = match self.spent_proofs() {
            Ok(proofs) => proofs,
            Err(e) => {
                return Err(e);
            },
        };
        self.build_output_dbcs(spent_proofs)
    }

    /// Whether the owner of each output of the transaction is known.
    pub fn knows_owners(&self) -> (r: bool)
        ensures
            r == self.owners_known(),
    {
        let mut j: usize = 0;
        while j < self.transaction.outputs.len()
            invariant
                j <= self.transaction.outputs@.len(),
                forall|k: int|
                    0 <= k < j ==> self.output_owner_map@.contains_key(
                        (#[trigger] self.transaction.outputs@[k]).dbc_id,
                    ),
            decreases self.transaction.outputs@.len() - j,
        {
            if !self.output_owner_map.contains_key(&self.transaction.outputs[j].dbc_id) {
                return false;
            }
            j += 1;
        }
        true
    }

    /// Whether `build` comes as far as making the tokens where the range
    /// proofs pass.
    pub fn would_reach_outputs<K: SpentProofKeyVerifier>(&self, verifier: &K) -> (r: bool)
        ensures
            r == self.reaches_outputs(verifier),
    {
        match self.spent_proofs() {
            Err(_) => false,
            Ok(proofs) => TransactionVerifier::verify_with_range_proofs(
                verifier,
                &self.transaction,
                proofs.as_slice(),
                Ok(()),
            ).is_ok() && self.knows_spent_transactions(&proofs) && self.knows_owners(),
        }
    }

    /// [`Self::build`], unless it would come as far as making the tokens
    /// with an output that is not opened by exactly one of the revealed
    /// outputs; then `None`.
    pub fn try_build<K: SpentProofKeyVerifier>(self, verifier: &K) -> (r: Option<
        Result<Vec<(Dbc, OwnerOnce, RevealedAmount)>, Error>,
    >)
        ensures
            r is Some == (self.reaches_outputs(verifier) ==> self.opens_each_output_once()),
            r matches Some(built) ==> exists|range_proofs: Result<(), RangeProofError>|
                {
                    &&& match built {
                        Ok(items) => Ok::<Seq<(DbcView, OwnerOnce, RevealedAmount)>, Error>(
                            dbc_views(items@),
                        ),
                        Err(e) => Err::<Seq<(DbcView, OwnerOnce, RevealedAmount)>, Error>(e),
                    } == #[trigger] self.spec_build(verifier, range_proofs)
                    &&& self.transaction.outputs@.len() == 0 ==> range_proofs is Ok
                },
    {
        if self.has_one_opening_each() || !self.would_reach_outputs(verifier) {
            Some(self.build(verifier))
        } else {
            None
        }
    }

    /// [`Self::build_without_verifying`], unless the spent proofs resolve,
    /// the owner of each output is known and an output is not opened by
    /// exactly one of the revealed outputs; then `None`.
    pub fn try_build_without_verifying(self) -> (r: Option<
        Result<Vec<(Dbc, OwnerOnce, RevealedAmount)>, Error>,
    >)
        ensures
            r is Some == ((self.resolved() is Ok && self.owners_known())
                ==> self.opens_each_output_once()),
            r matches Some(Ok(items)) ==> self.spec_build_without_verifying() == Ok::<
                Seq<(DbcView, OwnerOnce, RevealedAmount)>,
                Error,
            >(dbc_views(items@)),
            r matches Some(Err(e)) ==> self.spec_build_without_verifying() == Err::<
                Seq<(DbcView, OwnerOnce, RevealedAmount)>,
                Error,
            >(e),
    {
        if self.has_one_opening_each() || !self.knows_owners() || self.spent_proofs().is_err() {
            Some(self.build_without_verifying())
        } else {
            None
        }
    }

    /// [`Self::build_output_dbcs`], unless the owner of each output is
    /// known and an output is not opened by exactly one of the revealed
    /// outputs; then `None`.
    pub fn try_build_output_dbcs(self, spent_proofs: Vec<SpentProof>) -> (r: Option<
        Result<Vec<(Dbc, OwnerOnce, RevealedAmount)>, Error>,
    >)
        ensures
            r is Some == (self.owners_known() ==> self.opens_each_output_once()),
            r matches Some(Ok(items)) ==> self.output_dbcs(spent_proofs@) == Ok::<
                Seq<(DbcView, OwnerOnce, RevealedAmount)>,
                Error,
            >(dbc_views(items@)),
            r matches Some(Err(e)) ==> self.output_dbcs(spent_proofs@) == Err::<
                Seq<(DbcView, OwnerOnce, RevealedAmount)>,
                Error,
            >(e),
    {
        if self.has_one_opening_each() || !self.knows_owners() {
            Some(self.build_output_dbcs(spent_proofs))
        } else {
            None
        }
    }
}

/// The shares `shares` with each of `added` put last, in order, unless a
/// share that holds the same is there.
pub open spec fn with_shares(
    shares: Seq<SpentProofShareView>,
    added: Seq<SpentProofShareView>,
) -> Seq<SpentProofShareView>
    decreases added.len(),
{
    if added.len() == 0 {
        shares
    } else {
        let before = with_shares(shares, added.drop_last());
        if before.contains(added.last()) {
            before
        } else {
            before.push(added.last())
        }
    }
}

/// Whether `proof` is one of `proofs`.
fn contains_proof(proofs: &Vec<SpentProof>, proof: &SpentProof) -> (r: bool)
    ensures
        r == proofs@.contains(*proof),
{
    let mut i: usize = 0;
    while i < proofs.len()
        invariant
            i <= proofs@.len(),
            forall|k: int| 0 <= k < i ==> proofs@[k] != *proof,
        decreases proofs@.len() - i,
    {
        if proofs[i].same(proof) {
            return true;
        }
        i += 1;
    }
    false
}

/// The tokens that `shares` are about, each once, in ascending order of
/// the bytes of their identities.
fn distinct_share_ids(shares: &Vec<SpentProofShare>) -> (r: Vec<DbcId>)
    ensures
        r@ == share_ids(share_views(shares@)),
{
    let mut ids: Vec<DbcId> = Vec::new();
    let mut i: usize = 0;
    while i < shares.len()
        invariant
            i <= shares@.len(),
            ids@.len() == i,
            forall|k: int| 0 <= k < i ==> ids@[k] == shares@[k].content.dbc_id,
        decreases shares@.len() - i,
    {
        ids.push(shares[i].content.dbc_id);
        i += 1;
    }
    assert(ids@ =~= ids_of_shares(share_views(shares@)));
    sorted_keys(&ids)
}

/// Copies of the shares among `shares` that are about the token `id`,
/// in their order.
fn shares_about(shares: &Vec<SpentProofShare>, id: &DbcId) -> (r: Vec<SpentProofShare>)
    ensures
        share_views(r@) == shares_for(share_views(shares@), *id),
{
    let mut group: Vec<SpentProofShare> = Vec::new();
    let mut i: usize = 0;
    assert(share_views(shares@.subrange(0, 0)) =~= Seq::<SpentProofShareView>::empty());
    assert(share_views(group@) =~= Seq::<SpentProofShareView>::empty());
    while i < shares.len()
        invariant
            i <= shares@.len(),
            share_views(group@) == shares_for(share_views(shares@.subrange(0, i as int)), *id),
        decreases shares@.len() - i,
    {
        let ghost next = share_views(shares@.subrange(0, i + 1));
        assert(next.drop_last() =~= share_views(shares@.subrange(0, i as int)));
        assert(next.last() == shares@[i as int]@);
        if shares[i].content.dbc_id.same(id) {
            let ghost before = share_views(group@);
            group.push(shares[i].clone());
            assert(share_views(group@) =~= before.push(shares@[i as int]@));
        }
        i += 1;
    }
    assert(shares@.subrange(0, shares@.len() as int) =~= shares@);
    group
}

/// The commitments to the amounts of `revealed`, in their order.
fn commitments_of(revealed: &Vec<RevealedOutput>) -> (r: Vec<BlindedAmount>)
    ensures
        r@.len() == revealed@.len(),
        forall|i: int|
            0 <= i < r@.len() ==> (#[trigger] r@[i])@
                == revealed@[i].revealed_amount.spec_blinded_amount(),
{
    let pc_gens = RevealedTx::pc_gens();
    let mut commitments: Vec<BlindedAmount> = Vec::new();
    let mut i: usize = 0;
    while i < revealed.len()
        invariant
            i <= revealed@.len(),
            pc_gens.is_default(),
            commitments@.len() == i,
            forall|k: int|
                0 <= k < i ==> (#[trigger] commitments@[k])@
                    == revealed@[k].revealed_amount.spec_blinded_amount(),
        decreases revealed@.len() - i,
    {
        commitments.push(revealed[i].revealed_amount.blinded_amount(&pc_gens));
        i += 1;
    }
    commitments
}

/// The amount among `revealed` that commits to `amount`, where exactly
/// one does. `commitments` are the commitments to the amounts of
/// `revealed`.
fn opening(
    revealed: &Vec<RevealedOutput>,
    commitments: &Vec<BlindedAmount>,
    amount: &BlindedAmount,
) -> (r: Option<RevealedAmount>)
    requires
        commitments@.len() == revealed@.len(),
        forall|i: int|
            0 <= i < commitments@.len() ==> (#[trigger] commitments@[i])@
                == revealed@[i].revealed_amount.spec_blinded_amount(),
    ensures
        r is Some == (openings(revealed@, *amount) == 1),
        r matches Some(found) ==> opening_of(revealed@, *amount) == Some(found),
{
    let mut count: usize = 0;
    let mut found: Option<RevealedAmount> = None;
    let mut i: usize = 0;
    assert(revealed@.subrange(0, 0) =~= Seq::<RevealedOutput>::empty());
    while i < revealed.len()
        invariant
            i <= revealed@.len(),
            commitments@.len() == revealed@.len(),
            forall|k: int|
                0 <= k < commitments@.len() ==> (#[trigger] commitments@[k])@
                    == revealed@[k].revealed_amount.spec_blinded_amount(),
            count == openings(revealed@.subrange(0, i as int), *amount),
            count <= i,
            found == opening_of(revealed@.subrange(0, i as int), *amount),
        decreases revealed@.len() - i,
    {
        let ghost next = revealed@.subrange(0, i + 1);
        assert(next.drop_last() =~= revealed@.subrange(0, i as int));
        assert(next.last() == revealed@[i as int]);
        if commitments[i].same(amount) {
            count += 1;
            found = Some(revealed[i].revealed_amount);
        }
        i += 1;
    }
    assert(revealed@.subrange(0, revealed@.len() as int) =~= revealed@);
    if count == 1 {
        proof {
            lemma_opened_is_found(revealed@, *amount);
        }
        found
    } else {
        None
    }
}

/// Where an amount among `revealed` commits to `amount`, there is an
/// opening of `amount`.
pub proof fn lemma_opened_is_found(revealed: Seq<RevealedOutput>, amount: BlindedAmount)
    requires
        openings(revealed, amount) > 0,
    ensures
        opening_of(revealed, amount) is Some,
    decreases revealed.len(),
{
    if revealed.len() > 0 && revealed.last().revealed_amount.spec_blinded_amount() != amount@ {
        lemma_opened_is_found(revealed.drop_last(), amount);
    }
}

/// Where the shares of a prefix of the tokens do not combine, those of
/// the whole do not, and the error is the same.
pub proof fn lemma_combination_fails(
    ids: Seq<DbcId>,
    shares: Seq<SpentProofShareView>,
    tx_hash: crate::hash::Hash,
    n: int,
)
    requires
        0 <= n <= ids.len(),
        combined_proofs(ids.subrange(0, n), shares, tx_hash) is Err,
    ensures
        combined_proofs(ids, shares, tx_hash) == combined_proofs(ids.subrange(0, n), shares, tx_hash),
    decreases ids.len() - n,
{
    if n == ids.len() {
        assert(ids.subrange(0, n) =~= ids);
    } else {
        let next = ids.subrange(0, n + 1);
        assert(next.drop_last() =~= ids.subrange(0, n));
        lemma_combination_fails(ids, shares, tx_hash, n + 1);
    }
}

/// With and without verification the same tokens are made: where the
/// transaction verifies with the resolved spent proofs and each proof
/// names a transaction that was added, `build` returns what
/// `build_without_verifying` returns.
pub proof fn lemma_build_agrees_with_build_without_verifying<K: SpentProofKeyVerifier>(
    builder: DbcBuilder,
    verifier: &K,
    range_proofs: Result<(), RangeProofError>,
)
    requires
        builder.resolved() matches Ok(proofs) && verification(
            verifier,
            builder.transaction@,
            proofs,
            range_proofs,
        ) is Ok && builder.spent_transactions_known(proofs),
    ensures
        builder.spec_build(verifier, range_proofs) == builder.spec_build_without_verifying(),
{
}

/// The order of resolved proofs goes by the proofs alone: two sequences of
/// the same proofs, however they came, give the same proofs in the same
/// order.
pub proof fn lemma_ordered_proofs_go_by_the_proofs(proofs: Seq<SpentProof>, others: Seq<SpentProof>)
    requires
        forall|p: SpentProof| proofs.contains(p) <==> others.contains(p),
    ensures
        ordered_proofs(proofs) == ordered_proofs(others),
{
    crate::keymap::lemma_sorted_set_goes_by_the_items(proofs, others);
}

} // verus!
