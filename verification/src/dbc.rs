//! Tokens and their owners.

use crate::amount::RevealedAmount;
use crate::error::Error;
use crate::keys::{
    bls_child_public_key, bls_child_secret_key, bls_public_key, DbcId, DerivationIndex, MainKey,
    PublicAddress, PublicKey,
};
use crate::spent_proof::SpentProof;
use crate::transaction::input::RevealedInput;
use crate::transaction::{DbcTransaction, TransactionView};
use vstd::prelude::*;

verus! {

/// The owner of tokens: known by the base public key, or, for a bearer
/// token, by the base secret key.
#[derive(Clone, Copy, Debug, PartialEq, Eq)]
pub enum Owner {
    SecretKey(MainKey),
    PublicKey(PublicAddress),
}

impl Owner {
    /// The encoding of the base public key of the owner.
    pub open spec fn spec_public_key(self) -> Seq<u8> {
        match self {
            Owner::SecretKey(secret) => bls_public_key(secret@),
            Owner::PublicKey(public) => public@,
        }
    }

    /// The encoding of the identity of the token that is derived for the
    /// owner at `index`.
    pub open spec fn spec_derive(self, index: Seq<u8>) -> Seq<u8> {
        match self {
            Owner::SecretKey(secret) => bls_public_key(bls_child_secret_key(secret@, index)),
            Owner::PublicKey(public) => bls_child_public_key(public@, index),
        }
    }

    /// The owner with the base public key `public`.
    pub fn from_public_key(public: PublicAddress) -> (r: Owner)
        ensures
            r == Owner::PublicKey(public),
    {
        Owner::PublicKey(public)
    }

    /// The owner with the base secret key `secret`.
    pub fn from_secret_key(secret: MainKey) -> (r: Owner)
        ensures
            r == Owner::SecretKey(secret),
    {
        Owner::SecretKey(secret)
    }

    /// Whether the base secret key of the owner is known.
    pub fn has_secret_key(&self) -> (r: bool)
        ensures
            r == (self is SecretKey),
    {
        match self {
            Owner::SecretKey(_) => true,
            Owner::PublicKey(_) => false,
        }
    }

    /// The base public key of the owner.
    pub fn public_key(&self) -> (r: PublicKey)
        ensures
            r@ == self.spec_public_key(),
    {
        match self {
            Owner::SecretKey(secret) => PublicKey { bytes: secret.public_key_bytes() },
            Owner::PublicKey(public) => PublicKey { bytes: public.to_bytes() },
        }
    }

    /// The identity of the token that is derived for the owner at
    /// `index`.
    pub fn derive(&self, index: &DerivationIndex) -> (r: DbcId)
        ensures
            r@ == self.spec_derive(index@),
    {
        match self {
            Owner::SecretKey(secret) => secret.derive_key(index).dbc_id(),
            Owner::PublicKey(public) => public.dbc_id(index),
        }
    }
}

/// The address of one token: the owner and the index at which the
/// token's one-time key is derived.
#[derive(Clone, Copy, Debug, PartialEq, Eq)]
pub struct OwnerOnce {
    pub owner_base: Owner,
    pub derivation_index: DerivationIndex,
}

impl OwnerOnce {
    /// The encoding of the identity of the token.
    pub open spec fn spec_dbc_id(self) -> Seq<u8> {
        self.owner_base.spec_derive(self.derivation_index@)
    }

    /// The address of the token of `owner_base` at `derivation_index`.
    pub fn new(owner_base: Owner, derivation_index: DerivationIndex) -> (r: OwnerOnce)
        ensures
            r.owner_base == owner_base,
            r.derivation_index == derivation_index,
    {
        OwnerOnce { owner_base, derivation_index }
    }

    /// The identity of the token.
    pub fn dbc_id(&self) -> (r: DbcId)
        ensures
            r@ == self.spec_dbc_id(),
    {
        self.owner_base.derive(&self.derivation_index)
    }
}

/// What a token says of itself: to whom it is addressed, and its amount
/// in the clear.
#[derive(Clone, Copy, Debug, PartialEq, Eq)]
pub struct DbcContent {
    pub owner_base: Owner,
    pub derivation_index: DerivationIndex,
    pub revealed_amount: RevealedAmount,
}

impl DbcContent {
    pub fn new(
        owner_base: Owner,
        derivation_index: DerivationIndex,
        revealed_amount: RevealedAmount,
    ) -> (r: DbcContent)
        ensures
            r.owner_base == owner_base,
            r.derivation_index == derivation_index,
            r.revealed_amount == revealed_amount,
    {
        DbcContent { owner_base, derivation_index, revealed_amount }
    }
}

/// A token: its content, its identity, the transaction that created it,
/// and the witnesses of that transaction, namely the spent proofs of the
/// transaction's inputs and the transactions that those inputs came from.
#[derive(Debug, PartialEq, Eq)]
pub struct Dbc {
    pub content: DbcContent,
    pub public_key: DbcId,
    pub transaction: DbcTransaction,
    pub inputs_spent_proofs: Vec<SpentProof>,
    pub inputs_spent_transactions: Vec<DbcTransaction>,
}

/// What a token holds.
pub struct DbcView {
    pub content: DbcContent,
    /// The encoding of the identity of the token.
    pub public_key: Seq<u8>,
    pub transaction: TransactionView,
    pub inputs_spent_proofs: Seq<SpentProof>,
    pub inputs_spent_transactions: Seq<TransactionView>,
}

/// The views of `transactions`, in their order.
pub open spec fn transaction_views(transactions: Seq<DbcTransaction>) -> Seq<TransactionView> {
    Seq::new(transactions.len(), |i: int| transactions[i]@)
}

impl View for Dbc {
    type V = DbcView;

    open spec fn view(&self) -> DbcView {
        DbcView {
            content: self.content,
            public_key: self.public_key@,
            transaction: self.transaction@,
            inputs_spent_proofs: self.inputs_spent_proofs@,
            inputs_spent_transactions: transaction_views(self.inputs_spent_transactions@),
        }
    }
}

/// A copy of `transactions`.
pub fn clone_transactions(transactions: &Vec<DbcTransaction>) -> (r: Vec<DbcTransaction>)
    ensures
        transaction_views(r@) == transaction_views(transactions@),
{
    let mut copies: Vec<DbcTransaction> = Vec::new();
    let mut i: usize = 0;
    while i < transactions.len()
        invariant
            i <= transactions@.len(),
            copies@.len() == i,
            forall|k: int| 0 <= k < i ==> (#[trigger] copies@[k])@ == transactions@[k]@,
        decreases transactions@.len() - i,
    {
        copies.push(transactions[i].clone());
        i += 1;
    }
    assert(transaction_views(copies@) =~= transaction_views(transactions@));
    copies
}

impl Clone for Dbc {
    fn clone(&self) -> (r: Dbc)
        ensures
            r@ == self@,
    {
        Dbc {
            content: self.content,
            public_key: self.public_key,
            transaction: self.transaction.clone(),
            inputs_spent_proofs: vstd::slice::slice_to_vec(self.inputs_spent_proofs.as_slice()),
            inputs_spent_transactions: clone_transactions(&self.inputs_spent_transactions),
        }
    }
}

impl Dbc {
    /// The identity of the token.
    pub fn id(&self) -> (r: DbcId)
        ensures
            r == self.public_key,
    {
        self.public_key
    }

    /// The address of the token.
    pub fn owner_once(&self) -> (r: OwnerOnce)
        ensures
            r.owner_base == self.content.owner_base,
            r.derivation_index == self.content.derivation_index,
    {
        OwnerOnce {
            owner_base: self.content.owner_base,
            derivation_index: self.content.derivation_index,
        }
    }

    /// The token as an input, for the holder of the base secret key
    /// `base_sk`: the one-time secret derived from `base_sk` at the
    /// token's index, and the token's amount. An error where `base_sk` is
    /// not the key that the token is addressed to.
    pub fn as_revealed_input(&self, base_sk: &MainKey) -> (r: Result<RevealedInput, Error>)
        ensures
            bls_public_key(base_sk@) != self.content.owner_base.spec_public_key() ==> r == Err::<
                RevealedInput,
                Error,
            >(Error::SecretKeyDoesNotMatchPublicKey),
            bls_public_key(base_sk@) == self.content.owner_base.spec_public_key() ==> (r matches Ok(
                input,
            ) && input.derived_key@ == bls_child_secret_key(
                base_sk@,
                self.content.derivation_index@,
            ) && input.revealed_amount == self.content.revealed_amount),
    {
        let mine = PublicKey { bytes: base_sk.public_key_bytes() };
        if !mine.same(&self.content.owner_base.public_key()) {
            return Err(Error::SecretKeyDoesNotMatchPublicKey);
        }
        Ok(
            RevealedInput::new(
                base_sk.derive_key(&self.content.derivation_index),
                self.content.revealed_amount,
            ),
        )
    }

    /// The token as an input, where the token carries the base secret key
    /// of its owner. An error where it does not.
    pub fn as_revealed_input_bearer(&self) -> (r: Result<RevealedInput, Error>)
        ensures
            match self.content.owner_base {
                Owner::SecretKey(secret) => r matches Ok(input) && input.derived_key@
                    == bls_child_secret_key(secret@, self.content.derivation_index@)
                    && input.revealed_amount == self.content.revealed_amount,
                Owner::PublicKey(_) => r == Err::<RevealedInput, Error>(Error::DbcBearerRequired),
            },
    {
        match self.content.owner_base {
            Owner::SecretKey(secret) => Ok(
                RevealedInput::new(
                    secret.derive_key(&self.content.derivation_index),
                    self.content.revealed_amount,
                ),
            ),
            Owner::PublicKey(_) => Err(Error::DbcBearerRequired),
        }
    }
}

} // verus!
