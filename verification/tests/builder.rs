use blsttc::rand::rngs::OsRng;
use blsttc::{SecretKey, SecretKeySet};
use sn_dbc::amount::{PedersenGens, RevealedAmount, Token};
use sn_dbc::builder::{DbcBuilder, TransactionBuilder};
use sn_dbc::dbc::{Dbc, DbcContent, Owner, OwnerOnce};
use sn_dbc::error::Error;
use sn_dbc::keymap::{sorted_keys, KeyMap};
use sn_dbc::keys::{DbcId, DerivedKey, MainKey, PublicAddress, PublicKey, Signature};
use sn_dbc::spent_proof::{
    KnownKeys, SpentProof, SpentProofContent, SpentProofKeyVerifier, SpentProofShare,
};
use sn_dbc::transaction::input::RevealedInput;
use sn_dbc::transaction::output::{Output, RevealedOutput};
use sn_dbc::transaction::{DbcTransaction, RevealedTx};
use sn_dbc::verification::TransactionVerifier;

fn b_key() -> DerivedKey {
    DerivedKey::from_bytes(SecretKey::random().to_bytes()).unwrap()
}

fn b_empty_tx() -> DbcTransaction {
    DbcTransaction {
        inputs: vec![],
        outputs: vec![],
    }
}

struct Holder {
    main: MainKey,
    address: PublicAddress,
}

fn holder() -> Holder {
    let secret = SecretKey::random();
    Holder {
        main: MainKey::from_bytes(secret.to_bytes()).unwrap(),
        address: PublicAddress::from_bytes(secret.public_key().to_bytes()).unwrap(),
    }
}

fn owner_once(holder: &Holder, index: u8) -> OwnerOnce {
    OwnerOnce::new(Owner::from_public_key(holder.address), [index; 32])
}

struct Spentbook {
    secret: SecretKey,
}

impl Spentbook {
    fn new() -> Self {
        Spentbook {
            secret: SecretKey::random(),
        }
    }

    fn key(&self) -> PublicKey {
        PublicKey::from_bytes(self.secret.public_key().to_bytes())
    }

    fn known(&self) -> KnownKeys {
        KnownKeys {
            keys: vec![self.key()],
        }
    }

    fn attest(&self, content: SpentProofContent) -> SpentProof {
        SpentProof {
            content,
            spentbook_pub_key: self.key(),
            spentbook_sig: Signature::from_bytes(
                self.secret.sign(content.hash().to_bytes()).to_bytes(),
            ),
        }
    }

    fn proofs_for(&self, tx: &DbcTransaction) -> Vec<SpentProof> {
        tx.inputs
            .iter()
            .map(|input| {
                self.attest(SpentProofContent {
                    dbc_id: input.dbc_id,
                    transaction_hash: tx.hash(),
                    blinded_amount: input.blinded_amount,
                })
            })
            .collect()
    }
}

// One input of `value` spent into `outputs`, for `to`.
fn signed_builder(value: u64, outputs: &[u64], to: &Holder) -> (DbcBuilder, Vec<OwnerOnce>) {
    let mut rng = OsRng::default();
    let owners: Vec<OwnerOnce> = (0..outputs.len())
        .map(|i| owner_once(to, i as u8 + 1))
        .collect();
    let builder = TransactionBuilder::default()
        .add_input_by_secrets(
            b_key(),
            RevealedAmount::from_amount(value, &mut rng),
            b_empty_tx(),
        )
        .add_outputs_by_amount(
            outputs
                .iter()
                .zip(owners.iter())
                .map(|(v, o)| (Token::from_nano(*v), *o))
                .collect(),
        );
    (builder.build(rng).unwrap(), owners)
}

fn witnessed(builder: DbcBuilder, book: &Spentbook) -> DbcBuilder {
    let tx = builder.transaction.clone();
    let mut builder = builder.add_spent_transaction(tx.clone());
    for proof in book.proofs_for(&tx) {
        builder = builder.add_spent_proof(proof);
    }
    builder
}

#[test]
fn the_builder_gathers_inputs_and_outputs() {
    let mut rng = OsRng::default();
    let to = holder();
    let k1 = b_key();
    let k2 = b_key();
    let a1 = RevealedAmount::from_amount(30, &mut rng);
    let a2 = RevealedAmount::from_amount(12, &mut rng);
    let out = Output::new(b_key().dbc_id(), 40);
    let builder = TransactionBuilder::default();
    assert!(builder.inputs().is_empty());
    assert!(builder.outputs().is_empty());
    assert_eq!(builder.inputs_amount_sum(), Token::from_nano(0));
    assert_eq!(builder.outputs_amount_sum(), Token::from_nano(0));
    let builder = builder
        .add_input(RevealedInput::new(k1, a1), b_empty_tx())
        .add_input_by_secrets(k2, a2, b_empty_tx())
        .add_output(out, owner_once(&to, 1))
        .add_output_by_amount(Token::from_nano(2), owner_once(&to, 2));
    assert_eq!(builder.inputs().len(), 2);
    assert_eq!(builder.inputs()[0].input, RevealedInput::new(k1, a1));
    assert_eq!(builder.inputs()[1].input, RevealedInput::new(k2, a2));
    assert_eq!(
        *builder.outputs(),
        vec![out, Output::new(owner_once(&to, 2).dbc_id(), 2)]
    );
    assert_eq!(builder.input_owners(), vec![k1.dbc_id(), k2.dbc_id()]);
    assert_eq!(builder.inputs_amount_sum(), Token::from_nano(42));
    assert_eq!(builder.outputs_amount_sum(), Token::from_nano(42));
    assert_eq!(
        builder.output_owner_map.get(&out.dbc_id),
        Some(&owner_once(&to, 1))
    );
    assert_eq!(
        builder.output_owner_map.get(&owner_once(&to, 2).dbc_id()),
        Some(&owner_once(&to, 2))
    );
    assert_eq!(builder.output_owner_map.len(), 2);
}

#[test]
fn the_builder_adds_lists_in_order() {
    let mut rng = OsRng::default();
    let to = holder();
    let keys = [b_key(), b_key(), b_key()];
    let amounts = [
        RevealedAmount::from_amount(1, &mut rng),
        RevealedAmount::from_amount(2, &mut rng),
        RevealedAmount::from_amount(3, &mut rng),
    ];
    let outs = [
        Output::new(b_key().dbc_id(), 4),
        Output::new(b_key().dbc_id(), 2),
    ];
    let builder = TransactionBuilder::default()
        .add_inputs(vec![(RevealedInput::new(keys[0], amounts[0]), b_empty_tx())])
        .add_inputs_by_secrets(vec![
            (keys[1], amounts[1], b_empty_tx()),
            (keys[2], amounts[2], b_empty_tx()),
        ])
        .add_outputs(vec![
            (outs[0], owner_once(&to, 1)),
            (outs[1], owner_once(&to, 2)),
        ])
        .add_outputs_by_amount(vec![])
        .add_inputs(vec![]);
    assert_eq!(
        builder.input_owners(),
        keys.iter().map(|k| k.dbc_id()).collect::<Vec<_>>()
    );
    assert_eq!(*builder.outputs(), outs.to_vec());
    assert_eq!(builder.inputs_amount_sum().as_nano(), 6);
    assert_eq!(builder.outputs_amount_sum().as_nano(), 6);
    // a later owner of an identity replaces an earlier one
    let builder = builder.add_output(outs[0], owner_once(&to, 9));
    assert_eq!(builder.outputs().len(), 3);
    assert_eq!(builder.output_owner_map.len(), 2);
    assert_eq!(
        builder.output_owner_map.get(&outs[0].dbc_id),
        Some(&owner_once(&to, 9))
    );
}

#[test]
fn the_owner_derives_the_identity_of_the_output() {
    let to = holder();
    let once = owner_once(&to, 3);
    assert_eq!(once.dbc_id(), to.address.dbc_id(&[3; 32]));
    assert_eq!(once.dbc_id(), to.main.derive_key(&[3; 32]).dbc_id());
    let bearer = OwnerOnce::new(Owner::from_secret_key(to.main), [3; 32]);
    assert_eq!(bearer.dbc_id(), once.dbc_id());
    assert!(bearer.owner_base.has_secret_key());
    assert!(!once.owner_base.has_secret_key());
    assert_eq!(bearer.owner_base.public_key(), once.owner_base.public_key());
    assert_eq!(
        once.owner_base.public_key(),
        PublicKey::from_bytes(to.address.to_bytes())
    );
}

#[test]
fn new_tokens_are_made_for_their_owners() {
    let to = holder();
    let book = Spentbook::new();
    let (builder, owners) = signed_builder(100, &[70, 30], &to);
    let tx = builder.transaction.clone();
    let inputs = builder.inputs();
    assert_eq!(inputs.len(), 1);
    assert_eq!(inputs[0].0, tx.inputs[0].dbc_id);
    assert!(inputs[0].1 == tx);
    let revealed: Vec<RevealedOutput> = builder.revealed_outputs.clone();
    let builder = witnessed(builder, &book);
    assert!(builder.has_one_opening_each());
    let proofs = builder.spent_proofs().unwrap();
    assert_eq!(proofs, book.proofs_for(&tx));

    let dbcs = builder.build(&book.known()).unwrap();

    assert_eq!(dbcs.len(), 2);
    for (j, (dbc, owner, amount)) in dbcs.iter().enumerate() {
        assert_eq!(*owner, owners[j]);
        assert_eq!(*amount, revealed[j].revealed_amount);
        assert_eq!(amount.value, [70, 30][j]);
        assert_eq!(dbc.id(), owners[j].dbc_id());
        assert_eq!(dbc.public_key, tx.outputs[j].dbc_id);
        assert_eq!(dbc.owner_once(), owners[j]);
        assert_eq!(
            dbc.content,
            DbcContent::new(owners[j].owner_base, owners[j].derivation_index, *amount)
        );
        assert_eq!(amount.blinded_amount(&PedersenGens::default()), tx.outputs[j].blinded_amount);
        assert!(dbc.transaction == tx);
        assert_eq!(dbc.transaction.to_bytes(), tx.to_bytes());
        assert_eq!(dbc.inputs_spent_proofs, proofs);
        assert_eq!(dbc.inputs_spent_transactions.len(), 1);
        assert_eq!(dbc.inputs_spent_transactions[0].to_bytes(), tx.to_bytes());
        assert_eq!(dbc.clone(), *dbc);
    }
}

#[test]
fn build_with_and_without_verifying_make_the_same() {
    let to = holder();
    let book = Spentbook::new();
    let (builder, _) = signed_builder(100, &[1, 2, 97], &to);
    let builder = witnessed(builder, &book);
    let twin = builder.clone();
    let triplet = builder.clone();
    let quad = builder.clone();
    let proofs = builder.spent_proofs().unwrap();
    let verified = builder.build(&book.known()).unwrap();
    let unverified = twin.build_without_verifying().unwrap();
    assert_eq!(verified.len(), 3);
    assert_eq!(verified, unverified);
    assert_eq!(triplet.try_build(&book.known()), Some(Ok(verified)));
    assert_eq!(quad.try_build_output_dbcs(proofs), Some(Ok(unverified)));
}

#[test]
fn an_unknown_spentbook_key_is_rejected() {
    let to = holder();
    let book = Spentbook::new();
    let stranger = Spentbook::new();
    let (builder, _) = signed_builder(100, &[100], &to);
    let builder = witnessed(builder, &book);
    let twin = builder.clone();
    assert_eq!(
        builder.build(&stranger.known()),
        Err(Error::FailedKnownKeyCheck)
    );
    assert_eq!(
        twin.clone().build(&KnownKeys { keys: vec![] }),
        Err(Error::FailedKnownKeyCheck)
    );
    // without verification the tokens are made all the same
    assert_eq!(twin.build_without_verifying().unwrap().len(), 1);
    assert_eq!(book.known().verify_known_key(&book.key()), Ok(()));
    assert_eq!(book.known().verify_known_key(&stranger.key()), Err(()));
}

#[test]
fn missing_and_wrong_spent_proofs_are_rejected() {
    let to = holder();
    let book = Spentbook::new();
    let (builder, _) = signed_builder(100, &[100], &to);
    let tx = builder.transaction.clone();
    let good = book.proofs_for(&tx)[0];

    // no proof at all
    let bare = builder.clone().add_spent_transaction(tx.clone());
    assert_eq!(
        bare.build(&book.known()),
        Err(Error::SpentProofInputLenMismatch)
    );
    assert_eq!(
        TransactionVerifier::verify(&book.known(), &tx, &[]),
        Err(Error::SpentProofInputLenMismatch)
    );
    assert_eq!(
        TransactionVerifier::verify(&book.known(), &tx, &[good, good]),
        Err(Error::SpentProofInputLenMismatch)
    );

    // a proof about another token
    let mut other = good.content;
    other.dbc_id = b_key().dbc_id();
    assert_eq!(
        TransactionVerifier::verify(&book.known(), &tx, &[book.attest(other)]),
        Err(Error::SpentProofInputIdMismatch)
    );

    // a proof about another transaction
    let mut other = good.content;
    other.transaction_hash = b_empty_tx().hash();
    assert_eq!(
        TransactionVerifier::verify(&book.known(), &tx, &[book.attest(other)]),
        Err(Error::InvalidTransactionHash)
    );

    // a signature over something else
    let mut forged = good;
    forged.spentbook_sig = Signature::from_bytes(book.secret.sign(b"else").to_bytes());
    assert_eq!(
        TransactionVerifier::verify(&book.known(), &tx, &[forged]),
        Err(Error::InvalidSpentProofSignature(tx.inputs[0].dbc_id))
    );
    assert_eq!(
        forged.verify(tx.hash(), &book.known()),
        Err(Error::InvalidSpentProofSignature(tx.inputs[0].dbc_id))
    );

    // a proof that names another blinded amount than the input carries
    let mut other = good.content;
    other.blinded_amount = RevealedAmount::from_amount(100, &mut OsRng::default()).blinded_amount(&PedersenGens::default());
    assert_eq!(
        TransactionVerifier::verify(&book.known(), &tx, &[book.attest(other)]),
        Err(Error::InvalidInputBlindedAmount)
    );

    assert_eq!(TransactionVerifier::verify(&book.known(), &tx, &[good]), Ok(()));
    assert_eq!(
        TransactionVerifier::verify_with_range_proofs(&book.known(), &tx, &[good], Ok(())),
        Ok(())
    );
    assert_eq!(good.verify(tx.hash(), &book.known()), Ok(()));
    assert_eq!(*good.dbc_id(), tx.inputs[0].dbc_id);
    assert_eq!(good.transaction_hash(), tx.hash());
    assert_eq!(*good.blinded_amount(), tx.inputs[0].blinded_amount);
}

#[test]
fn a_missing_spent_transaction_is_reported() {
    let to = holder();
    let book = Spentbook::new();
    let (builder, _) = signed_builder(100, &[100], &to);
    let tx = builder.transaction.clone();
    let mut builder = builder;
    for proof in book.proofs_for(&tx) {
        builder = builder.add_spent_proof(proof);
    }
    let twin = builder.clone();
    assert_eq!(
        builder.build(&book.known()),
        Err(Error::MissingSpentTransaction)
    );
    // another transaction does not stand for the missing one
    let twin = twin.add_spent_transaction(b_empty_tx());
    assert_eq!(
        twin.clone().build(&book.known()),
        Err(Error::MissingSpentTransaction)
    );
    assert_eq!(twin.build_without_verifying().unwrap().len(), 1);
}

#[test]
fn an_output_without_owner_is_reported() {
    let to = holder();
    let book = Spentbook::new();
    let (builder, _) = signed_builder(100, &[100], &to);
    let stripped = DbcBuilder::new(
        builder.transaction.clone(),
        builder.revealed_outputs.clone(),
        KeyMap::new(),
        builder.revealed_tx.clone(),
    );
    let stripped = witnessed(stripped, &book);
    let twin = stripped.clone();
    assert_eq!(stripped.build(&book.known()), Err(Error::PublicKeyNotFound));
    assert_eq!(
        twin.build_without_verifying(),
        Err(Error::PublicKeyNotFound)
    );
}

#[test]
fn outputs_that_are_not_opened_once_are_not_built() {
    let to = holder();
    let book = Spentbook::new();
    let (builder, _) = signed_builder(100, &[100], &to);
    // no revealed output opens the output
    let unopened = DbcBuilder::new(
        builder.transaction.clone(),
        vec![],
        builder.output_owner_map.clone(),
        builder.revealed_tx.clone(),
    );
    assert!(!unopened.has_one_opening_each());
    assert!(unopened.knows_owners());
    // an error that comes first is returned
    assert!(!unopened.would_reach_outputs(&book.known()));
    assert_eq!(
        unopened.clone().try_build(&book.known()),
        Some(Err(Error::SpentProofInputLenMismatch))
    );
    let ownerless = DbcBuilder::new(
        builder.transaction.clone(),
        vec![],
        KeyMap::new(),
        builder.revealed_tx.clone(),
    );
    assert!(!ownerless.knows_owners());
    assert_eq!(
        ownerless.clone().try_build_without_verifying(),
        Some(Err(Error::PublicKeyNotFound))
    );
    assert_eq!(
        ownerless.try_build_output_dbcs(vec![]),
        Some(Err(Error::PublicKeyNotFound))
    );
    // where none comes, nothing is built
    let witnessed_unopened = witnessed(unopened.clone(), &book);
    assert!(witnessed_unopened.would_reach_outputs(&book.known()));
    assert_eq!(witnessed_unopened.try_build(&book.known()), None);
    assert_eq!(unopened.clone().try_build_without_verifying(), None);
    assert_eq!(unopened.try_build_output_dbcs(vec![]), None);
    // two revealed outputs open the output
    let twice = DbcBuilder::new(
        builder.transaction.clone(),
        vec![builder.revealed_outputs[0], builder.revealed_outputs[0]],
        builder.output_owner_map.clone(),
        builder.revealed_tx.clone(),
    );
    assert!(!twice.has_one_opening_each());
    assert_eq!(twice.try_build_without_verifying(), None);
    assert!(builder.has_one_opening_each());
    assert_eq!(
        builder.try_build_without_verifying().map(|r| r.map(|d| d.len())),
        Some(Ok(1))
    );
}

#[test]
fn a_clone_of_a_builder_builds_the_same() {
    let to = holder();
    let book = Spentbook::new();
    let (builder, _) = signed_builder(100, &[40, 60], &to);
    let builder = witnessed(builder, &book);
    let twin = builder.clone();
    assert!(twin.transaction == builder.transaction);
    assert_eq!(twin.revealed_outputs, builder.revealed_outputs);
    assert_eq!(twin.spent_proofs, builder.spent_proofs);
    assert_eq!(twin.spent_proof_shares, builder.spent_proof_shares);
    assert_eq!(twin.output_owner_map.len(), builder.output_owner_map.len());
    assert_eq!(twin.spent_transactions.len(), 1);
    assert_eq!(twin.revealed_tx.input_ids(), builder.revealed_tx.input_ids());
    assert_eq!(
        twin.build(&book.known()),
        builder.build(&book.known())
    );
}

#[test]
fn resolved_proofs_do_not_go_by_their_arrival() {
    let mut rng = OsRng::default();
    let to = holder();
    let book = Spentbook::new();
    let built = TransactionBuilder::default()
        .add_input_by_secrets(b_key(), RevealedAmount::from_amount(1, &mut rng), b_empty_tx())
        .add_input_by_secrets(b_key(), RevealedAmount::from_amount(2, &mut rng), b_empty_tx())
        .add_input_by_secrets(b_key(), RevealedAmount::from_amount(3, &mut rng), b_empty_tx())
        .add_output_by_amount(Token::from_nano(6), owner_once(&to, 1))
        .build(rng)
        .unwrap();
    let tx = built.transaction.clone();
    let proofs = book.proofs_for(&tx);
    let forwards = built
        .clone()
        .add_spent_proof(proofs[0])
        .add_spent_proof(proofs[1])
        .add_spent_proof(proofs[2])
        .add_spent_transaction(tx.clone());
    let backwards = built
        .clone()
        .add_spent_proof(proofs[2])
        .add_spent_proof(proofs[1])
        .add_spent_proof(proofs[0])
        .add_spent_proof(proofs[1])
        .add_spent_transaction(tx.clone());
    let resolved = forwards.spent_proofs().unwrap();
    assert_eq!(resolved, backwards.spent_proofs().unwrap());
    assert_eq!(resolved.len(), 3);
    // in ascending order of their encodings
    let mut by_bytes = proofs.clone();
    by_bytes.sort_by_key(|p| p.to_bytes());
    assert_eq!(resolved, by_bytes);
    assert_eq!(sorted_keys(&vec![proofs[2], proofs[0], proofs[2], proofs[1]]), by_bytes);
    let forwards = forwards.build(&book.known()).unwrap();
    let backwards = backwards.build(&book.known()).unwrap();
    assert_eq!(forwards, backwards);
    assert_eq!(forwards[0].0.inputs_spent_proofs, by_bytes);
    // the transactions that come with a token are in the order of their hashes
    let other = b_empty_tx();
    let one = built
        .clone()
        .add_spent_transaction(tx.clone())
        .add_spent_transaction(other.clone());
    let two = built
        .clone()
        .add_spent_transaction(other.clone())
        .add_spent_transaction(tx.clone());
    let mut hashes = vec![tx.hash(), other.hash()];
    hashes.sort();
    for builder in [one, two] {
        let dbcs = builder.build_without_verifying().unwrap();
        assert_eq!(
            dbcs[0]
                .0
                .inputs_spent_transactions
                .iter()
                .map(|t| t.hash())
                .collect::<Vec<_>>(),
            hashes
        );
    }
}

#[test]
fn witnesses_are_added_once() {
    let to = holder();
    let book = Spentbook::new();
    let (builder, _) = signed_builder(100, &[100], &to);
    let tx = builder.transaction.clone();
    let proof = book.proofs_for(&tx)[0];
    let builder = builder
        .add_spent_proof(proof)
        .add_spent_proof(proof)
        .add_spent_transaction(tx.clone())
        .add_spent_transaction(tx.clone())
        .add_spent_transaction(b_empty_tx());
    assert_eq!(builder.spent_proofs, vec![proof]);
    assert_eq!(builder.spent_transactions.len(), 2);
    assert!(builder.spent_transactions.contains_key(&tx.hash()));
    assert!(builder.spent_transactions.contains_key(&b_empty_tx().hash()));
    assert_eq!(builder.spent_proofs().unwrap(), vec![proof]);
}

fn share_of(set: &SecretKeySet, index: u64, content: SpentProofContent) -> SpentProofShare {
    SpentProofShare {
        content,
        spentbook_pks: set.public_keys().to_bytes(),
        index,
        signature_share: Signature::from_bytes(
            set.secret_key_share(index)
                .sign(content.hash().to_bytes())
                .to_bytes(),
        ),
    }
}

#[test]
fn shares_of_a_quorum_combine_to_a_proof() {
    let to = holder();
    let set = SecretKeySet::random(1, &mut blsttc::rand::thread_rng());
    let master = PublicKey::from_bytes(set.public_keys().public_key().to_bytes());
    let (builder, owners) = signed_builder(100, &[100], &to);
    let tx = builder.transaction.clone();
    let content = SpentProofContent {
        dbc_id: tx.inputs[0].dbc_id,
        transaction_hash: tx.hash(),
        blinded_amount: tx.inputs[0].blinded_amount,
    };
    let shares = vec![
        share_of(&set, 0, content),
        share_of(&set, 1, content),
        share_of(&set, 2, content),
    ];
    assert_eq!(*shares[0].dbc_id(), tx.inputs[0].dbc_id);
    assert!(shares[0].same(&shares[0].clone()));
    assert!(!shares[0].same(&shares[1]));

    let proof = SpentProof::try_from_proof_shares(content.dbc_id, tx.hash(), &shares).unwrap();
    assert_eq!(proof.content, content);
    assert_eq!(proof.spentbook_pub_key, master);
    assert!(master.verify(&proof.spentbook_sig, &content.hash().to_bytes()));
    assert_eq!(
        proof.spentbook_sig.to_bytes(),
        set.secret_key().sign(content.hash().to_bytes()).to_bytes()
    );

    let builder = builder
        .add_spent_proof_share(shares[0].clone())
        .add_spent_proof_shares(vec![shares[1].clone(), shares[0].clone(), shares[2].clone()])
        .add_spent_transaction(tx.clone());
    assert_eq!(builder.spent_proof_shares, shares);
    assert_eq!(builder.spent_proofs().unwrap(), vec![proof]);
    let dbcs = builder.build(&KnownKeys { keys: vec![master] }).unwrap();
    assert_eq!(dbcs.len(), 1);
    assert_eq!(dbcs[0].0.inputs_spent_proofs, vec![proof]);
    assert_eq!(dbcs[0].1, owners[0]);
}

#[test]
fn shares_that_do_not_combine_are_reported() {
    let to = holder();
    let set = SecretKeySet::random(1, &mut blsttc::rand::thread_rng());
    let (builder, _) = signed_builder(100, &[100], &to);
    let tx = builder.transaction.clone();
    let id = tx.inputs[0].dbc_id;
    let content = SpentProofContent {
        dbc_id: id,
        transaction_hash: tx.hash(),
        blinded_amount: tx.inputs[0].blinded_amount,
    };
    // none
    assert_eq!(
        SpentProof::try_from_proof_shares(id, tx.hash(), &[]),
        Err(Error::MissingSpentProofShare(id))
    );
    // too few
    let one = share_of(&set, 0, content);
    assert_eq!(
        SpentProof::try_from_proof_shares(id, tx.hash(), &[one.clone()]),
        Err(Error::SpentProofSharesDoNotCombine(id))
    );
    // shares under a wrong index combine to a signature that does not match
    let mut again = share_of(&set, 1, content);
    again.index = 0;
    let mismatched =
        SpentProof::try_from_proof_shares(id, tx.hash(), &[one.clone(), again]).unwrap();
    let master = PublicKey::from_bytes(set.public_keys().public_key().to_bytes());
    assert_eq!(mismatched.spentbook_pub_key, master);
    assert_eq!(
        mismatched.verify(tx.hash(), &KnownKeys { keys: vec![master] }),
        Err(Error::InvalidSpentProofSignature(id))
    );
    // a key set that is none
    let mut keyless = one.clone();
    keyless.spentbook_pks = vec![];
    assert_eq!(
        SpentProof::try_from_proof_shares(id, tx.hash(), &[keyless, share_of(&set, 1, content)]),
        Err(Error::SpentProofSharesDoNotCombine(id))
    );
    let mut garbled = one.clone();
    garbled.spentbook_pks = vec![0xff; 96];
    assert_eq!(
        SpentProof::try_from_proof_shares(id, tx.hash(), &[garbled, share_of(&set, 1, content)]),
        Err(Error::SpentProofSharesDoNotCombine(id))
    );
    // a share that is none
    let mut broken = share_of(&set, 1, content);
    broken.signature_share = Signature::from_bytes([0xff; 96]);
    assert_eq!(
        SpentProof::try_from_proof_shares(id, tx.hash(), &[one.clone(), broken]),
        Err(Error::SpentProofSharesDoNotCombine(id))
    );
    // and the builder reports the same
    let twin = builder.clone().add_spent_proof_share(one.clone());
    assert_eq!(
        twin.spent_proofs(),
        Err(Error::SpentProofSharesDoNotCombine(id))
    );
    assert_eq!(
        twin.clone().build_without_verifying(),
        Err(Error::SpentProofSharesDoNotCombine(id))
    );
    assert_eq!(
        twin.build(&KnownKeys { keys: vec![] }),
        Err(Error::SpentProofSharesDoNotCombine(id))
    );
}

#[test]
fn a_token_is_spent_by_the_holder_of_its_key() {
    let to = holder();
    let book = Spentbook::new();
    let (builder, _) = signed_builder(100, &[100], &to);
    let dbcs = witnessed(builder, &book).build(&book.known()).unwrap();
    let dbc: &Dbc = &dbcs[0].0;

    let input = dbc.as_revealed_input(&to.main).unwrap();
    assert_eq!(input.dbc_id(), dbc.id());
    assert_eq!(input.revealed_amount, dbc.content.revealed_amount);
    assert_eq!(
        input.derived_key,
        to.main.derive_key(&dbc.content.derivation_index)
    );

    let stranger = holder();
    assert_eq!(
        dbc.as_revealed_input(&stranger.main),
        Err(Error::SecretKeyDoesNotMatchPublicKey)
    );
    assert_eq!(
        dbc.as_revealed_input_bearer(),
        Err(Error::DbcBearerRequired)
    );

    let next = holder();
    let builder = TransactionBuilder::default()
        .add_input_dbc(dbc, &to.main)
        .unwrap()
        .add_output_by_amount(Token::from_nano(100), owner_once(&next, 1));
    assert_eq!(builder.input_owners(), vec![dbc.id()]);
    assert_eq!(builder.inputs()[0].input, input);
    assert!(builder.inputs()[0].input_src_tx == dbc.transaction);
    let spent = builder.build(OsRng::default()).unwrap();
    assert_eq!(
        spent
            .transaction
            .verify(&[dbc.content.revealed_amount.blinded_amount(&PedersenGens::default())]),
        Ok(())
    );
    assert_eq!(
        spent.transaction.inputs[0].blinded_amount,
        dbc.transaction.outputs[0].blinded_amount
    );
    assert!(TransactionBuilder::default()
        .add_input_dbc(dbc, &stranger.main)
        .map(|b| b.inputs().len())
        == Err(Error::SecretKeyDoesNotMatchPublicKey));
    assert!(TransactionBuilder::default()
        .add_input_dbc_bearer(dbc)
        .map(|b| b.inputs().len())
        == Err(Error::DbcBearerRequired));
}

#[test]
fn lists_of_tokens_are_added_or_none() {
    let to = holder();
    let book = Spentbook::new();
    let (builder, _) = signed_builder(100, &[60, 40], &to);
    let dbcs = witnessed(builder, &book).build(&book.known()).unwrap();
    let stranger = holder();
    let builder = TransactionBuilder::default()
        .add_inputs_dbc(vec![
            (dbcs[0].0.clone(), to.main),
            (dbcs[1].0.clone(), to.main),
        ])
        .unwrap();
    assert_eq!(builder.input_owners(), vec![dbcs[0].0.id(), dbcs[1].0.id()]);
    assert_eq!(builder.inputs_amount_sum().as_nano(), 100);
    assert!(TransactionBuilder::default()
        .add_inputs_dbc(vec![
            (dbcs[0].0.clone(), to.main),
            (dbcs[1].0.clone(), stranger.main),
        ])
        .map(|b| b.inputs().len())
        == Err(Error::SecretKeyDoesNotMatchPublicKey));
    assert!(TransactionBuilder::default()
        .add_inputs_dbc(vec![])
        .map(|b| b.inputs().len())
        == Ok(0));
    assert!(TransactionBuilder::default()
        .add_inputs_dbc_bearer(&[dbcs[0].0.clone()])
        .map(|b| b.inputs().len())
        == Err(Error::DbcBearerRequired));
    assert!(TransactionBuilder::default()
        .add_inputs_dbc_bearer(&[])
        .map(|b| b.inputs().len())
        == Ok(0));
}

#[test]
fn a_bearer_token_carries_its_key() {
    let to = holder();
    let mut rng = OsRng::default();
    let amount = RevealedAmount::from_amount(5, &mut rng);
    let bearer = OwnerOnce::new(Owner::from_secret_key(to.main), [4; 32]);
    let dbc = Dbc {
        content: DbcContent::new(bearer.owner_base, bearer.derivation_index, amount),
        public_key: bearer.dbc_id(),
        transaction: b_empty_tx(),
        inputs_spent_proofs: vec![],
        inputs_spent_transactions: vec![],
    };
    let input = dbc.as_revealed_input_bearer().unwrap();
    assert_eq!(input.dbc_id(), dbc.id());
    assert_eq!(input.revealed_amount, amount);
    assert_eq!(dbc.as_revealed_input(&to.main), Ok(input));
    let builder = TransactionBuilder::default()
        .add_input_dbc_bearer(&dbc)
        .unwrap();
    assert_eq!(builder.input_owners(), vec![dbc.id()]);
    let builder = builder.add_inputs_dbc_bearer(&[dbc.clone(), dbc.clone()]).unwrap();
    assert_eq!(builder.input_owners(), vec![dbc.id(); 3]);
}

#[test]
fn building_signs_what_was_gathered() {
    let to = holder();
    let mut rng = OsRng::default();
    let key = b_key();
    let amount = RevealedAmount::from_amount(8, &mut rng);
    let builder = TransactionBuilder::default()
        .add_input_by_secrets(key, amount, b_empty_tx())
        .add_output_by_amount(Token::from_nano(3), owner_once(&to, 1))
        .add_output_by_amount(Token::from_nano(5), owner_once(&to, 2));
    let revealed_tx: RevealedTx = builder.revealed_tx.clone();
    let built = builder.build(rng).unwrap();
    assert_eq!(built.transaction.verify(&[amount.blinded_amount(&PedersenGens::default())]), Ok(()));
    assert_eq!(built.revealed_outputs.len(), 2);
    assert_eq!(built.revealed_outputs[0].revealed_amount.value, 3);
    assert_eq!(built.revealed_outputs[1].revealed_amount.value, 5);
    assert_eq!(built.revealed_tx.outputs, revealed_tx.outputs);
    assert_eq!(built.revealed_tx.input_ids(), vec![key.dbc_id()]);
    assert_eq!(
        built.output_owner_map.get(&built.transaction.outputs[1].dbc_id),
        Some(&owner_once(&to, 2))
    );
    assert!(built.spent_proofs.is_empty());
    assert!(built.spent_proof_shares.is_empty());
    assert_eq!(built.spent_transactions.len(), 0);
    let ids: Vec<DbcId> = built.inputs().into_iter().map(|(id, _)| id).collect();
    assert_eq!(ids, vec![key.dbc_id()]);
}
