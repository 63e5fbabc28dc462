use blsttc::rand::rngs::OsRng;
use blsttc::SecretKey;
use sn_dbc::amount::{BlindedAmount, PedersenGens, RevealedAmount};
use sn_dbc::error::Error;
use sn_dbc::keys::{DbcId, DerivedKey, PublicAddress};
use sn_dbc::spentbook::{SignedSpend, SpentbookNode};
use sn_dbc::transaction::input::{BlindedInput, RevealedInput};
use sn_dbc::transaction::output::Output;
use sn_dbc::transaction::{DbcTransaction, InputHistory, RevealedTx};

fn book_key() -> DerivedKey {
    DerivedKey::from_bytes(SecretKey::random().to_bytes()).unwrap()
}

fn book_address() -> PublicAddress {
    PublicAddress::from_bytes(SecretKey::random().public_key().to_bytes()).unwrap()
}

fn book_empty_tx() -> DbcTransaction {
    DbcTransaction {
        inputs: vec![],
        outputs: vec![],
    }
}

struct Genesis {
    key: DerivedKey,
    amount: RevealedAmount,
}

fn genesis(value: u64) -> (SpentbookNode, Genesis) {
    let mut rng = OsRng::default();
    let genesis = Genesis {
        key: book_key(),
        amount: RevealedAmount::from_amount(value, &mut rng),
    };
    let book = SpentbookNode::new(
        book_address(),
        genesis.key.dbc_id(),
        genesis.amount.blinded_amount(&PedersenGens::default()),
    );
    (book, genesis)
}

fn spend_of(key: &DerivedKey, amount: RevealedAmount, outputs: &[(DerivedKey, u64)]) -> DbcTransaction {
    let tx = RevealedTx {
        inputs: vec![InputHistory {
            input: RevealedInput::new(*key, amount),
            input_src_tx: book_empty_tx(),
        }],
        outputs: outputs
            .iter()
            .map(|(k, v)| Output::new(k.dbc_id(), *v))
            .collect(),
    };
    tx.sign(OsRng::default()).unwrap().0
}

fn signed_spend(key: &DerivedKey, tx: &DbcTransaction) -> SignedSpend {
    SignedSpend {
        dbc_id: key.dbc_id(),
        spent_tx_hash: tx.hash(),
        derived_key_sig: key.sign(&tx.hash().to_bytes()),
    }
}

fn state(book: &SpentbookNode) -> (Vec<(DbcId, Vec<u8>)>, Vec<DbcId>) {
    let spent = book
        .iter()
        .into_iter()
        .map(|(id, tx)| (id, tx.to_bytes()))
        .collect();
    let outputs = book
        .iter()
        .into_iter()
        .flat_map(|(_, tx)| tx.outputs.into_iter().map(|o| o.dbc_id))
        .filter(|id| book.output_of(id).is_some())
        .collect();
    (spent, outputs)
}

#[test]
fn a_new_spentbook_is_empty() {
    let (book, genesis) = genesis(100);
    assert!(!book.is_spent(&genesis.key.dbc_id()));
    assert!(book.iter().is_empty());
    assert_eq!(
        book.genesis(),
        (genesis.key.dbc_id(), genesis.amount.blinded_amount(&PedersenGens::default()))
    );
    assert_eq!(book.spent_in(&genesis.key.dbc_id()), None);
    assert_eq!(book.output_of(&genesis.key.dbc_id()), None);
    let address = book_address();
    let other = SpentbookNode::new(address, genesis.key.dbc_id(), BlindedAmount::identity());
    assert_eq!(other.id(), address);
}

#[test]
fn a_logged_spend_is_spent() {
    let (mut book, genesis) = genesis(100);
    let owner = book_key();
    let tx = spend_of(&genesis.key, genesis.amount, &[(owner, 100)]);
    let spend = signed_spend(&genesis.key, &tx);
    assert_eq!(*spend.dbc_id(), genesis.key.dbc_id());
    assert_eq!(spend.spent_tx_hash(), tx.hash());

    assert_eq!(book.log_spent(&tx, &spend), Ok(()));

    assert!(book.is_spent(&genesis.key.dbc_id()));
    assert!(!book.is_spent(&owner.dbc_id()));
    assert_eq!(book.spent_in(&genesis.key.dbc_id()), Some(tx.hash()));
    assert_eq!(book.transaction(&tx.hash()).unwrap().to_bytes(), tx.to_bytes());
    assert_eq!(book.output_of(&owner.dbc_id()), Some(tx.outputs[0]));
    let listed = book.iter();
    assert_eq!(listed.len(), 1);
    assert_eq!(listed[0].0, genesis.key.dbc_id());
    assert_eq!(listed[0].1.to_bytes(), tx.to_bytes());
}

#[test]
fn replay_of_a_spend_changes_nothing() {
    let (mut book, genesis) = genesis(100);
    let tx = spend_of(&genesis.key, genesis.amount, &[(book_key(), 60), (book_key(), 40)]);
    let spend = signed_spend(&genesis.key, &tx);
    assert_eq!(book.log_spent(&tx, &spend), Ok(()));
    let before = state(&book);
    assert_eq!(book.log_spent(&tx, &spend), Ok(()));
    assert_eq!(book.log_spent(&tx, &spend), Ok(()));
    assert_eq!(state(&book), before);
    assert_eq!(book.iter().len(), 1);
    assert_eq!(book.spent_in(&genesis.key.dbc_id()), Some(tx.hash()));
}

#[test]
fn a_clone_of_a_spentbook_holds_the_same() {
    let (mut book, genesis) = genesis(100);
    let owner = book_key();
    let tx = spend_of(&genesis.key, genesis.amount, &[(owner, 100)]);
    assert_eq!(book.log_spent(&tx, &signed_spend(&genesis.key, &tx)), Ok(()));
    let mut twin = book.clone();
    assert_eq!(state(&twin), state(&book));
    assert_eq!(twin.id(), book.id());
    assert_eq!(twin.genesis(), book.genesis());
    assert_eq!(twin.output_of(&owner.dbc_id()), book.output_of(&owner.dbc_id()));
    // the clone goes its own way
    let other = spend_of(&genesis.key, genesis.amount, &[(book_key(), 100)]);
    assert_eq!(
        twin.log_spent(&other, &signed_spend(&genesis.key, &other)),
        Err(Error::DbcAlreadySpent)
    );
    assert_eq!(state(&twin), state(&book));
}

fn forged_spend(id: DbcId) -> (DbcTransaction, SignedSpend) {
    let key = book_key();
    let tx = DbcTransaction {
        inputs: vec![],
        outputs: spend_of(
            &key,
            RevealedAmount::from_amount(1, &mut OsRng::default()),
            &[(book_key(), 1)],
        )
        .outputs,
    };
    let spend = SignedSpend {
        dbc_id: id,
        spent_tx_hash: tx.hash(),
        derived_key_sig: key.sign(b"nothing"),
    };
    (tx, spend)
}

#[test]
fn spent_inputs_are_listed_in_ascending_order_of_their_identities() {
    let (mut book, _) = genesis(100);
    let high = DbcId::from_bytes([0xff; 48]);
    let low = DbcId::from_bytes([0x00; 48]);
    let mut middle = [0x00; 48];
    middle[47] = 1;
    let middle = DbcId::from_bytes(middle);
    let mut txs = vec![];
    for id in [high, low, middle] {
        let (tx, spend) = forged_spend(id);
        assert_eq!(book.log_spent_and_skip_tx_verification(&tx, &spend), Ok(()));
        txs.push((id, tx));
    }
    let listed = book.iter();
    assert_eq!(
        listed.iter().map(|(id, _)| *id).collect::<Vec<_>>(),
        vec![low, middle, high]
    );
    for (id, tx) in listed.iter() {
        let logged = txs.iter().find(|(logged, _)| logged == id).unwrap();
        assert_eq!(tx.to_bytes(), logged.1.to_bytes());
    }
    // as a map of the standard library orders them
    let mut sorted: Vec<DbcId> = vec![high, low, middle];
    sorted.sort();
    assert_eq!(sorted, vec![low, middle, high]);
    // and as blsttc orders public keys: by their bytes
    let keys: Vec<SecretKey> = (0..4).map(|_| SecretKey::random()).collect();
    let (mut other, _) = genesis(1);
    for key in keys.iter() {
        let (tx, spend) = forged_spend(DbcId::from_bytes(key.public_key().to_bytes()));
        assert_eq!(other.log_spent_and_skip_tx_verification(&tx, &spend), Ok(()));
    }
    let mut public: Vec<blsttc::PublicKey> = keys.iter().map(|k| k.public_key()).collect();
    public.sort();
    assert_eq!(
        other.iter().iter().map(|(id, _)| id.to_bytes()).collect::<Vec<_>>(),
        public.iter().map(|k| k.to_bytes()).collect::<Vec<_>>()
    );
}

#[test]
fn double_spend_is_rejected() {
    let (mut book, genesis) = genesis(100);
    let t1 = spend_of(&genesis.key, genesis.amount, &[(book_key(), 100)]);
    let t2 = spend_of(&genesis.key, genesis.amount, &[(book_key(), 100)]);
    assert!(t1 != t2);
    assert_eq!(book.log_spent(&t1, &signed_spend(&genesis.key, &t1)), Ok(()));
    let before = state(&book);

    assert_eq!(
        book.log_spent(&t2, &signed_spend(&genesis.key, &t2)),
        Err(Error::DbcAlreadySpent)
    );

    assert_eq!(state(&book), before);
    assert!(book.is_spent(&genesis.key.dbc_id()));
    assert_eq!(book.spent_in(&genesis.key.dbc_id()), Some(t1.hash()));
    assert!(book.transaction(&t2.hash()).is_none());
    assert_eq!(book.output_of(&t2.outputs[0].dbc_id), None);
    assert_eq!(book.iter().len(), 1);
    // and the first spend can still be replayed
    assert_eq!(book.log_spent(&t1, &signed_spend(&genesis.key, &t1)), Ok(()));
}

#[test]
fn a_spend_for_another_hash_is_rejected() {
    let (mut book, genesis) = genesis(100);
    let t1 = spend_of(&genesis.key, genesis.amount, &[(book_key(), 100)]);
    let t2 = spend_of(&genesis.key, genesis.amount, &[(book_key(), 100)]);
    assert_eq!(
        book.log_spent(&t1, &signed_spend(&genesis.key, &t2)),
        Err(Error::InvalidTransactionHash)
    );
    assert!(!book.is_spent(&genesis.key.dbc_id()));
    assert!(book.iter().is_empty());
    assert!(book.transaction(&t1.hash()).is_none());
    // the hash is checked first
    assert_eq!(
        book.log_spent(&book_empty_tx(), &signed_spend(&genesis.key, &t2)),
        Err(Error::InvalidTransactionHash)
    );
}

#[test]
fn an_input_of_unknown_origin_is_rejected() {
    let (mut book, _) = genesis(100);
    let stranger = book_key();
    let amount = RevealedAmount::from_amount(5, &mut OsRng::default());
    let tx = spend_of(&stranger, amount, &[(book_key(), 5)]);
    assert_eq!(
        book.log_spent(&tx, &signed_spend(&stranger, &tx)),
        Err(Error::MissingAmountForDbcId(stranger.dbc_id()))
    );
    assert_eq!(
        book.log_spent_and_skip_tx_verification(&tx, &signed_spend(&stranger, &tx)),
        Err(Error::MissingAmountForDbcId(stranger.dbc_id()))
    );
    assert!(!book.is_spent(&stranger.dbc_id()));
    assert!(book.iter().is_empty());
}

#[test]
fn an_invalid_transaction_is_not_logged() {
    let (mut book, genesis) = genesis(100);
    // more comes out than went in
    let tx = spend_of(&genesis.key, genesis.amount, &[(book_key(), 101)]);
    let spend = signed_spend(&genesis.key, &tx);
    assert_eq!(
        book.log_spent(&tx, &spend),
        Err(Error::InconsistentDbcTransaction)
    );
    assert!(!book.is_spent(&genesis.key.dbc_id()));
    assert!(book.iter().is_empty());
    // the genesis amount is the one that the spentbook expects
    let other = RevealedAmount::from_amount(100, &mut OsRng::default());
    let tx = spend_of(&genesis.key, other, &[(book_key(), 100)]);
    assert_eq!(
        book.log_spent(&tx, &signed_spend(&genesis.key, &tx)),
        Err(Error::InvalidInputBlindedAmount)
    );
    assert!(book.iter().is_empty());
}

#[test]
fn verification_can_be_skipped() {
    let (mut book, genesis) = genesis(100);
    let owner = book_key();
    let tx = spend_of(&genesis.key, genesis.amount, &[(owner, 101)]);
    let spend = signed_spend(&genesis.key, &tx);
    assert_eq!(book.log_spent_and_skip_tx_verification(&tx, &spend), Ok(()));
    assert!(book.is_spent(&genesis.key.dbc_id()));
    assert_eq!(book.output_of(&owner.dbc_id()), Some(tx.outputs[0]));
    // a conflicting spend is rejected all the same
    let other = spend_of(&genesis.key, genesis.amount, &[(book_key(), 100)]);
    assert_eq!(
        book.log_spent_and_skip_tx_verification(&other, &signed_spend(&genesis.key, &other)),
        Err(Error::DbcAlreadySpent)
    );
    assert_eq!(
        book.log_spent(&other, &signed_spend(&genesis.key, &other)),
        Err(Error::DbcAlreadySpent)
    );
    assert_eq!(book.iter().len(), 1);
}

#[test]
fn an_output_is_spent_in_turn() {
    let (mut book, genesis) = genesis(100);
    let alice = book_key();
    let bob = book_key();
    let t1 = spend_of(&genesis.key, genesis.amount, &[(alice, 70), (bob, 30)]);
    let (signed1, revealed1) = {
        // sign again by hand to keep the revealed outputs
        let tx = RevealedTx {
            inputs: vec![InputHistory {
                input: RevealedInput::new(genesis.key, genesis.amount),
                input_src_tx: book_empty_tx(),
            }],
            outputs: vec![Output::new(alice.dbc_id(), 70), Output::new(bob.dbc_id(), 30)],
        };
        tx.sign(OsRng::default()).unwrap()
    };
    assert!(t1 != signed1);
    assert_eq!(
        book.log_spent(&signed1, &signed_spend(&genesis.key, &signed1)),
        Ok(())
    );
    assert_eq!(book.output_of(&alice.dbc_id()), Some(signed1.outputs[0]));
    assert_eq!(book.output_of(&bob.dbc_id()), Some(signed1.outputs[1]));

    // alice spends her 70
    let carol = book_key();
    let t2 = spend_of(&alice, revealed1[0].revealed_amount, &[(carol, 70)]);
    assert_eq!(book.log_spent(&t2, &signed_spend(&alice, &t2)), Ok(()));
    assert!(book.is_spent(&alice.dbc_id()));
    assert!(!book.is_spent(&bob.dbc_id()));
    assert_eq!(book.output_of(&carol.dbc_id()), Some(t2.outputs[0]));
    let listed = book.iter();
    assert_eq!(listed.len(), 2);
    let mut ids = vec![genesis.key.dbc_id(), alice.dbc_id()];
    ids.sort();
    assert_eq!(listed.iter().map(|(id, _)| *id).collect::<Vec<_>>(), ids);
    for (id, tx) in listed.iter() {
        if *id == alice.dbc_id() {
            assert_eq!(tx.to_bytes(), t2.to_bytes());
        } else {
            assert_eq!(tx.to_bytes(), signed1.to_bytes());
        }
    }

    // bob cannot spend more than his 30
    let t3 = spend_of(&bob, revealed1[1].revealed_amount, &[(book_key(), 31)]);
    assert_eq!(
        book.log_spent(&t3, &signed_spend(&bob, &t3)),
        Err(Error::InconsistentDbcTransaction)
    );
    assert!(!book.is_spent(&bob.dbc_id()));
}

#[test]
fn two_inputs_of_one_transaction_are_logged_one_by_one() {
    let (mut book, genesis) = genesis(100);
    let alice = book_key();
    let bob = book_key();
    let tx = RevealedTx {
        inputs: vec![InputHistory {
            input: RevealedInput::new(genesis.key, genesis.amount),
            input_src_tx: book_empty_tx(),
        }],
        outputs: vec![Output::new(alice.dbc_id(), 70), Output::new(bob.dbc_id(), 30)],
    };
    let (t1, revealed) = tx.sign(OsRng::default()).unwrap();
    assert_eq!(book.log_spent(&t1, &signed_spend(&genesis.key, &t1)), Ok(()));

    let join = RevealedTx {
        inputs: vec![
            InputHistory {
                input: RevealedInput::new(alice, revealed[0].revealed_amount),
                input_src_tx: t1.clone(),
            },
            InputHistory {
                input: RevealedInput::new(bob, revealed[1].revealed_amount),
                input_src_tx: t1.clone(),
            },
        ],
        outputs: vec![Output::new(book_key().dbc_id(), 100)],
    };
    let (t2, _) = join.sign(OsRng::default()).unwrap();
    assert_eq!(book.log_spent(&t2, &signed_spend(&alice, &t2)), Ok(()));
    assert!(book.is_spent(&alice.dbc_id()));
    assert!(!book.is_spent(&bob.dbc_id()));
    assert_eq!(book.log_spent(&t2, &signed_spend(&bob, &t2)), Ok(()));
    assert!(book.is_spent(&bob.dbc_id()));
    assert_eq!(book.spent_in(&alice.dbc_id()), book.spent_in(&bob.dbc_id()));
    assert_eq!(book.iter().len(), 3);
}

#[test]
fn the_first_output_of_an_identity_stays() {
    let (mut book, genesis) = genesis(100);
    let alice = book_key();
    let t1 = spend_of(&genesis.key, genesis.amount, &[(alice, 100)]);
    assert_eq!(book.log_spent(&t1, &signed_spend(&genesis.key, &t1)), Ok(()));
    let first = book.output_of(&alice.dbc_id()).unwrap();
    // a transaction that names alice's identity for an output once more
    let stranger = book_key();
    let forged = DbcTransaction {
        inputs: vec![BlindedInput {
            dbc_id: genesis.key.dbc_id(),
            blinded_amount: genesis.amount.blinded_amount(&PedersenGens::default()),
            signature: stranger.sign(b"nothing"),
        }],
        outputs: spend_of(&stranger, genesis.amount, &[(alice, 1)]).outputs,
    };
    let spend = SignedSpend {
        dbc_id: stranger.dbc_id(),
        spent_tx_hash: forged.hash(),
        derived_key_sig: stranger.sign(b"nothing"),
    };
    assert_eq!(book.log_spent_and_skip_tx_verification(&forged, &spend), Ok(()));
    assert!(book.is_spent(&stranger.dbc_id()));
    assert_eq!(book.output_of(&alice.dbc_id()), Some(first));
}
