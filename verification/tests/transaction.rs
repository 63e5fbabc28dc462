use blsttc::rand::rngs::OsRng;
use blsttc::SecretKey;
use core::cmp::Ordering;
use sn_dbc::amount::{BlindedAmount, PedersenGens, RevealedAmount};
use sn_dbc::error::{Error, RangeProofError};
use sn_dbc::keys::{DbcId, DerivedKey, Signature};
use sn_dbc::range_proof::RangeProof;
use sn_dbc::scalar::BlindingFactor;
use sn_dbc::transaction::input::{BlindedInput, RevealedInput};
use sn_dbc::transaction::output::{BlindedOutput, Output, RevealedOutput};
use sn_dbc::transaction::{
    serialize, sum_blinding_factors, DbcTransaction, InputHistory, RevealedTx,
};
use std::collections::BTreeMap;

fn random_key() -> DerivedKey {
    DerivedKey::from_bytes(SecretKey::random().to_bytes()).unwrap()
}

fn random_blinded_amount(rng: &mut OsRng) -> BlindedAmount {
    RevealedAmount::from_amount(17, rng).blinded_amount(&PedersenGens::default())
}

fn empty_tx() -> DbcTransaction {
    DbcTransaction {
        inputs: vec![],
        outputs: vec![],
    }
}

fn history(value: u64, rng: &mut OsRng) -> InputHistory {
    InputHistory {
        input: RevealedInput::new(random_key(), RevealedAmount::from_amount(value, rng)),
        input_src_tx: empty_tx(),
    }
}

fn revealed_tx(inputs: &[u64], outputs: &[u64], rng: &mut OsRng) -> RevealedTx {
    RevealedTx {
        inputs: inputs.iter().map(|v| history(*v, rng)).collect(),
        outputs: outputs
            .iter()
            .map(|v| Output::new(random_key().dbc_id(), *v))
            .collect(),
    }
}

fn true_amounts(tx: &RevealedTx) -> Vec<BlindedAmount> {
    tx.inputs
        .iter()
        .map(|h| h.input.blinded_amount(&PedersenGens::default()))
        .collect()
}

fn flipped<const N: usize>(bytes: [u8; N], at: usize) -> [u8; N] {
    let mut flipped = bytes;
    flipped[at / 8] ^= 1 << (at % 8);
    flipped
}

#[test]
fn test_input_sign() {
    let mut rng = OsRng::default();
    let pc_gens = PedersenGens::default();
    let tx_amount = 3;

    let revealed_input = RevealedInput {
        derived_key: random_key(),
        revealed_amount: RevealedAmount {
            value: tx_amount,
            blinding_factor: BlindingFactor::from_u64(5),
        },
    };
    // The input src tx is a dummy here.
    let input_history = InputHistory {
        input: revealed_input,
        input_src_tx: DbcTransaction {
            inputs: vec![],
            outputs: vec![],
        },
    };

    let mut blinded_amounts: BTreeMap<DbcId, BlindedAmount> = BTreeMap::new();
    blinded_amounts.insert(
        input_history.dbc_id(),
        input_history.input.revealed_amount.blinded_amount(&pc_gens),
    );
    blinded_amounts.insert(random_key().dbc_id(), random_blinded_amount(&mut rng));
    blinded_amounts.insert(random_key().dbc_id(), random_blinded_amount(&mut rng));

    let revealed_tx = RevealedTx {
        inputs: vec![input_history],
        outputs: vec![Output {
            dbc_id: random_key().dbc_id(),
            amount: tx_amount,
        }],
    };

    let (signed_tx, _revealed_output_amounts) =
        revealed_tx.sign(rng).expect("Failed to sign transaction");

    let blinded_amounts = Vec::from_iter(
        signed_tx
            .inputs
            .iter()
            .map(|input| *blinded_amounts.get(&input.dbc_id()).unwrap()),
    );

    assert!(signed_tx.verify(&blinded_amounts).is_ok());
}

#[test]
fn single_input_single_output_balanced() {
    let mut rng = OsRng::default();
    let tx = revealed_tx(&[100], &[100], &mut rng);
    let (signed, revealed) = tx.sign(rng).unwrap();
    assert_eq!(signed.verify(&true_amounts(&tx)), Ok(()));
    assert_eq!(signed.inputs.len(), 1);
    assert_eq!(signed.outputs.len(), 1);
    assert_eq!(revealed.len(), 1);
    // the one output carries the blinding factor of the input
    assert_eq!(
        revealed[0].revealed_amount,
        tx.inputs[0].input.revealed_amount
    );
    assert_eq!(signed.outputs[0].blinded_amount, signed.inputs[0].blinded_amount);
    assert_eq!(
        BlindedAmount::sum(&[signed.inputs[0].blinded_amount]),
        BlindedAmount::sum(&[signed.outputs[0].blinded_amount])
    );
    assert_eq!(signed.inputs[0].dbc_id, tx.inputs[0].dbc_id());
    assert_eq!(signed.outputs[0].dbc_id, tx.outputs[0].dbc_id);
    assert_eq!(revealed[0].dbc_id, tx.outputs[0].dbc_id);
    assert_eq!(signed.verify_inputs(&true_amounts(&tx)), Ok(()));
    assert_eq!(signed.verify_range_proofs(), Ok(()));
    assert_eq!(signed.verify_balance(), Ok(()));
    assert!(signed.has_unique_input_ids());
}

#[test]
fn split_into_two_outputs() {
    let mut rng = OsRng::default();
    let tx = revealed_tx(&[100], &[70, 30], &mut rng);
    let (signed, revealed) = tx.sign(rng).unwrap();
    assert_eq!(signed.verify(&true_amounts(&tx)), Ok(()));
    assert_eq!(revealed[0].revealed_amount.value, 70);
    assert_eq!(revealed[1].revealed_amount.value, 30);
    // the second blinding factor is that of the input less the first
    let b_in = tx.inputs[0].input.revealed_amount.blinding_factor;
    let b_first = revealed[0].revealed_amount.blinding_factor;
    assert_eq!(revealed[1].revealed_amount.blinding_factor, b_in.minus(&b_first));
    for (output, opened) in signed.outputs.iter().zip(revealed.iter()) {
        assert_eq!(output
                .range_proof
                .verify(&PedersenGens::default(), &output.blinded_amount), Ok(()));
        assert_eq!(output.blinded_amount, opened.revealed_amount.blinded_amount(&PedersenGens::default()));
        assert_eq!(output.dbc_id, opened.dbc_id);
    }
}

#[test]
fn many_inputs_and_outputs_balance() {
    let mut rng = OsRng::default();
    let tx = revealed_tx(&[5, 0, 45], &[20, 0, 29, 1], &mut rng);
    let (signed, revealed) = tx.sign(rng).unwrap();
    assert_eq!(signed.verify(&true_amounts(&tx)), Ok(()));
    let inputs: Vec<RevealedAmount> = tx.inputs.iter().map(|h| h.input.revealed_amount).collect();
    let outputs: Vec<RevealedAmount> = revealed.iter().map(|r| r.revealed_amount).collect();
    assert_eq!(sum_blinding_factors(&outputs), sum_blinding_factors(&inputs));
    for (i, input) in signed.inputs.iter().enumerate() {
        assert_eq!(input.dbc_id, tx.inputs[i].dbc_id());
        assert_eq!(input.blinded_amount, tx.inputs[i].input.blinded_amount(&PedersenGens::default()));
        assert!(input.dbc_id.verify(&input.signature, &signed.serialize_tx()));
    }
}

#[test]
fn overspend_is_detected() {
    let mut rng = OsRng::default();
    let tx = revealed_tx(&[100], &[101], &mut rng);
    let (signed, revealed) = tx.sign(rng).unwrap();
    // the blinding factors balance all the same
    assert_eq!(
        revealed[0].revealed_amount.blinding_factor,
        tx.inputs[0].input.revealed_amount.blinding_factor
    );
    assert_eq!(
        signed.verify(&true_amounts(&tx)),
        Err(Error::InconsistentDbcTransaction)
    );
    assert_eq!(signed.verify_balance(), Err(Error::InconsistentDbcTransaction));
}

#[test]
fn underspend_is_detected() {
    let mut rng = OsRng::default();
    let tx = revealed_tx(&[100, 1], &[50, 50], &mut rng);
    let (signed, _) = tx.sign(rng).unwrap();
    assert_eq!(
        signed.verify(&true_amounts(&tx)),
        Err(Error::InconsistentDbcTransaction)
    );
}

#[test]
fn duplicate_input_is_rejected() {
    let mut rng = OsRng::default();
    let once = history(50, &mut rng);
    let tx = RevealedTx {
        inputs: vec![once.clone(), once],
        outputs: vec![Output::new(random_key().dbc_id(), 100)],
    };
    let (signed, _) = tx.sign(rng).unwrap();
    assert!(!signed.has_unique_input_ids());
    assert_eq!(
        signed.verify(&true_amounts(&tx)),
        Err(Error::DbcIdNotUniqueAcrossInputs)
    );
}

#[test]
fn transaction_without_inputs_is_rejected() {
    let mut rng = OsRng::default();
    let tx = revealed_tx(&[], &[0], &mut rng);
    let (signed, revealed) = tx.sign(rng).unwrap();
    assert_eq!(revealed[0].revealed_amount.blinding_factor, BlindingFactor::zero());
    assert_eq!(signed.verify(&[]), Err(Error::MissingTxInputs));
    assert_eq!(empty_tx().verify(&[]), Err(Error::MissingTxInputs));
}

#[test]
fn transaction_without_outputs_is_signed_and_does_not_balance() {
    let mut rng = OsRng::default();
    let tx = revealed_tx(&[9], &[], &mut rng);
    let (signed, revealed) = tx.sign(rng).unwrap();
    assert!(revealed.is_empty());
    assert!(signed.outputs.is_empty());
    assert_eq!(signed.verify_inputs(&true_amounts(&tx)), Ok(()));
    assert_eq!(
        signed.verify(&true_amounts(&tx)),
        Err(Error::InconsistentDbcTransaction)
    );
}

#[test]
fn another_expected_amount_is_rejected() {
    let mut rng = OsRng::default();
    let tx = revealed_tx(&[10, 20], &[30], &mut rng);
    let (signed, _) = tx.sign(rng).unwrap();
    let mut amounts = true_amounts(&tx);
    amounts.swap(0, 1);
    assert_eq!(
        signed.verify(&amounts),
        Err(Error::InvalidInputBlindedAmount)
    );
    let mut amounts = true_amounts(&tx);
    amounts[1] = random_blinded_amount(&mut OsRng::default());
    assert_eq!(
        signed.verify(&amounts),
        Err(Error::InvalidInputBlindedAmount)
    );
    assert_eq!(
        signed.inputs[1].verify(&signed.serialize_tx(), amounts[1]),
        Err(Error::InvalidInputBlindedAmount)
    );
    // an input for which no amount is expected is refused
    assert_eq!(
        signed.verify_inputs(&true_amounts(&tx)[..1]),
        Err(Error::InvalidInputBlindedAmount)
    );
    assert_eq!(
        signed.verify_inputs(&[]),
        Err(Error::InvalidInputBlindedAmount)
    );
    assert_eq!(
        signed.verify(&true_amounts(&tx)[..1]),
        Err(Error::InvalidInputBlindedAmount)
    );
    assert_eq!(signed.verify(&[]), Err(Error::InvalidInputBlindedAmount));
    // amounts that are expected of no input are not looked at
    let mut more = true_amounts(&tx);
    more.push(random_blinded_amount(&mut OsRng::default()));
    assert_eq!(signed.verify(&more), Ok(()));
}

#[test]
fn no_input_is_skipped() {
    let mut rng = OsRng::default();
    let tx = revealed_tx(&[10, 20], &[], &mut rng);
    let (signed, _) = tx.sign(rng).unwrap();
    let amounts = true_amounts(&tx);
    let mut unsigned = signed.clone();
    unsigned.inputs[1].signature = random_key().sign(b"something else");
    // the input that is not signed is refused, with or without its amount
    assert_eq!(unsigned.verify(&amounts), Err(Error::InvalidSignature));
    assert_eq!(
        unsigned.verify(&amounts[..1]),
        Err(Error::InvalidInputBlindedAmount)
    );
    assert_eq!(unsigned.verify(&[]), Err(Error::InvalidInputBlindedAmount));
    assert_eq!(
        unsigned.verify_with_range_proofs(&[], Ok(())),
        Err(Error::InvalidInputBlindedAmount)
    );
    // the first input is checked first
    let mut both = unsigned.clone();
    both.inputs[0].signature = random_key().sign(b"something else");
    assert_eq!(both.verify(&amounts[..1]), Err(Error::InvalidSignature));
}

#[test]
fn flipped_bits_are_rejected() {
    let mut rng = OsRng::default();
    let tx = revealed_tx(&[10, 20], &[25, 5], &mut rng);
    let (signed, _) = tx.sign(rng).unwrap();
    let amounts = true_amounts(&tx);
    assert_eq!(signed.verify(&amounts), Ok(()));

    for bit in [0usize, 7, 300, 767] {
        let mut tampered = signed.clone();
        tampered.inputs[1].signature =
            Signature::from_bytes(flipped(signed.inputs[1].signature.to_bytes(), bit));
        assert_eq!(tampered.verify(&amounts), Err(Error::InvalidSignature));
    }
    for bit in [0usize, 100, 255] {
        let mut tampered = signed.clone();
        tampered.inputs[0].blinded_amount =
            BlindedAmount::from_bytes(flipped(signed.inputs[0].blinded_amount.to_bytes(), bit));
        assert_eq!(
            tampered.verify(&amounts),
            Err(Error::InvalidInputBlindedAmount)
        );
    }
    for bit in [0usize, 100, 255] {
        let mut tampered = signed.clone();
        tampered.outputs[1].blinded_amount =
            BlindedAmount::from_bytes(flipped(signed.outputs[1].blinded_amount.to_bytes(), bit));
        assert!(tampered.verify(&amounts).is_err());
    }
    for bit in [0usize, 2000, 5375] {
        let mut tampered = signed.clone();
        tampered.outputs[0].range_proof =
            RangeProof::from_bytes(flipped(signed.outputs[0].range_proof.to_bytes(), bit));
        assert!(tampered.verify(&amounts).is_err());
        assert!(tampered.verify_range_proofs().is_err());
    }
}

#[test]
fn reordering_is_rejected() {
    let mut rng = OsRng::default();
    let tx = revealed_tx(&[10, 20], &[25, 5], &mut rng);
    let (signed, _) = tx.sign(rng).unwrap();
    let amounts = true_amounts(&tx);
    assert_eq!(signed.verify(&amounts), Ok(()));

    let mut swapped_inputs = signed.clone();
    swapped_inputs.inputs.swap(0, 1);
    let mut swapped_amounts = amounts.clone();
    swapped_amounts.swap(0, 1);
    assert_ne!(swapped_inputs.serialize_tx(), signed.serialize_tx());
    assert_eq!(
        swapped_inputs.verify(&swapped_amounts),
        Err(Error::InvalidSignature)
    );
    assert_eq!(
        swapped_inputs.verify(&amounts),
        Err(Error::InvalidInputBlindedAmount)
    );

    let mut swapped_outputs = signed.clone();
    swapped_outputs.outputs.swap(0, 1);
    assert_ne!(swapped_outputs.serialize_tx(), signed.serialize_tx());
    assert_eq!(
        swapped_outputs.verify(&amounts),
        Err(Error::InvalidSignature)
    );
}

#[test]
fn a_refused_range_proof_is_reported() {
    let mut rng = OsRng::default();
    let tx = revealed_tx(&[10], &[10], &mut rng);
    let revealed = tx.adjusted_revealed_outputs(&tx.revealed_input_amounts(), &mut rng);
    let mut blinded = tx.blinded_outputs(&revealed, &mut rng).unwrap();
    // the proof of another amount, signed over as it is
    let other = RevealedAmount::from_amount(10, &mut rng);
    blinded[0].range_proof = RangeProof::prove(&other, &PedersenGens::default(), &mut rng).unwrap().0;
    let signed = tx.sign_over(blinded);
    assert_eq!(signed.verify_inputs(&true_amounts(&tx)), Ok(()));
    assert_eq!(
        signed.verify_range_proofs(),
        Err(RangeProofError::Verification)
    );
    assert_eq!(
        signed.verify(&true_amounts(&tx)),
        Err(Error::RangeProof(RangeProofError::Verification))
    );
    assert_eq!(
        signed.verify_with_range_proofs(&true_amounts(&tx), Ok(())),
        Ok(())
    );
    assert_eq!(
        signed.verify_with_range_proofs(&true_amounts(&tx), Err(RangeProofError::Format)),
        Err(Error::RangeProof(RangeProofError::Format))
    );
    // an error of an input comes first
    assert_eq!(
        signed.verify_with_range_proofs(
            &[random_blinded_amount(&mut rng)],
            Err(RangeProofError::Format)
        ),
        Err(Error::InvalidInputBlindedAmount)
    );
}

#[test]
fn an_amount_that_encodes_no_point_is_reported() {
    let key = random_key();
    let bad = BlindedAmount::from_bytes([0xff; 32]);
    let msg = serialize(&[key.dbc_id()], &[bad], &[]);
    let tx = DbcTransaction {
        inputs: vec![BlindedInput {
            dbc_id: key.dbc_id(),
            blinded_amount: bad,
            signature: key.sign(&msg),
        }],
        outputs: vec![],
    };
    assert_eq!(tx.serialize_tx(), msg);
    assert_eq!(
        tx.verify(&[bad]),
        Err(Error::FailedToDecompressBlindedAmount)
    );
}

#[test]
fn revealed_outputs_take_the_given_blinding_factors() {
    let mut rng = OsRng::default();
    let tx = revealed_tx(&[10, 20], &[7, 8, 15], &mut rng);
    let inputs = tx.revealed_input_amounts();
    let given = [BlindingFactor::from_u64(3), BlindingFactor::from_u64(4)];
    let revealed = tx.revealed_outputs_with(&inputs, &given);
    assert_eq!(revealed.len(), 3);
    assert_eq!(revealed[0].revealed_amount.blinding_factor, given[0]);
    assert_eq!(revealed[1].revealed_amount.blinding_factor, given[1]);
    let b_in = inputs[0].blinding_factor.plus(&inputs[1].blinding_factor);
    assert_eq!(
        revealed[2].revealed_amount.blinding_factor,
        b_in.minus(&BlindingFactor::from_u64(7))
    );
    assert_eq!(
        revealed.iter().map(|r| r.revealed_amount.value).collect::<Vec<_>>(),
        vec![7, 8, 15]
    );
    assert_eq!(
        revealed.iter().map(|r| r.dbc_id).collect::<Vec<_>>(),
        tx.outputs.iter().map(|o| o.dbc_id).collect::<Vec<_>>()
    );
    // without outputs there is nothing to adjust
    let none = revealed_tx(&[10], &[], &mut rng);
    assert!(none
        .revealed_outputs_with(&none.revealed_input_amounts(), &[])
        .is_empty());
    assert!(none
        .adjusted_revealed_outputs(&none.revealed_input_amounts(), &mut rng)
        .is_empty());
}

#[test]
fn sums_of_blinding_factors() {
    let amounts = [
        RevealedAmount {
            value: 1,
            blinding_factor: BlindingFactor::from_u64(100),
        },
        RevealedAmount {
            value: 2,
            blinding_factor: BlindingFactor::from_u64(23),
        },
    ];
    assert_eq!(sum_blinding_factors(&amounts), BlindingFactor::from_u64(123));
    assert_eq!(sum_blinding_factors(&[]), BlindingFactor::zero());
}

#[test]
fn revealed_tx_lists_its_inputs() {
    let mut rng = OsRng::default();
    let tx = revealed_tx(&[1, 2, 3], &[6], &mut rng);
    let ids = tx.input_ids();
    assert_eq!(ids.len(), 3);
    for (i, h) in tx.inputs.iter().enumerate() {
        assert_eq!(ids[i], h.input.derived_key.dbc_id());
        assert_eq!(ids[i], h.input.dbc_id());
        assert_eq!(tx.revealed_input_amounts()[i], *h.input.revealed_amount());
        assert_eq!(
            tx.blinded_input_amounts()[i],
            h.input.revealed_amount.blinded_amount(&PedersenGens::default())
        );
    }
}

#[test]
fn a_revealed_input_signs_as_its_key() {
    let mut rng = OsRng::default();
    let key = random_key();
    let amount = RevealedAmount::from_amount(12, &mut rng);
    let input = RevealedInput::new(key, amount);
    assert_eq!(input.derived_key, key);
    assert_eq!(*input.revealed_amount(), amount);
    let blinded = input.sign(b"message", &PedersenGens::default());
    assert_eq!(blinded.dbc_id(), key.dbc_id());
    assert_eq!(blinded.blinded_amount, amount.blinded_amount(&PedersenGens::default()));
    assert_eq!(blinded.signature, key.sign(b"message"));
    assert_eq!(blinded.verify(b"message", amount.blinded_amount(&PedersenGens::default())), Ok(()));
    assert_eq!(
        blinded.verify(b"massage", amount.blinded_amount(&PedersenGens::default())),
        Err(Error::InvalidSignature)
    );
    // the amount is checked before the signature
    assert_eq!(
        blinded.verify(b"massage", random_blinded_amount(&mut rng)),
        Err(Error::InvalidInputBlindedAmount)
    );
}

#[test]
fn outputs_keep_what_they_are_made_of() {
    let mut rng = OsRng::default();
    let id = random_key().dbc_id();
    let output = Output::new(id, 55);
    assert_eq!(*output.dbc_id(), id);
    assert_eq!(output.amount, 55);
    assert_eq!(output.revealed_amount(&mut rng).value, 55);
    let amount = RevealedAmount::from_amount(55, &mut rng);
    let revealed = RevealedOutput::new(id, amount);
    assert_eq!(*revealed.dbc_id(), id);
    assert_eq!(*revealed.revealed_amount(), amount);
    let (proof, commitment) = RangeProof::prove(&amount, &PedersenGens::default(), &mut rng).unwrap();
    let blinded = BlindedOutput::new(id, proof, commitment);
    assert_eq!(*blinded.dbc_id(), id);
    assert_eq!(*blinded.range_proof(), proof);
    assert_eq!(blinded.blinded_amount(), commitment);
}

#[test]
fn transactions_are_ordered_by_their_hash() {
    let mut rng = OsRng::default();
    let a = revealed_tx(&[1], &[1], &mut rng).sign(rng).unwrap().0;
    let b = revealed_tx(&[1], &[1], &mut rng).sign(rng).unwrap().0;
    assert_ne!(a.hash(), b.hash());
    assert_eq!(a.cmp(&b), a.hash().cmp(&b.hash()));
    assert_eq!(b.cmp(&a), b.hash().cmp(&a.hash()));
    assert_eq!(a.cmp(&b), b.cmp(&a).reverse());
    assert_eq!(a.cmp(&a), Ordering::Equal);
    assert_eq!(a.partial_cmp(&b), Some(a.cmp(&b)));
    assert_eq!(a < b, a.hash() < b.hash());
    assert_eq!(a.hash().less(&b.hash()), a.hash() < b.hash());
    assert!(a == a.clone());
    assert!(a != b);
}
