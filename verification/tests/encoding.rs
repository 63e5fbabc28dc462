use sn_dbc::amount::BlindedAmount;
use sn_dbc::keys::{DbcId, Signature};
use sn_dbc::range_proof::RangeProof;
use sn_dbc::transaction::input::BlindedInput;
use sn_dbc::transaction::output::BlindedOutput;
use sn_dbc::transaction::{serialize, DbcTransaction};

fn encoding_input(seed: u8) -> BlindedInput {
    BlindedInput {
        dbc_id: DbcId::from_bytes([seed; 48]),
        blinded_amount: BlindedAmount::from_bytes([seed + 1; 32]),
        signature: Signature::from_bytes([seed + 2; 96]),
    }
}

fn encoding_output(seed: u8) -> BlindedOutput {
    BlindedOutput {
        dbc_id: DbcId::from_bytes([seed; 48]),
        range_proof: RangeProof::from_bytes([seed + 1; 672]),
        blinded_amount: BlindedAmount::from_bytes([seed + 2; 32]),
    }
}

#[test]
fn an_input_is_encoded_as_id_amount_signature() {
    let input = encoding_input(10);
    let mut expected = vec![10u8; 48];
    expected.extend([11u8; 32]);
    expected.extend([12u8; 96]);
    assert_eq!(input.to_bytes(), expected);
    assert_eq!(input.to_bytes().len(), 176);
}

#[test]
fn an_output_is_encoded_as_id_proof_amount() {
    let output = encoding_output(20);
    let mut expected = vec![20u8; 48];
    expected.extend([21u8; 672]);
    expected.extend([22u8; 32]);
    assert_eq!(output.to_bytes(), expected);
    assert_eq!(output.to_bytes().len(), 752);
}

#[test]
fn the_signing_message_is_tagged_part_by_part() {
    assert_eq!(
        serialize(&[], &[], &[]),
        b"dbc_idsinput_amountsblinded_outputs".to_vec()
    );
    let tx = DbcTransaction {
        inputs: vec![encoding_input(1), encoding_input(4)],
        outputs: vec![encoding_output(7)],
    };
    let mut expected = b"dbc_ids".to_vec();
    expected.extend([1u8; 48]);
    expected.extend([4u8; 48]);
    expected.extend(b"input_amounts");
    expected.extend([2u8; 32]);
    expected.extend([5u8; 32]);
    expected.extend(b"blinded_outputs");
    expected.extend(encoding_output(7).to_bytes());
    assert_eq!(tx.serialize_tx(), expected);
    assert_eq!(
        serialize(
            &[tx.inputs[0].dbc_id, tx.inputs[1].dbc_id],
            &[tx.inputs[0].blinded_amount, tx.inputs[1].blinded_amount],
            &tx.outputs
        ),
        expected
    );
    // the signatures are no part of it
    let mut resigned = tx.clone();
    resigned.inputs[0].signature = Signature::from_bytes([99; 96]);
    assert_eq!(resigned.serialize_tx(), expected);
}

#[test]
fn the_hashed_encoding_is_tagged_part_by_part() {
    let empty = DbcTransaction {
        inputs: vec![],
        outputs: vec![],
    };
    assert_eq!(empty.to_bytes(), b"inputsoutputsend".to_vec());
    assert_eq!(
        empty.hash().to_bytes().to_vec(),
        vec![
            81, 218, 163, 56, 203, 199, 235, 22, 66, 249, 134, 167, 180, 109, 7, 24, 155, 73,
            135, 190, 18, 222, 79, 73, 190, 250, 171, 106, 196, 15, 93, 196
        ]
    );
    let tx = DbcTransaction {
        inputs: vec![encoding_input(1), encoding_input(4)],
        outputs: vec![encoding_output(7), encoding_output(10)],
    };
    let mut expected = b"inputs".to_vec();
    expected.extend(encoding_input(1).to_bytes());
    expected.extend(encoding_input(4).to_bytes());
    expected.extend(b"outputs");
    expected.extend(encoding_output(7).to_bytes());
    expected.extend(encoding_output(10).to_bytes());
    expected.extend(b"end");
    assert_eq!(tx.to_bytes(), expected);
    assert_eq!(tx.hash(), sn_dbc::hash::Hash::of(&expected));
    // the two encodings differ
    assert_ne!(tx.to_bytes(), tx.serialize_tx());
    // the signatures are a part of the hash
    let mut resigned = tx.clone();
    resigned.inputs[0].signature = Signature::from_bytes([99; 96]);
    assert_ne!(resigned.hash(), tx.hash());
    assert!(resigned != tx);
}

#[test]
fn the_hash_is_stable_across_a_round_trip() {
    let tx = DbcTransaction {
        inputs: vec![encoding_input(1), encoding_input(4)],
        outputs: vec![encoding_output(7), encoding_output(10)],
    };
    let read_back = DbcTransaction {
        inputs: tx
            .inputs
            .iter()
            .map(|i| BlindedInput::from_bytes(&i.to_bytes()).unwrap())
            .collect(),
        outputs: tx
            .outputs
            .iter()
            .map(|o| BlindedOutput::from_bytes(&o.to_bytes()).unwrap())
            .collect(),
    };
    assert_eq!(read_back.inputs, tx.inputs);
    assert_eq!(read_back.outputs, tx.outputs);
    assert_eq!(read_back.hash(), tx.hash());
    assert_eq!(read_back.to_bytes(), tx.to_bytes());
    assert!(read_back == tx);
    assert_eq!(tx.clone().hash(), tx.hash());
}

#[test]
fn encodings_of_another_length_are_not_read() {
    assert_eq!(BlindedInput::from_bytes(&[0; 175]), None);
    assert_eq!(BlindedInput::from_bytes(&[0; 177]), None);
    assert_eq!(BlindedInput::from_bytes(&[]), None);
    assert_eq!(BlindedOutput::from_bytes(&[0; 751]), None);
    assert_eq!(BlindedOutput::from_bytes(&[0; 753]), None);
    let mut bytes = vec![1u8; 48];
    bytes.extend([2u8; 32]);
    bytes.extend([3u8; 96]);
    assert_eq!(
        BlindedInput::from_bytes(&bytes),
        Some(BlindedInput {
            dbc_id: DbcId::from_bytes([1; 48]),
            blinded_amount: BlindedAmount::from_bytes([2; 32]),
            signature: Signature::from_bytes([3; 96]),
        })
    );
    let mut bytes = vec![1u8; 48];
    bytes.extend([2u8; 672]);
    bytes.extend([3u8; 32]);
    assert_eq!(
        BlindedOutput::from_bytes(&bytes),
        Some(BlindedOutput {
            dbc_id: DbcId::from_bytes([1; 48]),
            range_proof: RangeProof::from_bytes([2; 672]),
            blinded_amount: BlindedAmount::from_bytes([3; 32]),
        })
    );
}
