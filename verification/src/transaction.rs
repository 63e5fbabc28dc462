//! Transactions: their encodings, their hash, how they are signed and how
//! they are verified.

pub mod input;
pub mod order;
pub mod output;

use crate::amount::{sum_of, BlindedAmount, PedersenGens, RevealedAmount};
use crate::bytes::append;
use crate::error::{Error, RangeProofError};
use crate::hash::sha3_256;
use crate::keys::{bls_signature, DbcId};
use crate::range_proof::RangeProof;
use crate::scalar::{group_order, scalar_add, scalar_sub, BlindingFactor};
use crate::transaction::input::{BlindedInput, RevealedInput};
use crate::transaction::output::{BlindedOutput, Output, RevealedOutput};
use blsttc::rand::rngs::OsRng;
use vstd::prelude::*;
use vstd::string::StringSliceAdditionalSpecFns;

verus! {

/// The encodings of `ids`, one after the other.
pub open spec fn concat_ids(ids: Seq<DbcId>) -> Seq<u8>
    decreases ids.len(),
{
    if ids.len() == 0 {
        Seq::empty()
    } else {
        concat_ids(ids.drop_last()) + ids.last()@
    }
}

/// The compressed encodings of `amounts`, one after the other.
pub open spec fn concat_amounts(amounts: Seq<BlindedAmount>) -> Seq<u8>
    decreases amounts.len(),
{
    if amounts.len() == 0 {
        Seq::empty()
    } else {
        concat_amounts(amounts.drop_last()) + amounts.last()@
    }
}

/// The encodings of `inputs`, one after the other.
pub open spec fn concat_inputs(inputs: Seq<BlindedInput>) -> Seq<u8>
    decreases inputs.len(),
{
    if inputs.len() == 0 {
        Seq::empty()
    } else {
        concat_inputs(inputs.drop_last()) + inputs.last().spec_to_bytes()
    }
}

/// The encodings of `outputs`, one after the other.
pub open spec fn concat_outputs(outputs: Seq<BlindedOutput>) -> Seq<u8>
    decreases outputs.len(),
{
    if outputs.len() == 0 {
        Seq::empty()
    } else {
        concat_outputs(outputs.drop_last()) + outputs.last().spec_to_bytes()
    }
}

/// The message that the inputs of a transaction sign: the identities of
/// the inputs, their blinded amounts and the blinded outputs, each part
/// under its tag.
pub open spec fn signing_bytes(
    dbc_ids: Seq<DbcId>,
    input_amounts: Seq<BlindedAmount>,
    blinded_outputs: Seq<BlindedOutput>,
) -> Seq<u8> {
    "dbc_ids".spec_bytes() + concat_ids(dbc_ids) + "input_amounts".spec_bytes() + concat_amounts(
        input_amounts,
    ) + "blinded_outputs".spec_bytes() + concat_outputs(blinded_outputs)
}

/// The identities of `inputs`, in their order.
pub open spec fn ids_of(inputs: Seq<BlindedInput>) -> Seq<DbcId> {
    Seq::new(inputs.len(), |i: int| inputs[i].dbc_id)
}

/// The blinded amounts of `inputs`, in their order.
pub open spec fn amounts_of(inputs: Seq<BlindedInput>) -> Seq<BlindedAmount> {
    Seq::new(inputs.len(), |i: int| inputs[i].blinded_amount)
}

/// The blinded amounts of `outputs`, in their order.
pub open spec fn output_amounts_of(outputs: Seq<BlindedOutput>) -> Seq<BlindedAmount> {
    Seq::new(outputs.len(), |i: int| outputs[i].blinded_amount)
}

/// Whether `output` carries the encoding of a range proof and a blinded
/// amount that is a point.
pub open spec fn output_well_formed(output: BlindedOutput) -> bool {
    crate::range_proof::range_proof_decodes(output.range_proof@)
        && crate::amount::ristretto_decodes(output.blinded_amount@)
}

/// Whether each of `outputs` is well formed.
pub open spec fn outputs_well_formed(outputs: Seq<BlindedOutput>) -> bool {
    forall|j: int| 0 <= j < outputs.len() ==> output_well_formed(#[trigger] outputs[j])
}

/// Whether no identity occurs twice among `inputs`.
pub open spec fn ids_unique(inputs: Seq<BlindedInput>) -> bool {
    forall|i: int, j: int|
        0 <= i < j < inputs.len() ==> (#[trigger] inputs[i]).dbc_id@ != (#[trigger] inputs[j]).dbc_id@
}

/// The first error among the inputs, each checked against `msg` and the
/// blinded amount expected of it, in order. An input for which no amount
/// is expected does not carry the expected amount. Amounts that are
/// expected of no input are not looked at.
pub open spec fn inputs_check(
    inputs: Seq<BlindedInput>,
    msg: Seq<u8>,
    expected: Seq<BlindedAmount>,
) -> Result<(), Error>
    decreases inputs.len(),
{
    if inputs.len() == 0 {
        Ok(())
    } else if expected.len() == 0 {
        Err(Error::InvalidInputBlindedAmount)
    } else {
        match inputs[0].spec_verify(msg, expected[0]) {
            Err(e) => Err(e),
            Ok(()) => inputs_check(inputs.drop_first(), msg, expected.drop_first()),
        }
    }
}

/// The message that is signed: see [`signing_bytes`].
pub fn serialize(
    dbc_ids: &[DbcId],
    input_amounts: &[BlindedAmount],
    blinded_outputs: &[BlindedOutput],
) -> (msg: Vec<u8>)
    ensures
        msg@ == signing_bytes(dbc_ids@, input_amounts@, blinded_outputs@),
{
    let mut msg: Vec<u8> = Vec::new();
    append(&mut msg, "dbc_ids".as_bytes());
    let ghost head = msg@;
    let mut i: usize = 0;
    assert(dbc_ids@.subrange(0, 0) =~= Seq::<DbcId>::empty());
    while i < dbc_ids.len()
        invariant
            i <= dbc_ids@.len(),
            msg@ == head + concat_ids(dbc_ids@.subrange(0, i as int)),
        decreases dbc_ids@.len() - i,
    {
        let ghost next = dbc_ids@.subrange(0, i + 1);
        assert(next.drop_last() =~= dbc_ids@.subrange(0, i as int));
        assert(next.last() == dbc_ids@[i as int]);
        append(&mut msg, dbc_ids[i].bytes.as_slice());
        i += 1;
    }
    assert(dbc_ids@.subrange(0, dbc_ids@.len() as int) =~= dbc_ids@);
    append(&mut msg, "input_amounts".as_bytes());
    let ghost head = msg@;
    let mut i: usize = 0;
    assert(input_amounts@.subrange(0, 0) =~= Seq::<BlindedAmount>::empty());
    while i < input_amounts.len()
        invariant
            i <= input_amounts@.len(),
            msg@ == head + concat_amounts(input_amounts@.subrange(0, i as int)),
        decreases input_amounts@.len() - i,
    {
        let ghost next = input_amounts@.subrange(0, i + 1);
        assert(next.drop_last() =~= input_amounts@.subrange(0, i as int));
        assert(next.last() == input_amounts@[i as int]);
        append(&mut msg, input_amounts[i].bytes.as_slice());
        i += 1;
    }
    assert(input_amounts@.subrange(0, input_amounts@.len() as int) =~= input_amounts@);
    append(&mut msg, "blinded_outputs".as_bytes());
    append_outputs(&mut msg, blinded_outputs);
    msg
}

/// Appends the encodings of `outputs` to `buf`.
fn append_outputs(buf: &mut Vec<u8>, outputs: &[BlindedOutput])
    ensures
        final(buf)@ == old(buf)@ + concat_outputs(outputs@),
{
    let ghost head = buf@;
    let mut i: usize = 0;
    assert(outputs@.subrange(0, 0) =~= Seq::<BlindedOutput>::empty());
    while i < outputs.len()
        invariant
            i <= outputs@.len(),
            buf@ == head + concat_outputs(outputs@.subrange(0, i as int)),
        decreases outputs@.len() - i,
    {
        let ghost next = outputs@.subrange(0, i + 1);
        assert(next.drop_last() =~= outputs@.subrange(0, i as int));
        assert(next.last() == outputs@[i as int]);
        let bytes = outputs[i].to_bytes();
        append(buf, bytes.as_slice());
        i += 1;
    }
    assert(outputs@.subrange(0, outputs@.len() as int) =~= outputs@);
}

/// Appends the encodings of `inputs` to `buf`.
fn append_inputs(buf: &mut Vec<u8>, inputs: &[BlindedInput])
    ensures
        final(buf)@ == old(buf)@ + concat_inputs(inputs@),
{
    let ghost head = buf@;
    let mut i: usize = 0;
    assert(inputs@.subrange(0, 0) =~= Seq::<BlindedInput>::empty());
    while i < inputs.len()
        invariant
            i <= inputs@.len(),
            buf@ == head + concat_inputs(inputs@.subrange(0, i as int)),
        decreases inputs@.len() - i,
    {
        let ghost next = inputs@.subrange(0, i + 1);
        assert(next.drop_last() =~= inputs@.subrange(0, i as int));
        assert(next.last() == inputs@[i as int]);
        let bytes = inputs[i].to_bytes();
        append(buf, bytes.as_slice());
        i += 1;
    }
    assert(inputs@.subrange(0, inputs@.len() as int) =~= inputs@);
}

/// A transaction: the inputs that it spends and the outputs that it
/// creates, all blinded.
#[derive(Debug)]
pub struct DbcTransaction {
    pub inputs: Vec<BlindedInput>,
    pub outputs: Vec<BlindedOutput>,
}

/// What a transaction holds: its inputs and its outputs, in their order.
pub struct TransactionView {
    pub inputs: Seq<BlindedInput>,
    pub outputs: Seq<BlindedOutput>,
}

impl View for DbcTransaction {
    type V = TransactionView;

    open spec fn view(&self) -> TransactionView {
        TransactionView { inputs: self.inputs@, outputs: self.outputs@ }
    }
}

impl TransactionView {
    /// The encoding that is hashed: the inputs and the outputs, each part
    /// under its tag, and a closing tag.
    pub open spec fn to_bytes(self) -> Seq<u8> {
        "inputs".spec_bytes() + concat_inputs(self.inputs) + "outputs".spec_bytes()
            + concat_outputs(self.outputs) + "end".spec_bytes()
    }

    /// The hash of the transaction: the SHA3-256 digest of its encoding.
    pub open spec fn hash(self) -> Seq<u8> {
        sha3_256(self.to_bytes())
    }

    /// The message that the inputs sign.
    pub open spec fn signing_message(self) -> Seq<u8> {
        signing_bytes(ids_of(self.inputs), amounts_of(self.inputs), self.outputs)
    }

    /// What is left to check once the signatures and the range proofs
    /// have passed: that there is an input, that no identity occurs twice
    /// among the inputs, and that the blinded amounts of the inputs and of
    /// the outputs add up to the same group element.
    pub open spec fn balance_check(self) -> Result<(), Error> {
        if self.inputs.len() == 0 {
            Err(Error::MissingTxInputs)
        } else if !ids_unique(self.inputs) {
            Err(Error::DbcIdNotUniqueAcrossInputs)
        } else {
            match (sum_of(amounts_of(self.inputs)), sum_of(output_amounts_of(self.outputs))) {
                (Some(input_sum), Some(output_sum)) => if input_sum == output_sum {
                    Ok(())
                } else {
                    Err(Error::InconsistentDbcTransaction)
                },
                _ => Err(Error::FailedToDecompressBlindedAmount),
            }
        }
    }

    /// What verification returns, given what the check of the range
    /// proofs returned: the first error of an input, else the error of
    /// the range proofs, else the outcome of [`Self::balance_check`].
    pub open spec fn verify(
        self,
        blinded_amounts: Seq<BlindedAmount>,
        range_proofs: Result<(), RangeProofError>,
    ) -> Result<(), Error> {
        match inputs_check(self.inputs, self.signing_message(), blinded_amounts) {
            Err(e) => Err(e),
            Ok(()) => match range_proofs {
                Err(e) => Err(Error::RangeProof(e)),
                Ok(()) => self.balance_check(),
            },
        }
    }
}

impl Clone for DbcTransaction {
    fn clone(&self) -> (r: DbcTransaction)
        ensures
            r@ == self@,
    {
        DbcTransaction {
            inputs: vstd::slice::slice_to_vec(self.inputs.as_slice()),
            outputs: vstd::slice::slice_to_vec(self.outputs.as_slice()),
        }
    }
}

impl DbcTransaction {
    /// The encoding that is hashed.
    pub fn to_bytes(&self) -> (v: Vec<u8>)
        ensures
            v@ == self@.to_bytes(),
    {
        let mut v: Vec<u8> = Vec::new();
        append(&mut v, "inputs".as_bytes());
        append_inputs(&mut v, self.inputs.as_slice());
        append(&mut v, "outputs".as_bytes());
        append_outputs(&mut v, self.outputs.as_slice());
        append(&mut v, "end".as_bytes());
        v
    }

    /// The hash by which the transaction is identified.
    pub fn hash(&self) -> (h: crate::hash::Hash)
        ensures
            h@ == self@.hash(),
    {
        let bytes = self.to_bytes();
        crate::hash::Hash::of(bytes.as_slice())
    }

    /// The message that the inputs sign.
    pub fn serialize_tx(&self) -> (msg: Vec<u8>)
        ensures
            msg@ == self@.signing_message(),
    {
        let mut dbc_ids: Vec<DbcId> = Vec::new();
        let mut input_amounts: Vec<BlindedAmount> = Vec::new();
        let mut i: usize = 0;
        while i < self.inputs.len()
            invariant
                i <= self.inputs@.len(),
                dbc_ids@ =~= ids_of(self.inputs@.subrange(0, i as int)),
                input_amounts@ =~= amounts_of(self.inputs@.subrange(0, i as int)),
            decreases self.inputs@.len() - i,
        {
            dbc_ids.push(self.inputs[i].dbc_id);
            input_amounts.push(self.inputs[i].blinded_amount);
            i += 1;
        }
        assert(self.inputs@.subrange(0, self.inputs@.len() as int) =~= self.inputs@);
        serialize(dbc_ids.as_slice(), input_amounts.as_slice(), self.outputs.as_slice())
    }

    /// Checks each input against the blinded amount expected of it and
    /// against the message that the inputs sign. An input for which no
    /// amount is expected is refused.
    pub fn verify_inputs(&self, blinded_amounts: &[BlindedAmount]) -> (r: Result<(), Error>)
        ensures
            r == inputs_check(self.inputs@, self@.signing_message(), blinded_amounts@),
    {
        let msg = self.serialize_tx();
        let mut i: usize = 0;
        assert(self.inputs@.skip(0) =~= self.inputs@);
        assert(blinded_amounts@.skip(0) =~= blinded_amounts@);
        while i < self.inputs.len()
            invariant
                i <= self.inputs@.len(),
                i <= blinded_amounts@.len(),
                msg@ == self@.signing_message(),
                inputs_check(self.inputs@, msg@, blinded_amounts@) == inputs_check(
                    self.inputs@.skip(i as int),
                    msg@,
                    blinded_amounts@.skip(i as int),
                ),
            decreases self.inputs@.len() - i,
        {
            let ghost rest = self.inputs@.skip(i as int);
            let ghost rest_amounts = blinded_amounts@.skip(i as int);
            if i >= blinded_amounts.len() {
                return Err(Error::InvalidInputBlindedAmount);
            }
            assert(rest[0] == self.inputs@[i as int]);
            assert(rest_amounts[0] == blinded_amounts@[i as int]);
            assert(rest.drop_first() =~= self.inputs@.skip(i + 1));
            assert(rest_amounts.drop_first() =~= blinded_amounts@.skip(i + 1));
            match self.inputs[i].verify(msg.as_slice(), blinded_amounts[i]) {
                Err(e) => {
                    return Err(e);
                },
                Ok(()) => {},
            }
            i += 1;
        }
        Ok(())
    }

    /// Checks the range proof of each output against the output's blinded
    /// amount, each under a fresh transcript, and returns the first error.
    /// Without outputs there is nothing to refuse. The check of a proof
    /// draws a random challenge; whatever is drawn, the proofs pass only
    /// where each output carries the encoding of a range proof and a
    /// blinded amount that is a point.
    pub fn verify_range_proofs(&self) -> (r: Result<(), RangeProofError>)
        ensures
            self.outputs@.len() == 0 ==> r is Ok,
            r is Ok ==> outputs_well_formed(self.outputs@),
    {
        let pc_gens = RevealedTx::pc_gens();
        let mut i: usize = 0;
        while i < self.outputs.len()
            invariant
                i <= self.outputs@.len(),
                forall|j: int| 0 <= j < i ==> output_well_formed(#[trigger] self.outputs@[j]),
            decreases self.outputs@.len() - i,
        {
            match self.outputs[i].range_proof.verify(&pc_gens, &self.outputs[i].blinded_amount) {
                Err(e) => {
                    return Err(e);
                },
                Ok(()) => {},
            }
            i += 1;
        }
        Ok(())
    }

    /// Whether no identity occurs twice among the inputs.
    pub fn has_unique_input_ids(&self) -> (r: bool)
        ensures
            r == ids_unique(self.inputs@),
    {
        let mut j: usize = 0;
        while j < self.inputs.len()
            invariant
                j <= self.inputs@.len(),
                ids_unique(self.inputs@.subrange(0, j as int)),
            decreases self.inputs@.len() - j,
        {
            let mut i: usize = 0;
            while i < j
                invariant
                    i <= j < self.inputs@.len(),
                    forall|k: int| 0 <= k < i ==> (#[trigger] self.inputs@[k]).dbc_id@ != self.inputs@[j as int].dbc_id@,
                decreases j - i,
            {
                if self.inputs[i].dbc_id.same(&self.inputs[j].dbc_id) {
                    return false;
                }
                i += 1;
            }
            assert(ids_unique(self.inputs@.subrange(0, j + 1))) by {
                let s = self.inputs@.subrange(0, j + 1);
                let p = self.inputs@.subrange(0, j as int);
                assert forall|a: int, b: int| 0 <= a < b < s.len() implies (#[trigger] s[a]).dbc_id@ != (#[trigger] s[b]).dbc_id@ by {
                    if b < j {
                        assert(p[a] == s[a] && p[b] == s[b]);
                    } else {
                        assert(s[a] == self.inputs@[a]);
                    }
                }
            }
            j += 1;
        }
        assert(self.inputs@.subrange(0, self.inputs@.len() as int) =~= self.inputs@);
        true
    }

    /// What is left to check once the signatures and the range proofs
    /// have passed.
    pub fn verify_balance(&self) -> (r: Result<(), Error>)
        ensures
            r == self@.balance_check(),
    {
        if self.inputs.len() == 0 {
            return Err(Error::MissingTxInputs);
        }
        if !self.has_unique_input_ids() {
            return Err(Error::DbcIdNotUniqueAcrossInputs);
        }
        let mut input_amounts: Vec<BlindedAmount> = Vec::new();
        let mut i: usize = 0;
        while i < self.inputs.len()
            invariant
                i <= self.inputs@.len(),
                input_amounts@ =~= amounts_of(self.inputs@.subrange(0, i as int)),
            decreases self.inputs@.len() - i,
        {
            input_amounts.push(self.inputs[i].blinded_amount);
            i += 1;
        }
        assert(self.inputs@.subrange(0, self.inputs@.len() as int) =~= self.inputs@);
        let mut output_amounts: Vec<BlindedAmount> = Vec::new();
        let mut i: usize = 0;
        while i < self.outputs.len()
            invariant
                i <= self.outputs@.len(),
                output_amounts@ =~= output_amounts_of(self.outputs@.subrange(0, i as int)),
            decreases self.outputs@.len() - i,
        {
            output_amounts.push(self.outputs[i].blinded_amount);
            i += 1;
        }
        assert(self.outputs@.subrange(0, self.outputs@.len() as int) =~= self.outputs@);
        let input_sum = BlindedAmount::sum(input_amounts.as_slice());
        let output_sum = BlindedAmount::sum(output_amounts.as_slice());
        match (input_sum, output_sum) {
            (Some(a), Some(b)) => if a.same(&b) {
                Ok(())
            } else {
                Err(Error::InconsistentDbcTransaction)
            },
            _ => Err(Error::FailedToDecompressBlindedAmount),
        }
    }

    /// Verification, given what the check of the range proofs returned.
    pub fn verify_with_range_proofs(
        &self,
        blinded_amounts: &[BlindedAmount],
        range_proofs: Result<(), RangeProofError>,
    ) -> (r: Result<(), Error>)
        ensures
            r == self@.verify(blinded_amounts@, range_proofs),
    {
        match self.verify_inputs(blinded_amounts) {
            Err(e) => {
                return Err(e);
            },
            Ok(()) => {},
        }
        match range_proofs {
            Err(e) => Err(Error::RangeProof(e)),
            Ok(()) => self.verify_balance(),
        }
    }

    /// Verifies the transaction against the blinded amounts that the
    /// caller knows of its inputs: each input carries the amount expected
    /// of it and a signature of its own key over this transaction, each
    /// output's range proof holds, there is an input, no identity occurs
    /// twice among the inputs, and inputs and outputs add up to the same.
    ///
    /// The check of a range proof draws a random challenge, so its outcome
    /// is not a function of the transaction; everything else is, and the
    /// result is what [`TransactionView::verify`] gives for some outcome
    /// of that check.
    pub fn verify(&self, blinded_amounts: &[BlindedAmount]) -> (r: Result<(), Error>)
        ensures
            exists|range_proofs: Result<(), RangeProofError>|
                {
                    &&& r == #[trigger] self@.verify(blinded_amounts@, range_proofs)
                    &&& self.outputs@.len() == 0 ==> range_proofs is Ok
                },
    {
        match self.verify_inputs(blinded_amounts) {
            Err(e) => {
                assert(Err::<(), Error>(e) == self@.verify(blinded_amounts@, Ok(())));
                return Err(e);
            },
            Ok(()) => {},
        }
        let range_proofs = self.verify_range_proofs();
        let r = match range_proofs {
            Err(e) => Err(Error::RangeProof(e)),
            Ok(()) => self.verify_balance(),
        };
        assert(r == self@.verify(blinded_amounts@, range_proofs));
        r
    }
}

/// A revealed input together with the transaction that created the token
/// it spends.
#[derive(Debug)]
pub struct InputHistory {
    pub input: RevealedInput,
    pub input_src_tx: DbcTransaction,
}

impl Clone for InputHistory {
    fn clone(&self) -> (r: InputHistory)
        ensures
            r.input == self.input,
            r.input_src_tx@ == self.input_src_tx@,
    {
        InputHistory { input: self.input, input_src_tx: self.input_src_tx.clone() }
    }
}

impl InputHistory {
    /// The identity of the token that the input spends.
    pub fn dbc_id(&self) -> (r: DbcId)
        ensures
            r@ == self.input.derived_key.spec_dbc_id(),
    {
        self.input.dbc_id()
    }
}

/// A transaction before it is signed: the revealed inputs, each with its
/// history, and the intended outputs.
#[derive(Debug)]
pub struct RevealedTx {
    pub inputs: Vec<InputHistory>,
    pub outputs: Vec<Output>,
}

impl Clone for RevealedTx {
    fn clone(&self) -> (r: RevealedTx)
        ensures
            r.outputs@ == self.outputs@,
            r.inputs@.len() == self.inputs@.len(),
            forall|i: int|
                0 <= i < self.inputs@.len() ==> (#[trigger] r.inputs@[i]).input
                    == self.inputs@[i].input && r.inputs@[i].input_src_tx@
                    == self.inputs@[i].input_src_tx@,
    {
        let mut inputs: Vec<InputHistory> = Vec::new();
        let mut i: usize = 0;
        while i < self.inputs.len()
            invariant
                i <= self.inputs@.len(),
                inputs@.len() == i,
                forall|k: int|
                    0 <= k < i ==> (#[trigger] inputs@[k]).input == self.inputs@[k].input
                        && inputs@[k].input_src_tx@ == self.inputs@[k].input_src_tx@,
            decreases self.inputs@.len() - i,
        {
            inputs.push(self.inputs[i].clone());
            i += 1;
        }
        RevealedTx { inputs, outputs: vstd::slice::slice_to_vec(self.outputs.as_slice()) }
    }
}

/// The sum in the scalar field of the blinding factors of `amounts`.
pub open spec fn blinding_sum(amounts: Seq<RevealedAmount>) -> nat
    decreases amounts.len(),
{
    if amounts.len() == 0 {
        0
    } else {
        scalar_add(blinding_sum(amounts.drop_last()), amounts.last().blinding_factor@)
    }
}

/// The revealed amounts of `inputs`, in their order.
pub open spec fn revealed_amounts_of_inputs(inputs: Seq<InputHistory>) -> Seq<RevealedAmount> {
    Seq::new(inputs.len(), |i: int| inputs[i].input.revealed_amount)
}

/// The revealed amounts of `outputs`, in their order.
pub open spec fn revealed_amounts_of(outputs: Seq<RevealedOutput>) -> Seq<RevealedAmount> {
    Seq::new(outputs.len(), |i: int| outputs[i].revealed_amount)
}

/// Whether `revealed` are the outputs `outputs` with blinding factors
/// assigned such that the last one makes up for the difference: each
/// keeps its identity and its value, and the blinding factor of the last
/// is the sum of the blinding factors of `input_amounts` less the sum of
/// those of the outputs before it.
pub open spec fn is_adjusted(
    outputs: Seq<Output>,
    input_amounts: Seq<RevealedAmount>,
    revealed: Seq<RevealedOutput>,
) -> bool {
    &&& revealed.len() == outputs.len()
    &&& forall|j: int|
        0 <= j < outputs.len() ==> (#[trigger] revealed[j]).dbc_id == outputs[j].dbc_id
            && revealed[j].revealed_amount.value == outputs[j].amount
    &&& outputs.len() > 0 ==> revealed.last().revealed_amount.blinding_factor@ == scalar_sub(
        blinding_sum(input_amounts),
        blinding_sum(revealed_amounts_of(revealed.drop_last())),
    )
}

/// Whether `blinded` are the blinded forms of `revealed`: each keeps its
/// identity, carries the commitment to its revealed amount, and carries
/// the encoding of a range proof.
pub open spec fn is_blinding_of(revealed: Seq<RevealedOutput>, blinded: Seq<BlindedOutput>) -> bool {
    &&& blinded.len() == revealed.len()
    &&& forall|j: int|
        0 <= j < revealed.len() ==> (#[trigger] blinded[j]).dbc_id == revealed[j].dbc_id
            && blinded[j].blinded_amount@ == revealed[j].revealed_amount.spec_blinded_amount()
            && crate::range_proof::range_proof_decodes(blinded[j].range_proof@)
}

/// Whether `tx` is `inputs` signed over `outputs`: the outputs are
/// `outputs`, and each input, in the order of `inputs`, carries the
/// identity of its key, the commitment to its amount and the signature of
/// its key over the signing message of `tx`.
pub open spec fn is_signed(
    inputs: Seq<InputHistory>,
    outputs: Seq<BlindedOutput>,
    tx: TransactionView,
) -> bool {
    &&& tx.outputs == outputs
    &&& tx.inputs.len() == inputs.len()
    &&& forall|i: int|
        0 <= i < inputs.len() ==> {
            &&& (#[trigger] tx.inputs[i]).dbc_id@ == inputs[i].input.derived_key.spec_dbc_id()
            &&& tx.inputs[i].blinded_amount@
                == inputs[i].input.revealed_amount.spec_blinded_amount()
            &&& tx.inputs[i].signature@ == bls_signature(
                inputs[i].input.derived_key@,
                tx.signing_message(),
            )
        }
}

/// The sum of a sequence of blinding factors is a reduced scalar.
pub proof fn lemma_blinding_sum_reduced(amounts: Seq<RevealedAmount>)
    ensures
        blinding_sum(amounts) < group_order(),
    decreases amounts.len(),
{
    if amounts.len() > 0 {
        lemma_blinding_sum_reduced(amounts.drop_last());
    }
}

/// The blinding factors of adjusted outputs add up to those of the inputs:
/// the last output makes up for the difference.
pub proof fn lemma_adjusted_outputs_balance(
    outputs: Seq<Output>,
    input_amounts: Seq<RevealedAmount>,
    revealed: Seq<RevealedOutput>,
)
    requires
        outputs.len() > 0,
        is_adjusted(outputs, input_amounts, revealed),
    ensures
        blinding_sum(revealed_amounts_of(revealed)) == blinding_sum(input_amounts),
{
    let all = revealed_amounts_of(revealed);
    let before = revealed_amounts_of(revealed.drop_last());
    assert(all.drop_last() =~= before);
    assert(all.last() == revealed.last().revealed_amount);
    lemma_blinding_sum_reduced(input_amounts);
    lemma_blinding_sum_reduced(before);
}

/// The sum in the scalar field of the blinding factors of `amounts`.
pub fn sum_blinding_factors(amounts: &[RevealedAmount]) -> (r: BlindingFactor)
    ensures
        r@ == blinding_sum(amounts@),
{
    let mut acc = BlindingFactor::zero();
    let mut i: usize = 0;
    assert(amounts@.subrange(0, 0) =~= Seq::<RevealedAmount>::empty());
    while i < amounts.len()
        invariant
            i <= amounts@.len(),
            acc@ == blinding_sum(amounts@.subrange(0, i as int)),
        decreases amounts@.len() - i,
    {
        let ghost next = amounts@.subrange(0, i + 1);
        assert(next.drop_last() =~= amounts@.subrange(0, i as int));
        assert(next.last() == amounts@[i as int]);
        acc = acc.plus(&amounts[i].blinding_factor);
        i += 1;
    }
    assert(amounts@.subrange(0, amounts@.len() as int) =~= amounts@);
    acc
}

impl RevealedTx {
    /// The generators under which the amounts of a transaction are
    /// committed to: the default ones.
    pub fn pc_gens() -> (r: PedersenGens)
        ensures
            r.is_default(),
    {
        PedersenGens::default()
    }

    /// The identities of the inputs, in their order.
    pub fn input_ids(&self) -> (r: Vec<DbcId>)
        ensures
            r@.len() == self.inputs@.len(),
            forall|i: int|
                0 <= i < r@.len() ==> (#[trigger] r@[i])@
                    == self.inputs@[i].input.derived_key.spec_dbc_id(),
    {
        let mut ids: Vec<DbcId> = Vec::new();
        let mut i: usize = 0;
        while i < self.inputs.len()
            invariant
                i <= self.inputs@.len(),
                ids@.len() == i,
                forall|k: int|
                    0 <= k < i ==> (#[trigger] ids@[k])@
                        == self.inputs@[k].input.derived_key.spec_dbc_id(),
            decreases self.inputs@.len() - i,
        {
            ids.push(self.inputs[i].dbc_id());
            i += 1;
        }
        ids
    }

    /// The revealed amounts of the inputs, in their order.
    pub fn revealed_input_amounts(&self) -> (r: Vec<RevealedAmount>)
        ensures
            r@ == revealed_amounts_of_inputs(self.inputs@),
    {
        let mut amounts: Vec<RevealedAmount> = Vec::new();
        let mut i: usize = 0;
        while i < self.inputs.len()
            invariant
                i <= self.inputs@.len(),
                amounts@ =~= revealed_amounts_of_inputs(self.inputs@.subrange(0, i as int)),
            decreases self.inputs@.len() - i,
        {
            amounts.push(self.inputs[i].input.revealed_amount);
            i += 1;
        }
        assert(self.inputs@.subrange(0, self.inputs@.len() as int) =~= self.inputs@);
        amounts
    }

    /// The commitments to the amounts of the inputs, in their order.
    pub fn blinded_input_amounts(&self) -> (r: Vec<BlindedAmount>)
        ensures
            r@.len() == self.inputs@.len(),
            forall|i: int|
                0 <= i < r@.len() ==> (#[trigger] r@[i])@
                    == self.inputs@[i].input.revealed_amount.spec_blinded_amount(),
    {
        let pc_gens = Self::pc_gens();
        let mut amounts: Vec<BlindedAmount> = Vec::new();
        let mut i: usize = 0;
        while i < self.inputs.len()
            invariant
                i <= self.inputs@.len(),
                pc_gens.is_default(),
                amounts@.len() == i,
                forall|k: int|
                    0 <= k < i ==> (#[trigger] amounts@[k])@
                        == self.inputs@[k].input.revealed_amount.spec_blinded_amount(),
            decreases self.inputs@.len() - i,
        {
            amounts.push(self.inputs[i].input.blinded_amount(&pc_gens));
            i += 1;
        }
        amounts
    }

    /// The outputs with their blinding factors: `blindings` for all but
    /// the last, and for the last the sum of the blinding factors of the
    /// inputs less the sum of `blindings`, so that the blinding factors of
    /// inputs and outputs add up to the same. Without outputs there is
    /// nothing to adjust.
    pub fn revealed_outputs_with(
        &self,
        revealed_input_amounts: &[RevealedAmount],
        blindings: &[BlindingFactor],
    ) -> (r: Vec<RevealedOutput>)
        requires
            self.outputs@.len() > 0 ==> blindings@.len() == self.outputs@.len() - 1,
        ensures
            is_adjusted(self.outputs@, revealed_input_amounts@, r@),
            forall|j: int|
                0 <= j < self.outputs@.len() - 1 ==> (#[trigger] r@[j]).revealed_amount.blinding_factor
                    == blindings@[j],
    {
        let mut revealed_outputs: Vec<RevealedOutput> = Vec::new();
        if self.outputs.len() == 0 {
            return revealed_outputs;
        }
        let last = self.outputs.len() - 1;
        let mut output_sum = BlindingFactor::zero();
        let mut j: usize = 0;
        assert(revealed_amounts_of(revealed_outputs@) =~= Seq::<RevealedAmount>::empty());
        while j < last
            invariant
                j <= last,
                last == self.outputs@.len() - 1,
                blindings@.len() == last,
                revealed_outputs@.len() == j,
                output_sum@ == blinding_sum(revealed_amounts_of(revealed_outputs@)),
                forall|k: int|
                    0 <= k < j ==> {
                        &&& (#[trigger] revealed_outputs@[k]).dbc_id == self.outputs@[k].dbc_id
                        &&& revealed_outputs@[k].revealed_amount.value == self.outputs@[k].amount
                        &&& revealed_outputs@[k].revealed_amount.blinding_factor == blindings@[k]
                    },
            decreases last - j,
        {
            let ghost before = revealed_outputs@;
            let revealed_amount = RevealedAmount {
                value: self.outputs[j].amount,
                blinding_factor: blindings[j],
            };
            output_sum = output_sum.plus(&blindings[j]);
            revealed_outputs.push(RevealedOutput { dbc_id: self.outputs[j].dbc_id, revealed_amount });
            proof {
                let now = revealed_amounts_of(revealed_outputs@);
                assert(now.drop_last() =~= revealed_amounts_of(before));
                assert(now.last() == revealed_amount);
            }
            j += 1;
        }
        let input_sum = sum_blinding_factors(revealed_input_amounts);
        let correction = input_sum.minus(&output_sum);
        let ghost before = revealed_outputs@;
        revealed_outputs.push(
            RevealedOutput {
                dbc_id: self.outputs[last].dbc_id,
                revealed_amount: RevealedAmount {
                    value: self.outputs[last].amount,
                    blinding_factor: correction,
                },
            },
        );
        assert(revealed_outputs@.drop_last() =~= before);
        revealed_outputs
    }

    /// The outputs with their blinding factors: a fresh random one for
    /// each but the last, and for the last the one that makes the blinding
    /// factors of inputs and outputs add up to the same.
    pub fn adjusted_revealed_outputs(
        &self,
        revealed_input_amounts: &[RevealedAmount],
        rng: &mut OsRng,
    ) -> (r: Vec<RevealedOutput>)
        ensures
            is_adjusted(self.outputs@, revealed_input_amounts@, r@),
    {
        let mut blindings: Vec<BlindingFactor> = Vec::new();
        if self.outputs.len() > 0 {
            let last = self.outputs.len() - 1;
            let mut j: usize = 0;
            while j < last
                invariant
                    j <= last,
                    blindings@.len() == j,
                decreases last - j,
            {
                blindings.push(BlindingFactor::random(rng));
                j += 1;
            }
        }
        self.revealed_outputs_with(revealed_input_amounts, blindings.as_slice())
    }

    /// The blinded form of each revealed output, with a range proof made
    /// under a fresh transcript.
    pub fn blinded_outputs(&self, revealed_outputs: &[RevealedOutput], rng: &mut OsRng) -> (r:
        Result<Vec<BlindedOutput>, Error>)
        ensures
            r matches Ok(blinded) ==> is_blinding_of(revealed_outputs@, blinded@),
            r matches Err(e) ==> e is RangeProof,
            revealed_outputs@.len() == 0 ==> r is Ok,
    {
        let pc_gens = Self::pc_gens();
        let mut blinded: Vec<BlindedOutput> = Vec::new();
        let mut j: usize = 0;
        while j < revealed_outputs.len()
            invariant
                j <= revealed_outputs@.len(),
                pc_gens.is_default(),
                is_blinding_of(revealed_outputs@.subrange(0, j as int), blinded@),
            decreases revealed_outputs@.len() - j,
        {
            match RangeProof::prove(&revealed_outputs[j].revealed_amount, &pc_gens, rng) {
                Err(e) => {
                    return Err(Error::RangeProof(e));
                },
                Ok((range_proof, blinded_amount)) => {
                    blinded.push(
                        BlindedOutput {
                            dbc_id: revealed_outputs[j].dbc_id,
                            range_proof,
                            blinded_amount,
                        },
                    );
                },
            }
            j += 1;
        }
        assert(revealed_outputs@.subrange(0, revealed_outputs@.len() as int) =~= revealed_outputs@);
        Ok(blinded)
    }

    /// The transaction that has `blinded_outputs` as its outputs and each
    /// input signed over it, in the order of the revealed inputs.
    pub fn sign_over(&self, blinded_outputs: Vec<BlindedOutput>) -> (tx: DbcTransaction)
        ensures
            is_signed(self.inputs@, blinded_outputs@, tx@),
    {
        let input_ids = self.input_ids();
        let input_amounts = self.blinded_input_amounts();
        let msg = serialize(
            input_ids.as_slice(),
            input_amounts.as_slice(),
            blinded_outputs.as_slice(),
        );
        let pc_gens = Self::pc_gens();
        let mut blinded_inputs: Vec<BlindedInput> = Vec::new();
        let mut i: usize = 0;
        while i < self.inputs.len()
            invariant
                i <= self.inputs@.len(),
                pc_gens.is_default(),
                blinded_inputs@.len() == i,
                forall|k: int|
                    0 <= k < i ==> {
                        &&& (#[trigger] blinded_inputs@[k]).dbc_id@
                            == self.inputs@[k].input.derived_key.spec_dbc_id()
                        &&& blinded_inputs@[k].blinded_amount@
                            == self.inputs@[k].input.revealed_amount.spec_blinded_amount()
                        &&& blinded_inputs@[k].signature@ == bls_signature(
                            self.inputs@[k].input.derived_key@,
                            msg@,
                        )
                    },
            decreases self.inputs@.len() - i,
        {
            blinded_inputs.push(self.inputs[i].input.sign(msg.as_slice(), &pc_gens));
            i += 1;
        }
        let tx = DbcTransaction { inputs: blinded_inputs, outputs: blinded_outputs };
        proof {
            assert(ids_of(tx@.inputs) =~= input_ids@) by {
                assert forall|k: int| 0 <= k < input_ids@.len() implies ids_of(tx@.inputs)[k]
                    == input_ids@[k] by {
                    assert(tx@.inputs[k].dbc_id@ =~= input_ids@[k]@);
                    assert(tx@.inputs[k].dbc_id.bytes == input_ids@[k].bytes);
                }
            }
            assert(amounts_of(tx@.inputs) =~= input_amounts@) by {
                assert forall|k: int| 0 <= k < input_amounts@.len() implies amounts_of(
                    tx@.inputs,
                )[k] == input_amounts@[k] by {
                    assert(tx@.inputs[k].blinded_amount@ =~= input_amounts@[k]@);
                    assert(tx@.inputs[k].blinded_amount.bytes == input_amounts@[k].bytes);
                }
            }
            assert(tx@.signing_message() == msg@);
        }
        tx
    }

    /// Signs the transaction: assigns the blinding factors of the outputs,
    /// the last one such that inputs and outputs balance; proves each
    /// output's amount to be in range; and signs each input over the
    /// message that the verifier rebuilds. Returns the transaction with
    /// the revealed outputs, in the order of the outputs.
    ///
    /// The blinding factors and the proofs depend on `rng`, and the prover
    /// decides whether a proof is made.
    pub fn sign(&self, rng: OsRng) -> (r: Result<(DbcTransaction, Vec<RevealedOutput>), Error>)
        ensures
            r matches Ok((tx, revealed)) ==> {
                &&& is_adjusted(self.outputs@, revealed_amounts_of_inputs(self.inputs@), revealed@)
                &&& is_blinding_of(revealed@, tx@.outputs)
                &&& is_signed(self.inputs@, tx@.outputs, tx@)
            },
            r matches Err(e) ==> e is RangeProof,
            self.outputs@.len() == 0 ==> r is Ok,
    {
        let mut rng = rng;
        let revealed_input_amounts = self.revealed_input_amounts();
        let adjusted_revealed_outputs = self.adjusted_revealed_outputs(
            revealed_input_amounts.as_slice(),
            &mut rng,
        );
        let blinded_outputs = match self.blinded_outputs(
            adjusted_revealed_outputs.as_slice(),
            &mut rng,
        ) {
            Ok(blinded) => blinded,
            Err(e) => {
                return Err(e);
            },
        };
        let tx = self.sign_over(blinded_outputs);
        Ok((tx, adjusted_revealed_outputs))
    }
}

/// Where the check of the inputs passes, each input has an expected
/// blinded amount and passes on its own.
pub proof fn lemma_inputs_check_passes_each(
    inputs: Seq<BlindedInput>,
    msg: Seq<u8>,
    expected: Seq<BlindedAmount>,
    i: int,
)
    requires
        inputs_check(inputs, msg, expected) is Ok,
        0 <= i < inputs.len(),
    ensures
        i < expected.len(),
        inputs[i].spec_verify(msg, expected[i]) is Ok,
    decreases inputs.len(),
{
    if i > 0 {
        lemma_inputs_check_passes_each(inputs.drop_first(), msg, expected.drop_first(), i - 1);
    }
}

/// Where each input has an expected blinded amount and passes on its
/// own, the check of the inputs passes.
pub proof fn lemma_inputs_check_passes(
    inputs: Seq<BlindedInput>,
    msg: Seq<u8>,
    expected: Seq<BlindedAmount>,
)
    requires
        inputs.len() <= expected.len(),
        forall|i: int|
            0 <= i < inputs.len() && i < expected.len() ==> (#[trigger] inputs[i]).spec_verify(
                msg,
                expected[i],
            ) is Ok,
    ensures
        inputs_check(inputs, msg, expected) is Ok,
    decreases inputs.len(),
{
    if inputs.len() > 0 && expected.len() > 0 {
        assert(inputs[0].spec_verify(msg, expected[0]) is Ok);
        assert forall|i: int|
            0 <= i < inputs.drop_first().len() && i < expected.drop_first().len() implies (
        #[trigger] inputs.drop_first()[i]).spec_verify(msg, expected.drop_first()[i]) is Ok by {
            assert(inputs.drop_first()[i] == inputs[i + 1]);
            assert(inputs[i + 1].spec_verify(msg, expected[i + 1]) is Ok);
        }
        lemma_inputs_check_passes(inputs.drop_first(), msg, expected.drop_first());
    }
}

/// What acceptance means: a transaction is accepted only where the range
/// proofs passed, each input has an expected blinded amount, carries it
/// and is signed by its own key over the signing message, there is an
/// input, no identity occurs twice among the inputs, and the blinded
/// amounts of inputs and outputs add up to the same group element. So a
/// transaction in which one of these is changed is rejected.
pub proof fn lemma_accepted_transaction(
    tx: TransactionView,
    blinded_amounts: Seq<BlindedAmount>,
    range_proofs: Result<(), RangeProofError>,
)
    requires
        tx.verify(blinded_amounts, range_proofs) is Ok,
    ensures
        range_proofs is Ok,
        tx.inputs.len() <= blinded_amounts.len(),
        forall|i: int|
            0 <= i < tx.inputs.len() ==> (#[trigger] tx.inputs[i]).blinded_amount@
                == blinded_amounts[i]@ && crate::keys::bls_verifies(
                tx.inputs[i].dbc_id@,
                tx.inputs[i].signature@,
                tx.signing_message(),
            ),
        tx.inputs.len() > 0,
        ids_unique(tx.inputs),
        sum_of(amounts_of(tx.inputs)) is Some,
        sum_of(amounts_of(tx.inputs)) == sum_of(output_amounts_of(tx.outputs)),
{
    lemma_inputs_check_passes_each(
        tx.inputs,
        tx.signing_message(),
        blinded_amounts,
        tx.inputs.len() - 1,
    );
    assert forall|i: int| 0 <= i < tx.inputs.len() implies (#[trigger] tx.inputs[i]).blinded_amount@
        == blinded_amounts[i]@ && crate::keys::bls_verifies(
        tx.inputs[i].dbc_id@,
        tx.inputs[i].signature@,
        tx.signing_message(),
    ) by {
        lemma_inputs_check_passes_each(tx.inputs, tx.signing_message(), blinded_amounts, i);
    }
}

/// No input is skipped: an input for which no blinded amount is expected,
/// or whose signature does not match the signing message under its own
/// key, makes the verification fail, wherever among the inputs it stands.
pub proof fn lemma_unsigned_input_is_rejected(
    tx: TransactionView,
    blinded_amounts: Seq<BlindedAmount>,
    range_proofs: Result<(), RangeProofError>,
    i: int,
)
    requires
        0 <= i < tx.inputs.len(),
        i >= blinded_amounts.len() || !crate::keys::bls_verifies(
            tx.inputs[i].dbc_id@,
            tx.inputs[i].signature@,
            tx.signing_message(),
        ),
    ensures
        tx.verify(blinded_amounts, range_proofs) is Err,
{
    if tx.verify(blinded_amounts, range_proofs) is Ok {
        lemma_accepted_transaction(tx, blinded_amounts, range_proofs);
    }
}

/// An input that carries another blinded amount than the one expected of
/// it makes the verification fail.
pub proof fn lemma_changed_input_amount_is_rejected(
    tx: TransactionView,
    blinded_amounts: Seq<BlindedAmount>,
    range_proofs: Result<(), RangeProofError>,
    i: int,
)
    requires
        0 <= i < tx.inputs.len(),
        i < blinded_amounts.len(),
        tx.inputs[i].blinded_amount@ != blinded_amounts[i]@,
    ensures
        tx.verify(blinded_amounts, range_proofs) is Err,
{
    if tx.verify(blinded_amounts, range_proofs) is Ok {
        lemma_accepted_transaction(tx, blinded_amounts, range_proofs);
    }
}

/// The signer and the verifier agree on the message: in a transaction
/// that is signed over its outputs, each input carries the commitment to
/// its amount and the signature of its key over the message that the
/// verifier rebuilds. So, against the true commitments of the inputs,
/// where each of these signatures matches under the identity of its key
/// and the range proofs pass, what is left of the verification is the
/// check of the balance.
pub proof fn lemma_signed_transaction_passes_inputs(
    inputs: Seq<InputHistory>,
    tx: TransactionView,
    blinded_amounts: Seq<BlindedAmount>,
)
    requires
        is_signed(inputs, tx.outputs, tx),
        blinded_amounts.len() == inputs.len(),
        forall|i: int|
            0 <= i < inputs.len() ==> (#[trigger] blinded_amounts[i])@
                == inputs[i].input.revealed_amount.spec_blinded_amount(),
        forall|i: int|
            0 <= i < inputs.len() ==> crate::keys::bls_verifies(
                (#[trigger] inputs[i]).input.derived_key.spec_dbc_id(),
                bls_signature(inputs[i].input.derived_key@, tx.signing_message()),
                tx.signing_message(),
            ),
    ensures
        inputs_check(tx.inputs, tx.signing_message(), blinded_amounts) is Ok,
        tx.verify(blinded_amounts, Ok(())) == tx.balance_check(),
{
    assert forall|i: int| 0 <= i < tx.inputs.len() && i < blinded_amounts.len() implies (
    #[trigger] tx.inputs[i]).spec_verify(tx.signing_message(), blinded_amounts[i]) is Ok by {
        assert(crate::keys::bls_verifies(
            inputs[i].input.derived_key.spec_dbc_id(),
            bls_signature(inputs[i].input.derived_key@, tx.signing_message()),
            tx.signing_message(),
        ));
    }
    lemma_inputs_check_passes(tx.inputs, tx.signing_message(), blinded_amounts);
}

/// The hash goes by the encodings: two transactions whose inputs and
/// outputs have the same encodings, one by one, are the same transaction
/// and have the same hash. So the hash of a transaction is that of the
/// transaction read back from the encodings of its inputs and outputs.
pub proof fn lemma_hash_is_stable(tx: TransactionView, other: TransactionView)
    requires
        other.inputs.len() == tx.inputs.len(),
        other.outputs.len() == tx.outputs.len(),
        forall|i: int|
            0 <= i < tx.inputs.len() ==> (#[trigger] other.inputs[i]).spec_to_bytes()
                == tx.inputs[i].spec_to_bytes(),
        forall|j: int|
            0 <= j < tx.outputs.len() ==> (#[trigger] other.outputs[j]).spec_to_bytes()
                == tx.outputs[j].spec_to_bytes(),
    ensures
        other == tx,
        other.hash() == tx.hash(),
{
    assert forall|i: int| 0 <= i < tx.inputs.len() implies other.inputs[i] == tx.inputs[i] by {
        BlindedInput::lemma_encoding_is_injective(other.inputs[i], tx.inputs[i]);
    }
    assert forall|j: int| 0 <= j < tx.outputs.len() implies other.outputs[j] == tx.outputs[j] by {
        BlindedOutput::lemma_encoding_is_injective(other.outputs[j], tx.outputs[j]);
    }
    assert(other.inputs =~= tx.inputs);
    assert(other.outputs =~= tx.outputs);
}

/// The encodings of identities have one length, so each identity can be
/// read back from their concatenation.
pub proof fn lemma_concat_ids(ids: Seq<DbcId>)
    ensures
        concat_ids(ids).len() == 48 * ids.len(),
        forall|k: int|
            0 <= k < ids.len() ==> concat_ids(ids).subrange(48 * k, 48 * k + 48) == (
            #[trigger] ids[k])@,
    decreases ids.len(),
{
    if ids.len() > 0 {
        let before = ids.drop_last();
        lemma_concat_ids(before);
        assert forall|k: int| 0 <= k < ids.len() implies concat_ids(ids).subrange(
            48 * k,
            48 * k + 48,
        ) == (#[trigger] ids[k])@ by {
            if k < before.len() {
                assert(before[k] == ids[k]);
                assert(concat_ids(ids).subrange(48 * k, 48 * k + 48) =~= concat_ids(
                    before,
                ).subrange(48 * k, 48 * k + 48));
            } else {
                assert(concat_ids(ids).subrange(48 * k, 48 * k + 48) =~= ids.last()@);
            }
        }
    }
}

/// The encodings of blinded amounts have one length, so each amount can
/// be read back from their concatenation.
pub proof fn lemma_concat_amounts(amounts: Seq<BlindedAmount>)
    ensures
        concat_amounts(amounts).len() == 32 * amounts.len(),
        forall|k: int|
            0 <= k < amounts.len() ==> concat_amounts(amounts).subrange(32 * k, 32 * k + 32) == (
            #[trigger] amounts[k])@,
    decreases amounts.len(),
{
    if amounts.len() > 0 {
        let before = amounts.drop_last();
        lemma_concat_amounts(before);
        assert forall|k: int| 0 <= k < amounts.len() implies concat_amounts(amounts).subrange(
            32 * k,
            32 * k + 32,
        ) == (#[trigger] amounts[k])@ by {
            if k < before.len() {
                assert(before[k] == amounts[k]);
                assert(concat_amounts(amounts).subrange(32 * k, 32 * k + 32) =~= concat_amounts(
                    before,
                ).subrange(32 * k, 32 * k + 32));
            } else {
                assert(concat_amounts(amounts).subrange(32 * k, 32 * k + 32) =~= amounts.last()@);
            }
        }
    }
}

/// The encodings of outputs have one length, so each output's encoding
/// can be read back from their concatenation.
pub proof fn lemma_concat_outputs(outputs: Seq<BlindedOutput>)
    ensures
        concat_outputs(outputs).len() == 752 * outputs.len(),
        forall|k: int|
            0 <= k < outputs.len() ==> concat_outputs(outputs).subrange(752 * k, 752 * k + 752) == (
            #[trigger] outputs[k]).spec_to_bytes(),
    decreases outputs.len(),
{
    if outputs.len() > 0 {
        let before = outputs.drop_last();
        lemma_concat_outputs(before);
        assert forall|k: int| 0 <= k < outputs.len() implies concat_outputs(outputs).subrange(
            752 * k,
            752 * k + 752,
        ) == (#[trigger] outputs[k]).spec_to_bytes() by {
            if k < before.len() {
                assert(before[k] == outputs[k]);
                assert(concat_outputs(outputs).subrange(752 * k, 752 * k + 752) =~= concat_outputs(
                    before,
                ).subrange(752 * k, 752 * k + 752));
            } else {
                assert(concat_outputs(outputs).subrange(752 * k, 752 * k + 752)
                    =~= outputs.last().spec_to_bytes());
            }
        }
    }
}

/// The signing message fixes the order: two transactions with as many
/// inputs and as many outputs as each other, and with the same signing
/// message, have the same identities and blinded amounts of inputs and
/// the same outputs, place by place. So a transaction whose inputs or
/// outputs are put in another order has another signing message, unless
/// the parts that changed places are the same.
pub proof fn lemma_signing_message_fixes_order(a: TransactionView, b: TransactionView)
    requires
        a.inputs.len() == b.inputs.len(),
        a.outputs.len() == b.outputs.len(),
        a.signing_message() == b.signing_message(),
    ensures
        ids_of(a.inputs) == ids_of(b.inputs),
        amounts_of(a.inputs) == amounts_of(b.inputs),
        a.outputs == b.outputs,
{
    let t1 = "dbc_ids".spec_bytes();
    let t2 = "input_amounts".spec_bytes();
    let t3 = "blinded_outputs".spec_bytes();
    let n = a.inputs.len() as int;
    let m = a.outputs.len() as int;
    let ia = concat_ids(ids_of(a.inputs));
    let ib = concat_ids(ids_of(b.inputs));
    let aa = concat_amounts(amounts_of(a.inputs));
    let ab = concat_amounts(amounts_of(b.inputs));
    let oa = concat_outputs(a.outputs);
    let ob = concat_outputs(b.outputs);
    lemma_concat_ids(ids_of(a.inputs));
    lemma_concat_ids(ids_of(b.inputs));
    lemma_concat_amounts(amounts_of(a.inputs));
    lemma_concat_amounts(amounts_of(b.inputs));
    lemma_concat_outputs(a.outputs);
    lemma_concat_outputs(b.outputs);
    let ma = a.signing_message();
    let mb = b.signing_message();
    let s1 = t1.len() as int;
    let s2 = s1 + 48 * n;
    let s3 = s2 + t2.len();
    let s4 = s3 + 32 * n;
    let s5 = s4 + t3.len();
    let s6 = s5 + 752 * m;
    assert(ma == t1 + ia + t2 + aa + t3 + oa);
    assert(mb == t1 + ib + t2 + ab + t3 + ob);
    assert(ia =~= ma.subrange(s1, s2));
    assert(ib =~= mb.subrange(s1, s2));
    assert(aa =~= ma.subrange(s3, s4));
    assert(ab =~= mb.subrange(s3, s4));
    assert(oa =~= ma.subrange(s5, s6));
    assert(ob =~= mb.subrange(s5, s6));
    assert forall|k: int| 0 <= k < n implies ids_of(a.inputs)[k] == ids_of(b.inputs)[k] by {
        let x = ids_of(a.inputs)[k];
        let y = ids_of(b.inputs)[k];
        assert(x@ == ia.subrange(48 * k, 48 * k + 48));
        assert(y@ == ib.subrange(48 * k, 48 * k + 48));
        assert(x.bytes@ =~= y.bytes@);
        assert(x.bytes == y.bytes);
    }
    assert(ids_of(a.inputs) =~= ids_of(b.inputs));
    assert forall|k: int| 0 <= k < n implies amounts_of(a.inputs)[k] == amounts_of(b.inputs)[k] by {
        let x = amounts_of(a.inputs)[k];
        let y = amounts_of(b.inputs)[k];
        assert(x@ == aa.subrange(32 * k, 32 * k + 32));
        assert(y@ == ab.subrange(32 * k, 32 * k + 32));
        assert(x.bytes@ =~= y.bytes@);
        assert(x.bytes == y.bytes);
    }
    assert(amounts_of(a.inputs) =~= amounts_of(b.inputs));
    assert forall|k: int| 0 <= k < m implies a.outputs[k] == b.outputs[k] by {
        assert(a.outputs[k].spec_to_bytes() == oa.subrange(752 * k, 752 * k + 752));
        assert(b.outputs[k].spec_to_bytes() == ob.subrange(752 * k, 752 * k + 752));
        BlindedOutput::lemma_encoding_is_injective(a.outputs[k], b.outputs[k]);
    }
    assert(a.outputs =~= b.outputs);
}

/// The sum of the values of `amounts`.
pub open spec fn value_sum(amounts: Seq<RevealedAmount>) -> nat
    decreases amounts.len(),
{
    if amounts.len() == 0 {
        0
    } else {
        value_sum(amounts.drop_last()) + amounts.last().value as nat
    }
}

/// That commitments under the default generators add as their openings
/// do: the commitment to nothing under no blinding is the identity, and
/// the sum of two commitments is the commitment to the sum of the values
/// under the sum of the blinding factors. This is the homomorphism of
/// Pedersen commitments. It is a property of the group that the
/// commitments live in, and nothing in the library proves it.
pub open spec fn commitments_add_as_openings() -> bool {
    &&& crate::amount::default_commit(0, 0) == crate::amount::identity_encoding()
    &&& forall|v1: nat, b1: nat, v2: nat, b2: nat|
        #[trigger] crate::amount::ristretto_add(
            crate::amount::default_commit(v1, b1),
            crate::amount::default_commit(v2, b2),
        ) == Some(crate::amount::default_commit(v1 + v2, scalar_add(b1, b2)))
}

/// Where commitments add as their openings do, the sum of the commitments
/// to `amounts` is the commitment to the sum of their values under the
/// sum of their blinding factors.
pub proof fn lemma_sum_of_commitments(
    amounts: Seq<RevealedAmount>,
    commitments: Seq<BlindedAmount>,
)
    requires
        commitments_add_as_openings(),
        commitments.len() == amounts.len(),
        forall|i: int|
            0 <= i < amounts.len() ==> (#[trigger] commitments[i])@
                == amounts[i].spec_blinded_amount(),
    ensures
        sum_of(commitments) == Some(
            crate::amount::default_commit(value_sum(amounts), blinding_sum(amounts)),
        ),
    decreases amounts.len(),
{
    if amounts.len() > 0 {
        let before = amounts.drop_last();
        let before_commitments = commitments.drop_last();
        assert forall|i: int| 0 <= i < before.len() implies (#[trigger] before_commitments[i])@
            == before[i].spec_blinded_amount() by {
            assert(before_commitments[i] == commitments[i]);
            assert(before[i] == amounts[i]);
        }
        lemma_sum_of_commitments(before, before_commitments);
        assert(commitments.last()@ == amounts.last().spec_blinded_amount());
    }
}

/// A signed transaction whose values balance passes the check of the
/// balance, where commitments add as their openings do: in a transaction
/// that is signed over the blinded forms of adjusted outputs, with an
/// input, with inputs of distinct identities, and with values of inputs
/// and outputs that add up to the same, the blinded amounts of inputs and
/// outputs add up to the same group element.
pub proof fn lemma_balanced_transaction_balances(
    inputs: Seq<InputHistory>,
    outputs: Seq<Output>,
    revealed: Seq<RevealedOutput>,
    tx: TransactionView,
)
    requires
        commitments_add_as_openings(),
        outputs.len() > 0,
        is_adjusted(outputs, revealed_amounts_of_inputs(inputs), revealed),
        is_blinding_of(revealed, tx.outputs),
        is_signed(inputs, tx.outputs, tx),
        inputs.len() > 0,
        ids_unique(tx.inputs),
        value_sum(revealed_amounts_of_inputs(inputs)) == value_sum(revealed_amounts_of(revealed)),
    ensures
        tx.balance_check() is Ok,
{
    let input_amounts = revealed_amounts_of_inputs(inputs);
    let output_amounts = revealed_amounts_of(revealed);
    lemma_adjusted_outputs_balance(outputs, input_amounts, revealed);
    lemma_sum_of_commitments(input_amounts, amounts_of(tx.inputs));
    lemma_sum_of_commitments(output_amounts, output_amounts_of(tx.outputs));
}

/// That commitments tell values apart: under the default generators and
/// one blinding factor, two values below the group order with the same
/// commitment are the same value. It is a property of the group that the
/// commitments live in, and nothing in the library proves it.
pub open spec fn commitments_tell_values_apart() -> bool {
    forall|v1: nat, v2: nat, b: nat|
        v1 < group_order() && v2 < group_order() && #[trigger] crate::amount::default_commit(v1, b)
            == #[trigger] crate::amount::default_commit(v2, b) ==> v1 == v2
}

/// A signed transaction whose values do not balance is rejected, where
/// commitments add as their openings do and tell values apart: the
/// blinding factors of inputs and outputs add up to the same, so the
/// blinded amounts add up to commitments to different values under one
/// blinding factor, which differ. Where there is an input and no identity
/// occurs twice among the inputs, the check of the balance gives
/// `InconsistentDbcTransaction`.
pub proof fn lemma_unbalanced_transaction_is_rejected(
    inputs: Seq<InputHistory>,
    outputs: Seq<Output>,
    revealed: Seq<RevealedOutput>,
    tx: TransactionView,
    blinded_amounts: Seq<BlindedAmount>,
    range_proofs: Result<(), RangeProofError>,
)
    requires
        commitments_add_as_openings(),
        commitments_tell_values_apart(),
        outputs.len() > 0,
        is_adjusted(outputs, revealed_amounts_of_inputs(inputs), revealed),
        is_blinding_of(revealed, tx.outputs),
        is_signed(inputs, tx.outputs, tx),
        value_sum(revealed_amounts_of_inputs(inputs)) != value_sum(revealed_amounts_of(revealed)),
        value_sum(revealed_amounts_of_inputs(inputs)) < group_order(),
        value_sum(revealed_amounts_of(revealed)) < group_order(),
    ensures
        tx.balance_check() is Err,
        tx.verify(blinded_amounts, range_proofs) is Err,
        inputs.len() > 0 && ids_unique(tx.inputs) ==> tx.balance_check() == Err::<(), Error>(
            Error::InconsistentDbcTransaction,
        ),
{
    let input_amounts = revealed_amounts_of_inputs(inputs);
    let output_amounts = revealed_amounts_of(revealed);
    lemma_adjusted_outputs_balance(outputs, input_amounts, revealed);
    lemma_sum_of_commitments(input_amounts, amounts_of(tx.inputs));
    lemma_sum_of_commitments(output_amounts, output_amounts_of(tx.outputs));
    let b = blinding_sum(input_amounts);
    let c_in = crate::amount::default_commit(value_sum(input_amounts), b);
    let c_out = crate::amount::default_commit(value_sum(output_amounts), b);
    assert(c_in != c_out);
}

/// That signatures are unique: under one key, two signatures that match
/// the same message are the same signature. It is a property of the
/// signature scheme, and nothing in the library proves it.
pub open spec fn signatures_are_unique() -> bool {
    forall|key: Seq<u8>, first: Seq<u8>, second: Seq<u8>, msg: Seq<u8>|
        #[trigger] crate::keys::bls_verifies(key, first, msg) && #[trigger] crate::keys::bls_verifies(
            key,
            second,
            msg,
        ) ==> first == second
}

/// A changed signature is rejected, where signatures are unique: a
/// transaction that is accepted is rejected once the signature of one of
/// its inputs is another, whatever the check of the range proofs gives.
pub proof fn lemma_changed_signature_is_rejected(
    tx: TransactionView,
    changed: TransactionView,
    blinded_amounts: Seq<BlindedAmount>,
    range_proofs: Result<(), RangeProofError>,
    other_range_proofs: Result<(), RangeProofError>,
    i: int,
)
    requires
        signatures_are_unique(),
        tx.verify(blinded_amounts, range_proofs) is Ok,
        0 <= i < tx.inputs.len(),
        changed.outputs == tx.outputs,
        changed.inputs.len() == tx.inputs.len(),
        forall|j: int|
            0 <= j < tx.inputs.len() ==> (#[trigger] changed.inputs[j]).dbc_id == tx.inputs[j].dbc_id
                && changed.inputs[j].blinded_amount == tx.inputs[j].blinded_amount,
        changed.inputs[i].signature@ != tx.inputs[i].signature@,
    ensures
        changed.signing_message() == tx.signing_message(),
        changed.verify(blinded_amounts, other_range_proofs) is Err,
{
    assert(ids_of(changed.inputs) =~= ids_of(tx.inputs));
    assert(amounts_of(changed.inputs) =~= amounts_of(tx.inputs));
    lemma_accepted_transaction(tx, blinded_amounts, range_proofs);
    if changed.verify(blinded_amounts, other_range_proofs) is Ok {
        lemma_accepted_transaction(changed, blinded_amounts, other_range_proofs);
        assert(crate::keys::bls_verifies(
            tx.inputs[i].dbc_id@,
            tx.inputs[i].signature@,
            tx.signing_message(),
        ));
        assert(crate::keys::bls_verifies(
            changed.inputs[i].dbc_id@,
            changed.inputs[i].signature@,
            changed.signing_message(),
        ));
    }
}

} // verus!
