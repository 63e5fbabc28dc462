//! Amounts: revealed, as a value with its blinding factor, and blinded, as
//! a Pedersen commitment.

use crate::bytes::same_bytes;
use crate::scalar::{group_order, le_value, BlindingFactor};
use blsttc::rand::rngs::OsRng;
use curve25519_dalek_ng::ristretto::CompressedRistretto;
use curve25519_dalek_ng::scalar::Scalar;
use vstd::prelude::*;

verus! {

/// Whether 32 bytes are the compressed encoding of a Ristretto point.
pub uninterp spec fn ristretto_decodes(bytes: Seq<u8>) -> bool;

/// The compressed encoding of the Ristretto point that `input` is hashed
/// to with SHA3-512.
pub uninterp spec fn ristretto_point_from_hash(input: Seq<u8>) -> Seq<u8>;

/// The compressed encoding of the Pedersen commitment
/// `value * B + blinding * B_blinding`, where `b` and `b_blinding` are the
/// compressed encodings of the generators `B` and `B_blinding`.
pub uninterp spec fn pedersen_commit(
    b: Seq<u8>,
    b_blinding: Seq<u8>,
    value: nat,
    blinding: nat,
) -> Seq<u8>;

/// The compressed encoding of the sum of the two Ristretto points that
/// `a` and `b` encode; `None` where one of them encodes no point.
pub uninterp spec fn ristretto_add(a: Seq<u8>, b: Seq<u8>) -> Option<Seq<u8>>;

/// An amount of the smallest unit.
pub type Amount = u64;

/// An amount of tokens, counted in the smallest unit.
#[derive(Clone, Copy, Debug, PartialEq, Eq, PartialOrd, Ord, Hash)]
pub struct Token {
    pub nano: Amount,
}

impl Token {
    /// The amount of `nano` smallest units.
    pub fn from_nano(nano: Amount) -> (r: Token)
        ensures
            r.nano == nano,
    {
        Token { nano }
    }

    /// The amount in the smallest unit.
    pub fn as_nano(&self) -> (r: Amount)
        ensures
            r == self.nano,
    {
        self.nano
    }
}

/// A blinded amount: a Ristretto group element, held as its 32-byte
/// compressed encoding.
#[derive(Clone, Copy, Debug, PartialEq, Eq, PartialOrd, Ord, Hash)]
pub struct BlindedAmount {
    pub bytes: [u8; 32],
}

impl View for BlindedAmount {
    type V = Seq<u8>;

    open spec fn view(&self) -> Seq<u8> {
        self.bytes@
    }
}

/// The encoding of the identity of the Ristretto group: thirty-two zero
/// bytes.
pub open spec fn identity_encoding() -> Seq<u8> {
    Seq::new(32, |i: int| 0u8)
}

/// The sum of the group elements that `amounts` encode, added from the
/// identity in the order of the sequence; `None` where one of them, or an
/// intermediate sum, encodes no group element.
pub open spec fn sum_of(amounts: Seq<BlindedAmount>) -> Option<Seq<u8>>
    decreases amounts.len(),
{
    if amounts.len() == 0 {
        Some(identity_encoding())
    } else {
        match sum_of(amounts.drop_last()) {
            Some(acc) => ristretto_add(acc, amounts.last()@),
            None => None,
        }
    }
}

impl BlindedAmount {
    /// The blinded amount that holds the given bytes.
    pub fn from_bytes(bytes: [u8; 32]) -> (r: BlindedAmount)
        ensures
            r.bytes == bytes,
    {
        BlindedAmount { bytes }
    }

    /// The compressed encoding.
    pub fn to_bytes(&self) -> (r: [u8; 32])
        ensures
            r@ == self@,
    {
        self.bytes
    }

    /// The identity of the group: the commitment to nothing.
    pub fn identity() -> (r: BlindedAmount)
        ensures
            r@ == identity_encoding(),
    {
        let r = BlindedAmount { bytes: [0u8; 32] };
        assert(r@ =~= identity_encoding());
        r
    }

    /// Whether the two blinded amounts are the same group element.
    pub fn same(&self, other: &BlindedAmount) -> (r: bool)
        ensures
            r == (self@ == other@),
            r == (*self == *other),
    {
        let r = same_bytes(self.bytes.as_slice(), other.bytes.as_slice());
        proof {
            if r {
                assert(self.bytes@ =~= other.bytes@);
                assert(self.bytes == other.bytes);
            }
        }
        r
    }

    /// The sum of the two group elements; `None` where one of them encodes
    /// no group element.
    pub fn plus(&self, other: &BlindedAmount) -> (r: Option<BlindedAmount>)
        ensures
            r is Some == ristretto_add(self@, other@) is Some,
            r matches Some(sum) ==> ristretto_add(self@, other@) == Some(sum@),
    {
        match add_points(&self.bytes, &other.bytes) {
            Some(bytes) => Some(BlindedAmount { bytes }),
            None => None,
        }
    }

    /// The sum of `amounts`, added from the identity in their order.
    pub fn sum(amounts: &[BlindedAmount]) -> (r: Option<BlindedAmount>)
        ensures
            r is Some == sum_of(amounts@) is Some,
            r matches Some(sum) ==> sum_of(amounts@) == Some(sum@),
    {
        let mut acc = BlindedAmount::identity();
        let mut i: usize = 0;
        assert(amounts@.subrange(0, 0) =~= Seq::<BlindedAmount>::empty());
        while i < amounts.len()
            invariant
                i <= amounts@.len(),
                sum_of(amounts@.subrange(0, i as int)) == Some(acc@),
            decreases amounts@.len() - i,
        {
            let ghost next = amounts@.subrange(0, i + 1);
            assert(next.drop_last() =~= amounts@.subrange(0, i as int));
            assert(next.last() == amounts@[i as int]);
            match acc.plus(&amounts[i]) {
                Some(sum) => {
                    acc = sum;
                },
                None => {
                    proof {
                        lemma_sum_fails_on(amounts@, i + 1);
                    }
                    return None;
                },
            }
            i += 1;
        }
        assert(amounts@.subrange(0, amounts@.len() as int) =~= amounts@);
        Some(acc)
    }
}

/// Where a prefix of the amounts has no sum, the whole has none.
pub proof fn lemma_sum_fails_on(amounts: Seq<BlindedAmount>, n: int)
    requires
        0 <= n <= amounts.len(),
        sum_of(amounts.subrange(0, n)) is None,
    ensures
        sum_of(amounts) is None,
    decreases amounts.len() - n,
{
    if n == amounts.len() {
        assert(amounts.subrange(0, n) =~= amounts);
    } else {
        let next = amounts.subrange(0, n + 1);
        assert(next.drop_last() =~= amounts.subrange(0, n));
        lemma_sum_fails_on(amounts, n + 1);
    }
}

/// The compressed encoding of the base point of the Ristretto group.
pub open spec fn basepoint_encoding() -> Seq<u8> {
    seq![
        0xe2u8, 0xf2u8, 0xaeu8, 0x0au8, 0x6au8, 0xbcu8, 0x4eu8, 0x71u8,
        0xa8u8, 0x84u8, 0xa9u8, 0x61u8, 0xc5u8, 0x00u8, 0x51u8, 0x5fu8,
        0x58u8, 0xe3u8, 0x0bu8, 0x6au8, 0xa5u8, 0x82u8, 0xddu8, 0x8du8,
        0xb6u8, 0xa6u8, 0x59u8, 0x45u8, 0xe0u8, 0x8du8, 0x2du8, 0x76u8,
    ]
}

/// The compressed encoding of the default generator for blinding factors:
/// the point that the encoding of the base point is hashed to.
pub open spec fn blinding_base_encoding() -> Seq<u8> {
    ristretto_point_from_hash(basepoint_encoding())
}

/// The commitment to `value` under `blinding` and the default generators.
pub open spec fn default_commit(value: nat, blinding: nat) -> Seq<u8> {
    pedersen_commit(basepoint_encoding(), blinding_base_encoding(), value, blinding)
}

/// The generators of Pedersen commitments: one for the value and one for
/// the blinding factor, both Ristretto points.
#[derive(Clone, Copy, Debug, PartialEq, Eq)]
pub struct PedersenGens {
    b: BlindedAmount,
    b_blinding: BlindedAmount,
}

impl PedersenGens {
    #[verifier::type_invariant]
    spec fn decode(self) -> bool {
        ristretto_decodes(self.b@) && ristretto_decodes(self.b_blinding@)
    }

    /// The generator for the value.
    pub closed spec fn spec_b(self) -> BlindedAmount {
        self.b
    }

    /// The generator for the blinding factor.
    pub closed spec fn spec_b_blinding(self) -> BlindedAmount {
        self.b_blinding
    }

    /// Whether these are the default generators: the base point of the
    /// group, and the point that its encoding is hashed to.
    pub open spec fn is_default(self) -> bool {
        self.spec_b()@ == basepoint_encoding() && self.spec_b_blinding()@
            == blinding_base_encoding()
    }

    /// The commitment to `value` under `blinding` and these generators.
    pub open spec fn spec_commit(self, value: nat, blinding: nat) -> Seq<u8> {
        pedersen_commit(self.spec_b()@, self.spec_b_blinding()@, value, blinding)
    }

    /// The generators `b` for the value and `b_blinding` for the blinding
    /// factor; `None` where one of them encodes no point.
    pub fn new(b: BlindedAmount, b_blinding: BlindedAmount) -> (r: Option<PedersenGens>)
        ensures
            r is Some == (ristretto_decodes(b@) && ristretto_decodes(b_blinding@)),
            r matches Some(gens) ==> gens.spec_b() == b && gens.spec_b_blinding() == b_blinding,
    {
        if point_decodes(&b.bytes) && point_decodes(&b_blinding.bytes) {
            Some(PedersenGens { b, b_blinding })
        } else {
            None
        }
    }

    /// The generator for the value.
    pub fn b(&self) -> (r: BlindedAmount)
        ensures
            r == self.spec_b(),
            ristretto_decodes(r@),
    {
        proof {
            use_type_invariant(self);
        }
        self.b
    }

    /// The generator for the blinding factor.
    pub fn b_blinding(&self) -> (r: BlindedAmount)
        ensures
            r == self.spec_b_blinding(),
            ristretto_decodes(r@),
    {
        proof {
            use_type_invariant(self);
        }
        self.b_blinding
    }

    /// The Pedersen commitment `value * B + blinding * B_blinding`.
    pub fn commit(&self, value: Amount, blinding: &BlindingFactor) -> (r: BlindedAmount)
        ensures
            r@ == self.spec_commit(value as nat, blinding@),
    {
        proof {
            use_type_invariant(self);
        }
        let scalar = blinding.to_bytes();
        match commit(&self.b.bytes, &self.b_blinding.bytes, value, &scalar) {
            Some(bytes) => BlindedAmount { bytes },
            None => vstd::pervasive::unreached(),
        }
    }
}

impl Default for PedersenGens {
    /// The default generators.
    fn default() -> (r: PedersenGens)
        ensures
            r.is_default(),
    {
        let (b, b_blinding) = default_generators();
        PedersenGens { b: BlindedAmount { bytes: b }, b_blinding: BlindedAmount { bytes: b_blinding } }
    }
}

/// A revealed amount: a value and the blinding factor under which it is
/// committed to.
#[derive(Clone, Copy, Debug, PartialEq, Eq)]
pub struct RevealedAmount {
    pub value: Amount,
    pub blinding_factor: BlindingFactor,
}

impl RevealedAmount {
    /// The commitment that this revealed amount opens under the default
    /// generators.
    pub open spec fn spec_blinded_amount(self) -> Seq<u8> {
        default_commit(self.value as nat, self.blinding_factor@)
    }

    /// The revealed amount of `value` under a blinding factor drawn from
    /// `rng`.
    pub fn from_amount(value: Amount, rng: &mut OsRng) -> (r: RevealedAmount)
        ensures
            r.value == value,
    {
        RevealedAmount { value, blinding_factor: BlindingFactor::random(rng) }
    }

    /// The value.
    pub fn value(&self) -> (r: Amount)
        ensures
            r == self.value,
    {
        self.value
    }

    /// The blinding factor.
    pub fn blinding_factor(&self) -> (r: BlindingFactor)
        ensures
            r == self.blinding_factor,
    {
        self.blinding_factor
    }

    /// The Pedersen commitment `value * G + blinding * H` to this amount,
    /// where `G` and `H` are the generators `pc_gens`.
    pub fn blinded_amount(&self, pc_gens: &PedersenGens) -> (r: BlindedAmount)
        ensures
            r@ == pc_gens.spec_commit(self.value as nat, self.blinding_factor@),
            pc_gens.is_default() ==> r@ == self.spec_blinded_amount(),
    {
        pc_gens.commit(self.value, &self.blinding_factor)
    }
}

/// `CompressedRistretto::decompress` of curve25519-dalek-ng: whether the
/// bytes are accepted.
#[verifier::external_body]
fn point_decodes(bytes: &[u8; 32]) -> (r: bool)
    ensures
        r == ristretto_decodes(bytes@),
{
    CompressedRistretto(*bytes).decompress().is_some()
}

/// `PedersenGens::default` of bulletproofs, as compressed encodings: the
/// generator for the value is the base point of the Ristretto group, and
/// the generator for the blinding factor is the point that the encoding of
/// the base point is hashed to with SHA3-512. Both are points.
#[verifier::external_body]
fn default_generators() -> (r: ([u8; 32], [u8; 32]))
    ensures
        r.0@ == basepoint_encoding(),
        r.1@ == ristretto_point_from_hash(basepoint_encoding()),
        ristretto_decodes(r.0@),
        ristretto_decodes(r.1@),
{
    let gens = bulletproofs::PedersenGens::default();
    (gens.B.compress().to_bytes(), gens.B_blinding.compress().to_bytes())
}

/// `PedersenGens::commit` of bulletproofs, from and to compressed
/// encodings: there is a result exactly where `b` and `b_blinding` encode
/// points, and it is the commitment to `value` under the scalar that
/// `blinding` encodes and these two generators.
#[verifier::external_body]
fn commit(b: &[u8; 32], b_blinding: &[u8; 32], value: u64, blinding: &[u8; 32]) -> (r: Option<
    [u8; 32],
>)
    requires
        le_value(blinding@) < group_order(),
    ensures
        r is Some == (ristretto_decodes(b@) && ristretto_decodes(b_blinding@)),
        r matches Some(c) ==> c@ == pedersen_commit(
            b@,
            b_blinding@,
            value as nat,
            le_value(blinding@),
        ),
{
    let gens = bulletproofs::PedersenGens {
        B: CompressedRistretto(*b).decompress()?,
        B_blinding: CompressedRistretto(*b_blinding).decompress()?,
    };
    Some(gens.commit(Scalar::from(value), Scalar::from_bits(*blinding)).compress().to_bytes())
}

/// Addition of two Ristretto points of curve25519-dalek-ng, from and to
/// compressed encodings: `None` where `decompress` refuses one of them.
#[verifier::external_body]
fn add_points(a: &[u8; 32], b: &[u8; 32]) -> (r: Option<[u8; 32]>)
    ensures
        r is Some == ristretto_add(a@, b@) is Some,
        r matches Some(sum) ==> ristretto_add(a@, b@) == Some(sum@),
{
    let p = CompressedRistretto(*a).decompress()?;
    let q = CompressedRistretto(*b).decompress()?;
    Some((p + q).compress().to_bytes())
}

} // verus!
