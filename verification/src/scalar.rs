//! Blinding factors: elements of the Ristretto scalar field.

use blsttc::rand::rngs::OsRng;
use curve25519_dalek_ng::scalar::Scalar;
use vstd::prelude::*;

verus! {

/// The operating system's random number generator.
#[verifier::external_type_specification]
#[verifier::external_body]
pub struct ExOsRng(OsRng);

/// The order `l` of the Ristretto group: `2^252 + 27742317777372353535851937790883648493`.
pub open spec fn group_order() -> nat {
    7237005577332262213973186563042994240857116359379907606001950938285454250989nat
}

/// The natural number that `bytes` encodes in little-endian order.
pub open spec fn le_value(bytes: Seq<u8>) -> nat
    decreases bytes.len(),
{
    if bytes.len() == 0 {
        0
    } else {
        bytes[0] as nat + 256 * le_value(bytes.drop_first())
    }
}

/// Addition in the scalar field.
pub open spec fn scalar_add(a: nat, b: nat) -> nat {
    (a + b) % group_order()
}

/// Subtraction in the scalar field.
pub open spec fn scalar_sub(a: nat, b: nat) -> nat {
    ((a + group_order() - b) % (group_order() as int)) as nat
}

/// A blinding factor, held as the canonical 32-byte little-endian encoding
/// of a scalar below the group order.
#[derive(Clone, Copy, Debug, PartialEq, Eq)]
pub struct BlindingFactor {
    bytes: [u8; 32],
}

impl View for BlindingFactor {
    type V = nat;

    /// The scalar that this blinding factor stands for.
    closed spec fn view(&self) -> nat {
        le_value(self.bytes@)
    }
}

impl BlindingFactor {
    #[verifier::type_invariant]
    spec fn canonical(self) -> bool {
        le_value(self.bytes@) < group_order()
    }

    /// Reads a blinding factor from its canonical encoding; `None` where the
    /// bytes encode a number that is not below the group order.
    pub fn from_bytes(bytes: [u8; 32]) -> (r: Option<BlindingFactor>)
        ensures
            r.is_some() == (le_value(bytes@) < group_order()),
            r matches Some(b) ==> b@ == le_value(bytes@),
    {
        if is_canonical_scalar(&bytes) {
            Some(BlindingFactor { bytes })
        } else {
            None
        }
    }

    /// The canonical encoding.
    pub fn to_bytes(&self) -> (r: [u8; 32])
        ensures
            le_value(r@) == self@,
            self@ < group_order(),
    {
        proof {
            use_type_invariant(self);
        }
        self.bytes
    }

    /// The scalar zero.
    pub fn zero() -> (r: BlindingFactor)
        ensures
            r@ == 0,
    {
        BlindingFactor::from_u64(0)
    }

    /// The scalar `n`.
    pub fn from_u64(n: u64) -> (r: BlindingFactor)
        ensures
            r@ == n,
    {
        let bytes = scalar_from_u64(n);
        assert(n < group_order());
        BlindingFactor { bytes }
    }

    /// A scalar drawn from `rng`: which one depends on what `rng` gives,
    /// and whichever it is, it is reduced modulo the group order.
    pub fn random(rng: &mut OsRng) -> (r: BlindingFactor)
        ensures
            r@ < group_order(),
    {
        let bytes = random_scalar(rng);
        BlindingFactor { bytes }
    }

    /// The sum of two blinding factors in the scalar field.
    pub fn plus(&self, other: &BlindingFactor) -> (r: BlindingFactor)
        ensures
            r@ == scalar_add(self@, other@),
    {
        proof {
            use_type_invariant(self);
            use_type_invariant(other);
        }
        let bytes = scalar_add_bytes(&self.bytes, &other.bytes);
        BlindingFactor { bytes }
    }

    /// The difference of two blinding factors in the scalar field.
    pub fn minus(&self, other: &BlindingFactor) -> (r: BlindingFactor)
        ensures
            r@ == scalar_sub(self@, other@),
    {
        proof {
            use_type_invariant(self);
            use_type_invariant(other);
        }
        let bytes = scalar_sub_bytes(&self.bytes, &other.bytes);
        BlindingFactor { bytes }
    }
}

/// `Scalar::from_canonical_bytes` of curve25519-dalek-ng: it accepts exactly
/// the encodings of numbers below the group order.
#[verifier::external_body]
fn is_canonical_scalar(bytes: &[u8; 32]) -> (r: bool)
    ensures
        r == (le_value(bytes@) < group_order()),
{
    Scalar::from_canonical_bytes(*bytes).is_some()
}

/// `Scalar::from(u64)` of curve25519-dalek-ng: the little-endian encoding
/// of `n`.
#[verifier::external_body]
fn scalar_from_u64(n: u64) -> (r: [u8; 32])
    ensures
        le_value(r@) == n,
{
    Scalar::from(n).to_bytes()
}

/// `Scalar::random` of curve25519-dalek-ng: a scalar reduced modulo the
/// group order, in its canonical encoding.
#[verifier::external_body]
fn random_scalar(rng: &mut OsRng) -> (r: [u8; 32])
    ensures
        le_value(r@) < group_order(),
{
    Scalar::random(rng).to_bytes()
}

/// Addition of two scalars of curve25519-dalek-ng, on canonical encodings:
/// the canonical encoding of the sum modulo the group order.
#[verifier::external_body]
fn scalar_add_bytes(a: &[u8; 32], b: &[u8; 32]) -> (r: [u8; 32])
    requires
        le_value(a@) < group_order(),
        le_value(b@) < group_order(),
    ensures
        le_value(r@) == scalar_add(le_value(a@), le_value(b@)),
{
    (Scalar::from_bits(*a) + Scalar::from_bits(*b)).to_bytes()
}

/// Subtraction of two scalars of curve25519-dalek-ng, on canonical
/// encodings: the canonical encoding of the difference modulo the group
/// order.
#[verifier::external_body]
fn scalar_sub_bytes(a: &[u8; 32], b: &[u8; 32]) -> (r: [u8; 32])
    requires
        le_value(a@) < group_order(),
        le_value(b@) < group_order(),
    ensures
        le_value(r@) == scalar_sub(le_value(a@), le_value(b@)),
{
    (Scalar::from_bits(*a) - Scalar::from_bits(*b)).to_bytes()
}

} // verus!
