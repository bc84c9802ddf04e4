//! The groups of the BN254 pairing.
//!
//! A point is held as its compressed canonical encoding, and its view is that
//! byte string. The group law, scalar multiplication and the pairing are computed
//! by `ark-ec` on the decoded points; their results are named here by
//! uninterpreted functions of the operands' encodings, so that the contracts of
//! the commitment scheme can say exactly which operations produced a value.
//! A byte string that decodes to no point stands for the identity.

use crate::field::Scalar;
use ark_ec::pairing::Pairing;
use ark_ec::{AffineRepr, CurveGroup};
use ark_ff::PrimeField;
use ark_serialize::{CanonicalDeserialize, CanonicalSerialize};
use vstd::prelude::*;

verus! {

/// Encoding of the sum of two points of the first group.
pub uninterp spec fn g1_sum(a: Seq<u8>, b: Seq<u8>) -> Seq<u8>;

/// Encoding of the difference of two points of the first group.
pub uninterp spec fn g1_difference(a: Seq<u8>, b: Seq<u8>) -> Seq<u8>;

/// Encoding of a point of the first group multiplied by a scalar.
pub uninterp spec fn g1_product(p: Seq<u8>, s: nat) -> Seq<u8>;

/// Encoding of the first group's generator multiplied by a scalar.
pub uninterp spec fn g1_generator_product(s: nat) -> Seq<u8>;

/// Whether an encoding stands for the identity of the first group.
pub uninterp spec fn g1_is_identity(p: Seq<u8>) -> bool;

/// The canonical encoding of the point that a byte string decodes to, or
/// `None` where it decodes to no point of the first group.
pub uninterp spec fn g1_decoding(bytes: Seq<u8>) -> Option<Seq<u8>>;

/// Encoding of the second group's generator multiplied by a scalar.
pub uninterp spec fn g2_generator_product(s: nat) -> Seq<u8>;

/// Encoding of the difference of two points of the second group.
pub uninterp spec fn g2_difference(a: Seq<u8>, b: Seq<u8>) -> Seq<u8>;

/// The canonical encoding of the point that a byte string decodes to, or
/// `None` where it decodes to no point of the second group.
pub uninterp spec fn g2_decoding(bytes: Seq<u8>) -> Option<Seq<u8>>;

/// Encoding of the pairing of a point of the first group with one of the second.
pub uninterp spec fn pairing_value(p: Seq<u8>, q: Seq<u8>) -> Seq<u8>;

/// The encoding of the identity of the first group: an all-zero coordinate with
/// the infinity flag set in the last byte.
pub open spec fn g1_identity_encoding() -> Seq<u8> {
    Seq::new(32, |i: int| if i == 31 { 0x40u8 } else { 0u8 })
}

/// A point of the first group.
#[derive(Clone, Copy, Debug, PartialEq, Eq)]
pub struct G1Point {
    pub(crate) bytes: [u8; 32],
}

/// A point of the second group.
#[derive(Clone, Copy, Debug, PartialEq, Eq)]
pub struct G2Point {
    bytes: [u8; 64],
}

/// A value of the pairing's target group.
#[derive(Clone, Copy, Debug, PartialEq, Eq)]
pub struct PairingOutput {
    bytes: [u8; 384],
}

impl View for G1Point {
    type V = Seq<u8>;

    closed spec fn view(&self) -> Seq<u8> {
        self.bytes@
    }
}

impl View for G2Point {
    type V = Seq<u8>;

    closed spec fn view(&self) -> Seq<u8> {
        self.bytes@
    }
}

impl View for PairingOutput {
    type V = Seq<u8>;

    closed spec fn view(&self) -> Seq<u8> {
        self.bytes@
    }
}

/// `Affine::identity` of ark-ec, encoded: the identity is written as a zero
/// coordinate with the infinity flag, bit 6 of the last byte.
#[verifier::external_body]
fn g1_identity() -> (r: G1Point)
    ensures
        r@ == g1_identity_encoding(),
{
    let mut bytes = [0u8; 32];
    ark_bn254::G1Affine::identity().serialize_compressed(&mut bytes[..]).unwrap();
    G1Point { bytes }
}

/// Addition of two affine points in ark-ec (`Add` for `Affine`), the result
/// normalised and encoded. An operand that decodes to no point counts as the
/// identity.
#[verifier::external_body]
fn g1_add(a: &G1Point, b: &G1Point) -> (r: G1Point)
    ensures
        r@ == g1_sum(a@, b@),
{
    let x = ark_bn254::G1Affine::deserialize_compressed_unchecked(&a.bytes[..]).unwrap_or_default();
    let y = ark_bn254::G1Affine::deserialize_compressed_unchecked(&b.bytes[..]).unwrap_or_default();
    let mut bytes = [0u8; 32];
    (x + y).into_affine().serialize_compressed(&mut bytes[..]).unwrap();
    G1Point { bytes }
}

/// Subtraction of two affine points in ark-ec (`Sub` for `Affine`), the result
/// normalised and encoded. An operand that decodes to no point counts as the
/// identity.
#[verifier::external_body]
fn g1_sub(a: &G1Point, b: &G1Point) -> (r: G1Point)
    ensures
        r@ == g1_difference(a@, b@),
{
    let x = ark_bn254::G1Affine::deserialize_compressed_unchecked(&a.bytes[..]).unwrap_or_default();
    let y = ark_bn254::G1Affine::deserialize_compressed_unchecked(&b.bytes[..]).unwrap_or_default();
    let mut bytes = [0u8; 32];
    (x - y).into_affine().serialize_compressed(&mut bytes[..]).unwrap();
    G1Point { bytes }
}

/// Scalar multiplication of an affine point in ark-ec (`Mul` for `Affine`), the
/// result normalised and encoded. A point that decodes to nothing counts as the
/// identity.
#[verifier::external_body]
fn g1_mul(p: &G1Point, s: &Scalar) -> (r: G1Point)
    ensures
        r@ == g1_product(p@, s@),
{
    let k = ark_bn254::Fr::from_bigint(ark_ff::BigInt::new([s.l0, s.l1, s.l2, s.l3])).unwrap();
    let x = ark_bn254::G1Affine::deserialize_compressed_unchecked(&p.bytes[..]).unwrap_or_default();
    let mut bytes = [0u8; 32];
    (x * k).into_affine().serialize_compressed(&mut bytes[..]).unwrap();
    G1Point { bytes }
}

/// `AffineRepr::generator` of ark-ec for the first group, multiplied by a
/// scalar, the result normalised and encoded.
#[verifier::external_body]
fn g1_generator_mul(s: &Scalar) -> (r: G1Point)
    ensures
        r@ == g1_generator_product(s@),
{
    let k = ark_bn254::Fr::from_bigint(ark_ff::BigInt::new([s.l0, s.l1, s.l2, s.l3])).unwrap();
    let mut bytes = [0u8; 32];
    (ark_bn254::G1Affine::generator() * k).into_affine().serialize_compressed(&mut bytes[..]).unwrap();
    G1Point { bytes }
}

/// `AffineRepr::is_zero` of ark-ec on the decoded point, which is the identity
/// where the encoding decodes to nothing. The identity's own encoding decodes
/// to the identity.
#[verifier::external_body]
fn g1_is_zero(p: &G1Point) -> (r: bool)
    ensures
        r == g1_is_identity(p@),
        p@ == g1_identity_encoding() ==> r,
{
    ark_bn254::G1Affine::deserialize_compressed_unchecked(&p.bytes[..]).unwrap_or_default().is_zero()
}

/// `CanonicalDeserialize::deserialize_compressed` of ark-serialize for the first
/// group, with its validity checks; the decoded point is encoded again.
#[verifier::external_body]
fn g1_decode(bytes: &[u8]) -> (r: Option<G1Point>)
    ensures
        r.is_some() == g1_decoding(bytes@).is_some(),
        r.is_some() ==> r.unwrap()@ == g1_decoding(bytes@).unwrap(),
{
    let p = ark_bn254::G1Affine::deserialize_compressed(bytes).ok()?;
    let mut out = [0u8; 32];
    p.serialize_compressed(&mut out[..]).unwrap();
    Some(G1Point { bytes: out })
}

/// `AffineRepr::generator` of ark-ec for the second group, multiplied by a
/// scalar, the result normalised and encoded.
#[verifier::external_body]
fn g2_generator_mul(s: &Scalar) -> (r: G2Point)
    ensures
        r@ == g2_generator_product(s@),
{
    let k = ark_bn254::Fr::from_bigint(ark_ff::BigInt::new([s.l0, s.l1, s.l2, s.l3])).unwrap();
    let mut bytes = [0u8; 64];
    (ark_bn254::G2Affine::generator() * k).into_affine().serialize_compressed(&mut bytes[..]).unwrap();
    G2Point { bytes }
}

/// Subtraction of two affine points of the second group in ark-ec, the result
/// normalised and encoded. An operand that decodes to no point counts as the
/// identity.
#[verifier::external_body]
fn g2_sub(a: &G2Point, b: &G2Point) -> (r: G2Point)
    ensures
        r@ == g2_difference(a@, b@),
{
    let x = ark_bn254::G2Affine::deserialize_compressed_unchecked(&a.bytes[..]).unwrap_or_default();
    let y = ark_bn254::G2Affine::deserialize_compressed_unchecked(&b.bytes[..]).unwrap_or_default();
    let mut bytes = [0u8; 64];
    (x - y).into_affine().serialize_compressed(&mut bytes[..]).unwrap();
    G2Point { bytes }
}

/// `CanonicalDeserialize::deserialize_compressed` of ark-serialize for the
/// second group, with its validity checks; the decoded point is encoded again.
#[verifier::external_body]
fn g2_decode(bytes: &[u8]) -> (r: Option<G2Point>)
    ensures
        r.is_some() == g2_decoding(bytes@).is_some(),
        r.is_some() ==> r.unwrap()@ == g2_decoding(bytes@).unwrap(),
{
    let p = ark_bn254::G2Affine::deserialize_compressed(bytes).ok()?;
    let mut out = [0u8; 64];
    p.serialize_compressed(&mut out[..]).unwrap();
    Some(G2Point { bytes: out })
}

/// `Pairing::pairing` of ark-ec for BN254 on the decoded points, the target
/// group element encoded. An operand that decodes to no point counts as the
/// identity.
#[verifier::external_body]
fn bn254_pairing(p: &G1Point, q: &G2Point) -> (r: PairingOutput)
    ensures
        r@ == pairing_value(p@, q@),
{
    let x = ark_bn254::G1Affine::deserialize_compressed_unchecked(&p.bytes[..]).unwrap_or_default();
    let y = ark_bn254::G2Affine::deserialize_compressed_unchecked(&q.bytes[..]).unwrap_or_default();
    let mut bytes = [0u8; 384];
    ark_bn254::Bn254::pairing(x, y).serialize_compressed(&mut bytes[..]).unwrap();
    PairingOutput { bytes }
}

impl G1Point {
    /// The identity of the group.
    pub fn zero() -> (r: G1Point)
        ensures
            r@ == g1_identity_encoding(),
    {
        g1_identity()
    }

    /// The group's generator multiplied by `s`.
    pub fn generator_times(s: &Scalar) -> (r: G1Point)
        ensures
            r@ == g1_generator_product(s@),
    {
        g1_generator_mul(s)
    }

    /// The group's generator.
    pub fn generator() -> (r: G1Point)
        ensures
            r@ == g1_generator_product(1),
    {
        g1_generator_mul(&Scalar::one())
    }

    /// The sum of two points.
    pub fn plus(&self, other: &G1Point) -> (r: G1Point)
        ensures
            r@ == g1_sum(self@, other@),
    {
        g1_add(self, other)
    }

    /// The difference of two points.
    pub fn minus(&self, other: &G1Point) -> (r: G1Point)
        ensures
            r@ == g1_difference(self@, other@),
    {
        g1_sub(self, other)
    }

    /// The point multiplied by a scalar.
    pub fn times(&self, s: &Scalar) -> (r: G1Point)
        ensures
            r@ == g1_product(self@, s@),
    {
        g1_mul(self, s)
    }

    /// Whether the point is the identity.
    pub fn is_zero(&self) -> (r: bool)
        ensures
            r == g1_is_identity(self@),
            self@ == g1_identity_encoding() ==> r,
    {
        g1_is_zero(self)
    }

    /// Whether two points have the same encoding.
    pub fn equals(&self, other: &G1Point) -> (r: bool)
        ensures
            r == (self@ == other@),
            r == (*self == *other),
    {
        let mut i: usize = 0;
        while i < 32
            invariant
                i <= 32,
                forall|j: int| 0 <= j < i ==> self.bytes@[j] == other.bytes@[j],
            decreases 32 - i,
        {
            if self.bytes[i] != other.bytes[i] {
                return false;
            }
            i += 1;
        }
        assert(self.bytes =~= other.bytes);
        true
    }

    /// The compressed encoding of the point.
    pub fn to_bytes(&self) -> (r: Vec<u8>)
        ensures
            r@ == self@,
    {
        let mut out: Vec<u8> = Vec::new();
        let mut i: usize = 0;
        while i < 32
            invariant
                i <= 32,
                out@ == self.bytes@.subrange(0, i as int),
            decreases 32 - i,
        {
            out.push(self.bytes[i]);
            i += 1;
            assert(out@ =~= self.bytes@.subrange(0, i as int));
        }
        assert(out@ =~= self.bytes@);
        out
    }

    /// The point that a byte string encodes: `None` exactly where the bytes
    /// decode to no point of the group.
    pub fn from_bytes(bytes: &[u8]) -> (r: Option<G1Point>)
        ensures
            r.is_some() == g1_decoding(bytes@).is_some(),
            r.is_some() ==> r.unwrap()@ == g1_decoding(bytes@).unwrap(),
    {
        g1_decode(bytes)
    }

    /// Two points with the same encoding are the same value.
    pub proof fn lemma_view_injective(self, other: G1Point)
        requires
            self@ == other@,
        ensures
            self == other,
    {
        assert(self.bytes =~= other.bytes);
    }
}

impl G2Point {
    /// The group's generator multiplied by `s`.
    pub fn generator_times(s: &Scalar) -> (r: G2Point)
        ensures
            r@ == g2_generator_product(s@),
    {
        g2_generator_mul(s)
    }

    /// The group's generator.
    pub fn generator() -> (r: G2Point)
        ensures
            r@ == g2_generator_product(1),
    {
        g2_generator_mul(&Scalar::one())
    }

    /// The difference of two points.
    pub fn minus(&self, other: &G2Point) -> (r: G2Point)
        ensures
            r@ == g2_difference(self@, other@),
    {
        g2_sub(self, other)
    }

    /// Whether two points have the same encoding.
    pub fn equals(&self, other: &G2Point) -> (r: bool)
        ensures
            r == (self@ == other@),
            r == (*self == *other),
    {
        let mut i: usize = 0;
        while i < 64
            invariant
                i <= 64,
                forall|j: int| 0 <= j < i ==> self.bytes@[j] == other.bytes@[j],
            decreases 64 - i,
        {
            if self.bytes[i] != other.bytes[i] {
                return false;
            }
            i += 1;
        }
        assert(self.bytes =~= other.bytes);
        true
    }

    /// The compressed encoding of the point.
    pub fn to_bytes(&self) -> (r: Vec<u8>)
        ensures
            r@ == self@,
    {
        let mut out: Vec<u8> = Vec::new();
        let mut i: usize = 0;
        while i < 64
            invariant
                i <= 64,
                out@ == self.bytes@.subrange(0, i as int),
            decreases 64 - i,
        {
            out.push(self.bytes[i]);
            i += 1;
            assert(out@ =~= self.bytes@.subrange(0, i as int));
        }
        assert(out@ =~= self.bytes@);
        out
    }

    /// The point that a byte string encodes: `None` exactly where the bytes
    /// decode to no point of the group.
    pub fn from_bytes(bytes: &[u8]) -> (r: Option<G2Point>)
        ensures
            r.is_some() == g2_decoding(bytes@).is_some(),
            r.is_some() ==> r.unwrap()@ == g2_decoding(bytes@).unwrap(),
    {
        g2_decode(bytes)
    }

    /// Two points with the same encoding are the same value.
    pub proof fn lemma_view_injective(self, other: G2Point)
        requires
            self@ == other@,
        ensures
            self == other,
    {
        assert(self.bytes =~= other.bytes);
    }
}

impl PairingOutput {
    /// The pairing of `p` with `q`.
    pub fn pairing(p: &G1Point, q: &G2Point) -> (r: PairingOutput)
        ensures
            r@ == pairing_value(p@, q@),
    {
        bn254_pairing(p, q)
    }

    /// Whether two target group values have the same encoding.
    pub fn equals(&self, other: &PairingOutput) -> (r: bool)
        ensures
            r == (self@ == other@),
    {
        let mut i: usize = 0;
        while i < 384
            invariant
                i <= 384,
                forall|j: int| 0 <= j < i ==> self.bytes@[j] == other.bytes@[j],
            decreases 384 - i,
        {
            if self.bytes[i] != other.bytes[i] {
                return false;
            }
            i += 1;
        }
        assert(self.bytes@ =~= other.bytes@);
        true
    }
}

} // verus!
