//! The scalar field of the BN254 curve.
//!
//! A [`Scalar`] holds the canonical integer representative of a field element as
//! four little-endian 64-bit limbs. Its view is that integer, and every arithmetic
//! contract is stated as modular arithmetic over views. The arithmetic itself is
//! carried out by `ark-ff` on `ark_bn254::Fr`. Every scalar holds a reduced
//! representative, which is the type's invariant: it is what lets a scalar be
//! handed to `ark-ff` without a check.

use ark_ff::{Field, PrimeField, UniformRand};
use vstd::arithmetic::div_mod::*;
use vstd::arithmetic::mul::*;
use vstd::prelude::*;

verus! {

/// The order of the scalar field.
pub open spec fn modulus() -> nat {
    21888242871839275222246405745257275088548364400416034343698204186575808495617nat
}

/// Sum of two residues.
pub open spec fn fadd(a: nat, b: nat) -> nat {
    (a + b) % modulus()
}

/// Difference of two residues, brought back into `0..modulus()`.
pub open spec fn fsub(a: nat, b: nat) -> nat {
    ((a as int - b as int) % (modulus() as int)) as nat
}

/// Product of two residues.
pub open spec fn fmul(a: nat, b: nat) -> nat {
    (a * b) % modulus()
}

/// `a` raised to the power `e`, with `fpow(a, 0) == 1`.
pub open spec fn fpow(a: nat, e: nat) -> nat
    decreases e,
{
    if e == 0 {
        1
    } else {
        fmul(a, fpow(a, (e - 1) as nat))
    }
}

/// `x` is the reduced multiplicative inverse of `a`.
pub open spec fn is_inverse(a: nat, x: nat) -> bool {
    x < modulus() && fmul(a, x) == 1
}

/// The multiplicative inverse of `a`, where one exists.
pub open spec fn finv(a: nat) -> nat {
    choose|x: nat| is_inverse(a, x)
}

/// Quotient `a / b`, meaningful where `b` has an inverse.
pub open spec fn fdiv(a: nat, b: nat) -> nat {
    fmul(a, finv(b))
}

/// The integer that a little-endian byte string denotes.
pub open spec fn le_bytes_value(bytes: Seq<u8>) -> nat
    decreases bytes.len(),
{
    if bytes.len() == 0 {
        0
    } else {
        (bytes[0] as nat) + 256 * le_bytes_value(bytes.subrange(1, bytes.len() as int))
    }
}

/// An element of the scalar field, held as its canonical representative.
#[derive(Clone, Copy, Debug, PartialEq, Eq, Structural)]
pub struct Scalar {
    pub(crate) l0: u64,
    pub(crate) l1: u64,
    pub(crate) l2: u64,
    pub(crate) l3: u64,
}

impl View for Scalar {
    type V = nat;

    closed spec fn view(&self) -> nat {
        (self.l0 as nat) + (self.l1 as nat) * 0x1_0000_0000_0000_0000nat + (self.l2 as nat)
            * 0x1_0000_0000_0000_0000_0000_0000_0000_0000nat + (self.l3 as nat)
            * 0x1_0000_0000_0000_0000_0000_0000_0000_0000_0000_0000_0000_0000nat
    }
}

/// `Fr::add` of ark-ff: the sum of two field elements, which is the sum of
/// their representatives reduced modulo the field order.
#[verifier::external_body]
fn scalar_add(a: Scalar, b: Scalar) -> (r: Scalar)
    ensures
        r@ == fadd(a@, b@),
{
    let x = ark_bn254::Fr::from_bigint(ark_ff::BigInt::new([a.l0, a.l1, a.l2, a.l3])).unwrap();
    let y = ark_bn254::Fr::from_bigint(ark_ff::BigInt::new([b.l0, b.l1, b.l2, b.l3])).unwrap();
    let l = (x + y).into_bigint().0;
    Scalar { l0: l[0], l1: l[1], l2: l[2], l3: l[3] }
}

/// `Fr::sub` of ark-ff: the difference of two field elements, reduced into
/// `0..modulus()`.
#[verifier::external_body]
fn scalar_sub(a: Scalar, b: Scalar) -> (r: Scalar)
    ensures
        r@ == fsub(a@, b@),
{
    let x = ark_bn254::Fr::from_bigint(ark_ff::BigInt::new([a.l0, a.l1, a.l2, a.l3])).unwrap();
    let y = ark_bn254::Fr::from_bigint(ark_ff::BigInt::new([b.l0, b.l1, b.l2, b.l3])).unwrap();
    let l = (x - y).into_bigint().0;
    Scalar { l0: l[0], l1: l[1], l2: l[2], l3: l[3] }
}

/// `Fr::mul` of ark-ff: the product of two field elements, which is the product
/// of their representatives reduced modulo the field order.
#[verifier::external_body]
fn scalar_mul(a: Scalar, b: Scalar) -> (r: Scalar)
    ensures
        r@ == fmul(a@, b@),
{
    let x = ark_bn254::Fr::from_bigint(ark_ff::BigInt::new([a.l0, a.l1, a.l2, a.l3])).unwrap();
    let y = ark_bn254::Fr::from_bigint(ark_ff::BigInt::new([b.l0, b.l1, b.l2, b.l3])).unwrap();
    let l = (x * y).into_bigint().0;
    Scalar { l0: l[0], l1: l[1], l2: l[2], l3: l[3] }
}

/// `Field::inverse` of ark-ff: `None` for zero, and for every other element the
/// element whose product with it is one.
#[verifier::external_body]
fn scalar_inverse(a: Scalar) -> (r: Option<Scalar>)
    ensures
        a@ == 0 ==> r.is_none(),
        a@ != 0 ==> r.is_some() && is_inverse(a@, r.unwrap()@),
{
    let x = ark_bn254::Fr::from_bigint(ark_ff::BigInt::new([a.l0, a.l1, a.l2, a.l3])).unwrap();
    let l = x.inverse()?.into_bigint().0;
    Some(Scalar { l0: l[0], l1: l[1], l2: l[2], l3: l[3] })
}

/// `Field::pow` of ark-ff with a one-limb exponent: the element raised to that
/// power, the zeroth power being one.
#[verifier::external_body]
fn scalar_pow(a: Scalar, e: u64) -> (r: Scalar)
    ensures
        r@ == fpow(a@, e as nat),
{
    let x = ark_bn254::Fr::from_bigint(ark_ff::BigInt::new([a.l0, a.l1, a.l2, a.l3])).unwrap();
    let l = x.pow([e]).into_bigint().0;
    Scalar { l0: l[0], l1: l[1], l2: l[2], l3: l[3] }
}

/// `PrimeField::from_le_bytes_mod_order` of ark-ff: the little-endian integer
/// that the bytes denote, reduced modulo the field order.
#[verifier::external_body]
fn scalar_from_le_bytes_mod_order(bytes: &[u8]) -> (r: Scalar)
    ensures
        r@ == le_bytes_value(bytes@) % modulus(),
{
    let l = ark_bn254::Fr::from_le_bytes_mod_order(bytes).into_bigint().0;
    Scalar { l0: l[0], l1: l[1], l2: l[2], l3: l[3] }
}

/// `batch_inversion` of ark-ff: every entry that is not zero is replaced by its
/// inverse, and every zero entry stays zero.
#[verifier::external_body]
fn scalar_batch_inversion(v: &mut Vec<Scalar>)
    ensures
        final(v)@.len() == old(v)@.len(),
        forall|i: int|
            0 <= i < old(v)@.len() && #[trigger] old(v)@[i]@ == 0 ==> final(v)@[i]@ == 0,
        forall|i: int|
            0 <= i < old(v)@.len() && #[trigger] old(v)@[i]@ != 0 ==> is_inverse(
                old(v)@[i]@,
                final(v)@[i]@,
            ),
{
    let mut xs: Vec<ark_bn254::Fr> = v.iter().map(
        |s| ark_bn254::Fr::from_bigint(ark_ff::BigInt::new([s.l0, s.l1, s.l2, s.l3])).unwrap(),
    ).collect();
    ark_ff::batch_inversion(&mut xs);
    *v = xs.into_iter().map(
        |x|
            {
                let l = x.into_bigint().0;
                Scalar { l0: l[0], l1: l[1], l2: l[2], l3: l[3] }
            },
    ).collect();
}

/// `UniformRand::rand` of ark-ff on the thread's random number generator: some
/// field element, of which nothing more is known.
#[verifier::external_body]
fn scalar_random() -> (r: Scalar) {
    let l = ark_bn254::Fr::rand(&mut rand::thread_rng()).into_bigint().0;
    Scalar { l0: l[0], l1: l[1], l2: l[2], l3: l[3] }
}

/// Inverts every entry of `v` that is not zero, and leaves the zero entries.
pub fn batch_inversion(v: &mut Vec<Scalar>)
    ensures
        final(v)@.len() == old(v)@.len(),
        forall|i: int|
            0 <= i < old(v)@.len() && #[trigger] old(v)@[i]@ == 0 ==> final(v)@[i]@ == 0,
        forall|i: int|
            0 <= i < old(v)@.len() && #[trigger] old(v)@[i]@ != 0 ==> is_inverse(
                old(v)@[i]@,
                final(v)@[i]@,
            ) && final(v)@[i]@ == finv(old(v)@[i]@),
{
    let ghost before = v@;
    scalar_batch_inversion(v);
    proof {
        assert forall|i: int| 0 <= i < before.len() && #[trigger] before[i]@ != 0 implies v@[i]@
            == finv(before[i]@) by {
            lemma_inverse_unique(before[i]@, v@[i]@);
        }
    }
}

impl Scalar {
    /// Every scalar holds a representative below the field order.
    #[verifier::type_invariant]
    pub open spec fn canonical(self) -> bool {
        self@ < modulus()
    }

    /// The additive identity.
    pub fn zero() -> (r: Scalar)
        ensures
            r@ == 0,
    {
        Scalar { l0: 0, l1: 0, l2: 0, l3: 0 }
    }

    /// The multiplicative identity.
    pub fn one() -> (r: Scalar)
        ensures
            r@ == 1,
    {
        Scalar { l0: 1, l1: 0, l2: 0, l3: 0 }
    }

    /// A field element drawn at random.
    pub fn random() -> (r: Scalar) {
        scalar_random()
    }

    /// The field element that a 64-bit integer denotes.
    pub fn from_u64(x: u64) -> (r: Scalar)
        ensures
            r@ == x,
    {
        Scalar { l0: x, l1: 0, l2: 0, l3: 0 }
    }

    /// The field element that a little-endian byte string denotes, reduced
    /// modulo the field order.
    pub fn from_le_bytes_mod_order(bytes: &[u8]) -> (r: Scalar)
        ensures
            r@ == le_bytes_value(bytes@) % modulus(),
    {
        scalar_from_le_bytes_mod_order(bytes)
    }

    /// The four little-endian limbs of the canonical representative.
    pub fn limbs(&self) -> (r: (u64, u64, u64, u64))
        ensures
            self@ == (r.0 as nat) + (r.1 as nat) * 0x1_0000_0000_0000_0000nat + (r.2 as nat)
                * 0x1_0000_0000_0000_0000_0000_0000_0000_0000nat + (r.3 as nat)
                * 0x1_0000_0000_0000_0000_0000_0000_0000_0000_0000_0000_0000_0000nat,
    {
        (self.l0, self.l1, self.l2, self.l3)
    }

    /// Whether this is the additive identity.
    pub fn is_zero(&self) -> (r: bool)
        ensures
            r == (self@ == 0),
    {
        self.l0 == 0 && self.l1 == 0 && self.l2 == 0 && self.l3 == 0
    }

    /// Whether two scalars are the same field element.
    pub fn equals(&self, other: &Scalar) -> (r: bool)
        ensures
            r == (self@ == other@),
            r == (*self == *other),
    {
        proof {
            if self@ == other@ {
                self.lemma_view_injective(*other);
            }
        }
        self.l0 == other.l0 && self.l1 == other.l1 && self.l2 == other.l2 && self.l3 == other.l3
    }

    /// Two scalars with the same value are the same scalar.
    pub proof fn lemma_view_injective(self, other: Scalar)
        requires
            self@ == other@,
        ensures
            self == other,
    {
        let b1 = 0x1_0000_0000_0000_0000int;
        let b2 = 0x1_0000_0000_0000_0000_0000_0000_0000_0000int;
        // the two low limbs and the two high limbs, each pair as one number
        let (lo, hi) = (self.l0 as int + self.l1 as int * b1, self.l2 as int + self.l3 as int * b1);
        let (other_lo, other_hi) = (
            other.l0 as int + other.l1 as int * b1,
            other.l2 as int + other.l3 as int * b1,
        );
        assert(self@ as int == hi * b2 + lo);
        assert(other@ as int == other_hi * b2 + other_lo);
        lemma_fundamental_div_mod_converse(self@ as int, b2, hi, lo);
        lemma_fundamental_div_mod_converse(other@ as int, b2, other_hi, other_lo);
        lemma_fundamental_div_mod_converse(lo, b1, self.l1 as int, self.l0 as int);
        lemma_fundamental_div_mod_converse(other_lo, b1, other.l1 as int, other.l0 as int);
        lemma_fundamental_div_mod_converse(hi, b1, self.l3 as int, self.l2 as int);
        lemma_fundamental_div_mod_converse(other_hi, b1, other.l3 as int, other.l2 as int);
    }

    /// Whether the representative is below `bound`.
    pub fn is_less_than(&self, bound: u64) -> (r: bool)
        ensures
            r == (self@ < bound),
    {
        self.l1 == 0 && self.l2 == 0 && self.l3 == 0 && self.l0 < bound
    }

    /// The representative, where it fits in 64 bits.
    pub fn to_u64(&self) -> (r: Option<u64>)
        ensures
            self@ <= u64::MAX ==> r == Some(self@ as u64),
            self@ > u64::MAX ==> r.is_none(),
    {
        if self.l1 == 0 && self.l2 == 0 && self.l3 == 0 {
            Some(self.l0)
        } else {
            None
        }
    }

    /// Field addition.
    pub fn plus(&self, other: &Scalar) -> (r: Scalar)
        ensures
            r@ == fadd(self@, other@),
    {
        scalar_add(*self, *other)
    }

    /// Field subtraction.
    pub fn minus(&self, other: &Scalar) -> (r: Scalar)
        ensures
            r@ == fsub(self@, other@),
    {
        scalar_sub(*self, *other)
    }

    /// Field multiplication.
    pub fn times(&self, other: &Scalar) -> (r: Scalar)
        ensures
            r@ == fmul(self@, other@),
    {
        scalar_mul(*self, *other)
    }

    /// Additive inverse.
    pub fn negated(&self) -> (r: Scalar)
        ensures
            r@ == fsub(0, self@),
    {
        scalar_sub(Scalar::zero(), *self)
    }

    /// Exponentiation by a 64-bit exponent.
    pub fn pow(&self, e: u64) -> (r: Scalar)
        ensures
            r@ == fpow(self@, e as nat),
    {
        scalar_pow(*self, e)
    }

    /// The multiplicative inverse: `None` exactly for zero.
    pub fn inverse(&self) -> (r: Option<Scalar>)
        ensures
            r.is_none() <==> self@ == 0,
            r.is_some() ==> is_inverse(self@, r.unwrap()@) && r.unwrap()@ == finv(self@),
    {
        let r = scalar_inverse(*self);
        proof {
            if r.is_some() {
                lemma_inverse_unique(self@, r.unwrap()@);
            }
        }
        r
    }

    /// Division by a scalar that is not zero.
    pub fn divided_by(&self, other: &Scalar) -> (r: Scalar)
        requires
            other@ != 0,
        ensures
            r@ == fdiv(self@, other@),
            is_inverse(other@, finv(other@)),
    {
        let inv = other.inverse();
        self.times(&inv.unwrap())
    }
}

/// Any reduced inverse of `a` is `finv(a)`.
pub proof fn lemma_inverse_unique(a: nat, x: nat)
    requires
        is_inverse(a, x),
    ensures
        finv(a) == x,
        is_inverse(a, finv(a)),
{
    let y = finv(a);
    assert(is_inverse(a, y));
    let m = modulus() as int;
    let (ai, xi, yi) = (a as int, x as int, y as int);
    // x == x * (a * y) == (x * a) * y == y, modulo the field order
    assert((ai * yi) % m == 1 && (ai * xi) % m == 1);
    assert(xi == (xi * ((ai * yi) % m)) % m) by {
        lemma_small_mod(x, modulus());
    }
    assert((xi * ((ai * yi) % m)) % m == (xi * (ai * yi)) % m) by {
        lemma_mul_mod_noop_right(xi, ai * yi, m);
    }
    assert(yi == (((ai * xi) % m) * yi) % m) by {
        lemma_small_mod(y, modulus());
    }
    assert((((ai * xi) % m) * yi) % m == ((ai * xi) * yi) % m) by {
        lemma_mul_mod_noop_left(ai * xi, yi, m);
    }
    assert(xi * (ai * yi) == (ai * xi) * yi) by (nonlinear_arith);
}

} // verus!
