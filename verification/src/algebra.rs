//! The linear structure that commitments and evaluations share: values that can
//! be added and multiplied by a scalar.

use crate::curve::{g1_identity_encoding, g1_product, g1_sum, G1Point};
use crate::field::{fadd, fmul, Scalar};
use vstd::prelude::*;

verus! {

/// The views of a sequence of values.
pub open spec fn views<T: View>(s: Seq<T>) -> Seq<T::V> {
    Seq::new(s.len(), |i: int| s[i]@)
}

/// Values with a zero, an addition and a multiplication by scalars of type `R`,
/// each specified over the value's view.
pub trait VectorSpace<R: View>: View + Sized {
    /// The view of the zero value.
    spec fn zero_spec() -> Self::V;

    /// The view of the sum of two values.
    spec fn add_spec(a: Self::V, b: Self::V) -> Self::V;

    /// The view of a value multiplied by a scalar.
    spec fn scale_spec(a: Self::V, r: R::V) -> Self::V;

    /// The zero value.
    fn zero_value() -> (z: Self)
        ensures
            z@ == Self::zero_spec(),
    ;

    /// The sum of two values.
    fn sum_with(&self, other: &Self) -> (s: Self)
        ensures
            s@ == Self::add_spec(self@, other@),
    ;

    /// The value multiplied by `r`.
    fn scaled_by(&self, r: &R) -> (s: Self)
        ensures
            s@ == Self::scale_spec(self@, r@),
    ;
}

impl VectorSpace<Scalar> for Scalar {
    open spec fn zero_spec() -> nat {
        0
    }

    open spec fn add_spec(a: nat, b: nat) -> nat {
        fadd(a, b)
    }

    open spec fn scale_spec(a: nat, r: nat) -> nat {
        fmul(a, r)
    }

    fn zero_value() -> (z: Scalar) {
        Scalar::zero()
    }

    fn sum_with(&self, other: &Scalar) -> (s: Scalar) {
        self.plus(other)
    }

    fn scaled_by(&self, r: &Scalar) -> (s: Scalar) {
        self.times(r)
    }
}

impl VectorSpace<Scalar> for G1Point {
    open spec fn zero_spec() -> Seq<u8> {
        g1_identity_encoding()
    }

    open spec fn add_spec(a: Seq<u8>, b: Seq<u8>) -> Seq<u8> {
        g1_sum(a, b)
    }

    open spec fn scale_spec(a: Seq<u8>, r: nat) -> Seq<u8> {
        g1_product(a, r)
    }

    fn zero_value() -> (z: G1Point) {
        G1Point::zero()
    }

    fn sum_with(&self, other: &G1Point) -> (s: G1Point) {
        self.plus(other)
    }

    fn scaled_by(&self, r: &Scalar) -> (s: G1Point) {
        self.times(r)
    }
}

} // verus!
