//! Facts of modular arithmetic that the proofs about evaluation domains use.

use crate::field::{fadd, fmul, fpow, fsub, is_inverse, modulus};
use vstd::arithmetic::div_mod::*;
use vstd::arithmetic::mul::*;
use vstd::prelude::*;

verus! {

/// `w` generates a multiplicative subgroup of exactly `n` elements.
pub open spec fn is_primitive_root(w: nat, n: nat) -> bool {
    &&& fpow(w, n) == 1
    &&& forall|k: nat| 0 < k < n ==> #[trigger] fpow(w, k) != 1
}

/// Every power is a reduced residue.
pub proof fn lemma_fpow_reduced(a: nat, e: nat)
    ensures
        fpow(a, e) < modulus(),
{
    if e > 0 {
        lemma_mod_bound((a * fpow(a, (e - 1) as nat)) as int, modulus() as int);
    }
}

/// Multiplication is commutative and associative on residues.
pub proof fn lemma_fmul_commutative(a: nat, b: nat)
    ensures
        fmul(a, b) == fmul(b, a),
{
    assert(a * b == b * a) by (nonlinear_arith);
}

/// Multiplication of residues is associative.
pub proof fn lemma_fmul_associative(a: nat, b: nat, c: nat)
    ensures
        fmul(fmul(a, b), c) == fmul(a, fmul(b, c)),
{
    let m = modulus() as int;
    lemma_mul_mod_noop_left((a * b) as int, c as int, m);
    lemma_mul_mod_noop_right(a as int, (b * c) as int, m);
    assert((a * b) * c == a * (b * c)) by (nonlinear_arith);
}

/// One is neutral for multiplication of reduced residues.
pub proof fn lemma_fmul_one(a: nat)
    requires
        a < modulus(),
    ensures
        fmul(a, 1) == a,
        fmul(1, a) == a,
{
    assert(a * 1 == a && 1 * a == a) by (nonlinear_arith);
    lemma_small_mod(a, modulus());
}

/// Zero annihilates.
pub proof fn lemma_fmul_zero(a: nat)
    ensures
        fmul(a, 0) == 0,
        fmul(0, a) == 0,
{
    assert(a * 0 == 0 && 0 * a == 0) by (nonlinear_arith);
    lemma_small_mod(0, modulus());
}

/// Zero is neutral for addition of reduced residues.
pub proof fn lemma_fadd_zero(a: nat)
    requires
        a < modulus(),
    ensures
        fadd(a, 0) == a,
        fadd(0, a) == a,
{
    lemma_small_mod(a, modulus());
}

/// A residue with an inverse is not a multiple of the field order.
pub proof fn lemma_unit_nonzero(a: nat, x: nat)
    requires
        is_inverse(a, x),
    ensures
        a % modulus() != 0,
{
    if a % modulus() == 0 {
        let m = modulus() as int;
        lemma_mul_mod_noop_left(a as int, x as int, m);
        assert(((a % modulus()) * x) == 0) by (nonlinear_arith)
            requires
                a % modulus() == 0,
        ;
        lemma_small_mod(0, modulus());
    }
}

/// Exponents add under multiplication.
pub proof fn lemma_fpow_add(a: nat, i: nat, j: nat)
    ensures
        fpow(a, i + j) == fmul(fpow(a, i), fpow(a, j)),
    decreases i,
{
    if i == 0 {
        lemma_fpow_reduced(a, j);
        lemma_fmul_one(fpow(a, j));
    } else {
        lemma_fpow_add(a, (i - 1) as nat, j);
        assert(fpow(a, i + j) == fmul(a, fpow(a, (i + j - 1) as nat)));
        lemma_fmul_associative(a, fpow(a, (i - 1) as nat), fpow(a, j));
    }
}

/// Every power of one is one.
pub proof fn lemma_fpow_of_one(e: nat)
    ensures
        fpow(1, e) == 1,
    decreases e,
{
    if e > 0 {
        lemma_fpow_of_one((e - 1) as nat);
        lemma_fmul_one(1);
    }
}

/// A power of a power is the power by the product of the exponents.
pub proof fn lemma_fpow_mul(a: nat, i: nat, j: nat)
    ensures
        fpow(fpow(a, i), j) == fpow(a, i * j),
    decreases j,
{
    if j == 0 {
        assert(i * j == 0) by (nonlinear_arith)
            requires
                j == 0,
        ;
    } else {
        lemma_fpow_mul(a, i, (j - 1) as nat);
        lemma_fpow_add(a, i, i * ((j - 1) as nat));
        assert(i + i * ((j - 1) as nat) == i * j) by (nonlinear_arith)
            requires
                j > 0,
        ;
    }
}

/// The powers of a primitive root below its order are pairwise different.
pub proof fn lemma_root_powers_distinct(w: nat, n: nat, i: nat, j: nat)
    requires
        is_primitive_root(w, n),
        i < j < n,
    ensures
        fpow(w, i) != fpow(w, j),
{
    if fpow(w, i) == fpow(w, j) {
        let d = (j - i) as nat;
        let c = (n - i) as nat;
        // w^i * w^(n-i) == 1 and w^j * w^(n-i) == w^(j-i)
        lemma_fpow_add(w, i, c);
        lemma_fpow_add(w, j, c);
        lemma_fpow_add(w, d, n);
        assert(j + c == d + n);
        lemma_fpow_reduced(w, d);
        lemma_fmul_one(fpow(w, d));
        assert(fpow(w, d) == 1);
    }
}

/// Each power of a primitive root has the complementary power as its inverse.
pub proof fn lemma_root_power_inverse(w: nat, n: nat, i: nat)
    requires
        is_primitive_root(w, n),
        i <= n,
    ensures
        is_inverse(fpow(w, i), fpow(w, (n - i) as nat)),
        fpow(w, i) != 0,
{
    lemma_fpow_add(w, i, (n - i) as nat);
    lemma_fpow_reduced(w, (n - i) as nat);
    lemma_fpow_reduced(w, i);
    lemma_unit_nonzero(fpow(w, i), fpow(w, (n - i) as nat));
    lemma_small_mod(fpow(w, i), modulus());
}

/// A power of a primitive `n`-th root is itself an `n`-th root of one.
pub proof fn lemma_root_power_is_root(w: nat, n: nat, i: nat)
    requires
        is_primitive_root(w, n),
    ensures
        fpow(fpow(w, i), n) == 1,
{
    lemma_fpow_mul(w, i, n);
    lemma_fpow_mul(w, n, i);
    assert(i * n == n * i) by (nonlinear_arith);
    lemma_fpow_of_one(i);
}

/// The difference of two different reduced residues is not zero.
pub proof fn lemma_fsub_nonzero(a: nat, b: nat)
    requires
        a < modulus(),
        b < modulus(),
        a != b,
    ensures
        fsub(a, b) != 0,
        fsub(a, b) < modulus(),
{
    let m = modulus() as int;
    let d = a as int - b as int;
    lemma_mod_bound(d, m);
    if d > 0 {
        lemma_small_mod(d as nat, modulus());
    } else {
        lemma_mod_add_multiples_vanish(d, m);
        lemma_small_mod((d + m) as nat, modulus());
    }
}

/// Multiplying a quotient by its divisor gives back the dividend.
pub proof fn lemma_quotient_times_divisor(d: nat, w: nat, x: nat)
    requires
        d < modulus(),
        is_inverse(w, x),
    ensures
        fmul(fmul(d, x), w) == d,
{
    lemma_fmul_associative(d, x, w);
    lemma_fmul_commutative(x, w);
    lemma_fmul_one(d);
}

} // verus!
