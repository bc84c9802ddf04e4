//! Why an opening verifies: the identity between a polynomial's values, its
//! value at a domain point, and the quotient that `divide_by_vanishing` makes,
//! taken at the trapdoor of a reference string.
//!
//! A reference string for a domain holds, in the exponent, the values
//! `L_0(s), .., L_(n-1)(s)` of the domain's Lagrange polynomials at the
//! trapdoor `s`. Two properties of those values are all that the identity needs:
//! they sum to one, and `L_i(s) * (s - w^i) / w^i` is the same for every `i`.
//! Under them, the inner product of the reference string with the quotient,
//! times `s - w^k`, is the inner product with the values minus the value at
//! `w^k`. That is the equation which the pairing check tests in the exponent.

use crate::field::{fadd, finv, fmul, fpow, fsub, is_inverse, lemma_inverse_unique, modulus, Scalar};
use crate::field_lemmas::lemma_root_power_inverse;
use crate::lagrange_basis::{domain_quotient, padded, quotient_entry, singular_quotient};
use crate::precompute::TableView;
use crate::utils::inner_product_spec;
use vstd::arithmetic::div_mod::*;
use vstd::prelude::*;

verus! {

/// Two integers with the same residue modulo the field order.
pub open spec fn congruent(a: int, b: int) -> bool {
    a % (modulus() as int) == b % (modulus() as int)
}

/// The sum of a sequence of integers.
pub open spec fn isum(xs: Seq<int>) -> int
    decreases xs.len(),
{
    if xs.len() == 0 {
        0
    } else {
        isum(xs.drop_last()) + xs.last()
    }
}

/// The vector of `n` ones.
pub open spec fn ones(n: nat) -> Seq<nat> {
    Seq::new(n, |i: int| 1nat)
}

/// Whether `srs` holds the values at `s` of the Lagrange polynomials of the
/// domain of `n` points generated by `w`: they sum to one, and
/// `srs[i] * (s - w^i) * w^j` is symmetric in `i` and `j`.
pub open spec fn is_lagrange_evaluation(srs: Seq<nat>, w: nat, n: nat, s: nat) -> bool {
    &&& srs.len() == n
    &&& inner_product_spec::<Scalar, Scalar>(srs, ones(n)) == 1
    &&& forall|i: int, j: int|
        #![trigger srs[i], srs[j]]
        0 <= i < n && 0 <= j < n ==> fmul(fmul(srs[i], fsub(s, fpow(w, i as nat))), fpow(w, j as nat))
            == fmul(fmul(srs[j], fsub(s, fpow(w, j as nat))), fpow(w, i as nat))
}

proof fn lemma_congruent_add(a: int, b: int, c: int, d: int)
    requires
        congruent(a, b),
        congruent(c, d),
    ensures
        congruent(a + c, b + d),
{
    let m = modulus() as int;
    lemma_add_mod_noop(a, c, m);
    lemma_add_mod_noop(b, d, m);
}

proof fn lemma_congruent_sub(a: int, b: int, c: int, d: int)
    requires
        congruent(a, b),
        congruent(c, d),
    ensures
        congruent(a - c, b - d),
{
    let m = modulus() as int;
    lemma_sub_mod_noop(a, c, m);
    lemma_sub_mod_noop(b, d, m);
}

proof fn lemma_congruent_mul(a: int, b: int, c: int, d: int)
    requires
        congruent(a, b),
        congruent(c, d),
    ensures
        congruent(a * c, b * d),
{
    let m = modulus() as int;
    lemma_mul_mod_noop(a, c, m);
    lemma_mul_mod_noop(b, d, m);
}

proof fn lemma_fadd_congruent(a: nat, b: nat)
    ensures
        congruent(fadd(a, b) as int, a as int + b as int),
{
    lemma_mod_twice((a + b) as int, modulus() as int);
}

proof fn lemma_fsub_congruent(a: nat, b: nat)
    ensures
        congruent(fsub(a, b) as int, a as int - b as int),
{
    lemma_mod_twice(a - b, modulus() as int);
    lemma_mod_bound(a - b, modulus() as int);
}

proof fn lemma_fmul_congruent(a: nat, b: nat)
    ensures
        congruent(fmul(a, b) as int, a as int * b as int),
{
    lemma_mod_twice((a * b) as int, modulus() as int);
}

/// Sums of termwise congruent sequences are congruent.
proof fn lemma_isum_congruent(xs: Seq<int>, ys: Seq<int>)
    requires
        xs.len() == ys.len(),
        forall|i: int| 0 <= i < xs.len() ==> congruent(#[trigger] xs[i], ys[i]),
    ensures
        congruent(isum(xs), isum(ys)),
    decreases xs.len(),
{
    if xs.len() > 0 {
        lemma_isum_congruent(xs.drop_last(), ys.drop_last());
        lemma_congruent_add(isum(xs.drop_last()), isum(ys.drop_last()), xs.last(), ys.last());
    }
}

/// A sum times a constant is the sum of the terms times the constant.
proof fn lemma_isum_scale(xs: Seq<int>, c: int, ys: Seq<int>)
    requires
        xs.len() == ys.len(),
        forall|i: int| 0 <= i < xs.len() ==> #[trigger] ys[i] == xs[i] * c,
    ensures
        isum(ys) == isum(xs) * c,
    decreases xs.len(),
{
    if xs.len() > 0 {
        lemma_isum_scale(xs.drop_last(), c, ys.drop_last());
        let a = isum(xs.drop_last());
        let b = xs.last();
        assert((a + b) * c == a * c + b * c) by (nonlinear_arith);
    } else {
        assert(0 * c == 0);
    }
}

/// The sum of termwise differences is the difference of the sums.
proof fn lemma_isum_sub(xs: Seq<int>, ys: Seq<int>, zs: Seq<int>)
    requires
        xs.len() == ys.len(),
        xs.len() == zs.len(),
        forall|i: int| 0 <= i < xs.len() ==> #[trigger] zs[i] == xs[i] - ys[i],
    ensures
        isum(zs) == isum(xs) - isum(ys),
    decreases xs.len(),
{
    if xs.len() > 0 {
        lemma_isum_sub(xs.drop_last(), ys.drop_last(), zs.drop_last());
    }
}

/// Putting zero in place of one term takes that term off the sum.
proof fn lemma_isum_without(xs: Seq<int>, k: int)
    requires
        0 <= k < xs.len(),
    ensures
        isum(xs) == isum(xs.update(k, 0)) + xs[k],
    decreases xs.len(),
{
    let last = xs.len() - 1;
    if k == last {
        assert(xs.update(k, 0).drop_last() =~= xs.drop_last());
    } else {
        lemma_isum_without(xs.drop_last(), k);
        assert(xs.update(k, 0).drop_last() =~= xs.drop_last().update(k, 0));
    }
}

/// Zeros at the end add nothing to a sum.
proof fn lemma_isum_zero_tail(xs: Seq<int>, len: int)
    requires
        0 <= len <= xs.len(),
        forall|i: int| len <= i < xs.len() ==> xs[i] == 0,
    ensures
        isum(xs) == isum(xs.subrange(0, len)),
    decreases xs.len(),
{
    if xs.len() > len {
        lemma_isum_zero_tail(xs.drop_last(), len);
        assert(xs.drop_last().subrange(0, len) =~= xs.subrange(0, len));
    } else {
        assert(xs.subrange(0, len) =~= xs);
    }
}

/// The products `a[i] * b[i]` over the indices of `b`, as integers.
pub open spec fn products(a: Seq<nat>, b: Seq<nat>) -> Seq<int> {
    Seq::new(b.len(), |i: int| (a[i] * b[i]) as int)
}

/// An inner product of scalars is congruent to the sum of the products.
proof fn lemma_inner_product_congruent(a: Seq<nat>, b: Seq<nat>)
    requires
        b.len() <= a.len(),
    ensures
        congruent(inner_product_spec::<Scalar, Scalar>(a, b) as int, isum(products(a, b))),
    decreases b.len(),
{
    if b.len() > 0 {
        let rest = b.drop_last();
        let last = (b.len() - 1) as int;
        lemma_inner_product_congruent(a, rest);
        assert(products(a, rest) =~= products(a, b).drop_last());
        let head = inner_product_spec::<Scalar, Scalar>(a, rest);
        let term = fmul(a[last], b.last());
        lemma_fadd_congruent(head, term);
        lemma_fmul_congruent(a[last], b.last());
        lemma_congruent_add(
            head as int,
            isum(products(a, rest)),
            term as int,
            (a[last] * b.last()) as int,
        );
    }
}

/// The terms of the quotient at the singular point, as integers: zero at the
/// point itself, and `A'(index) * A'(i)^(-1) * q_i` elsewhere.
pub open spec fn singular_terms(values: Seq<nat>, table: TableView, index: nat, m: nat) -> Seq<int> {
    Seq::new(
        m,
        |i: int|
            if i == index {
                0
            } else {
                table.evaluations[index as int] as int * table.inverses[i] as int
                    * quotient_entry(values, table.root, index, i as nat) as int
            },
    )
}

/// The quotient at the singular point is congruent to minus the sum of its terms.
proof fn lemma_singular_congruent(values: Seq<nat>, table: TableView, index: nat, m: nat)
    ensures
        congruent(
            singular_quotient(values, table, index, m) as int,
            -isum(singular_terms(values, table, index, m)),
        ),
    decreases m,
{
    if m > 0 {
        let i = (m - 1) as nat;
        lemma_singular_congruent(values, table, index, i);
        let before = singular_quotient(values, table, index, i);
        let terms = singular_terms(values, table, index, m);
        assert(terms.drop_last() =~= singular_terms(values, table, index, i));
        if i != index {
            let e = table.evaluations[index as int];
            let v = table.inverses[i as int];
            let q = quotient_entry(values, table.root, index, i);
            lemma_fsub_congruent(before, fmul(fmul(e, v), q));
            lemma_fmul_congruent(fmul(e, v), q);
            lemma_fmul_congruent(e, v);
            lemma_congruent_mul(fmul(e, v) as int, (e * v) as int, q as int, q as int);
            assert((e * v) as int * q as int == e as int * v as int * q as int);
            lemma_congruent_sub(
                before as int,
                -isum(terms.drop_last()),
                fmul(fmul(e, v), q) as int,
                e as int * v as int * q as int,
            );
        }
    }
}

/// `A'(k) * A'(i)^(-1) * w^k` is congruent to `w^i`: the ratio of two vanishing
/// derivatives is a power of the generator.
proof fn lemma_derivative_ratio(table: TableView, i: nat, k: nat)
    requires
        table.wf(),
        i < table.size,
        k < table.size,
    ensures
        congruent(
            table.evaluations[k as int] as int * table.inverses[i as int] as int * fpow(
                table.root,
                k,
            ) as int,
            fpow(table.root, i) as int,
        ),
{
    let n = table.size;
    let w = table.root;
    lemma_root_power_inverse(w, n, i);
    lemma_root_power_inverse(w, n, k);
    lemma_inverse_unique(fpow(w, i), fpow(w, (n - i) as nat));
    lemma_inverse_unique(fpow(w, k), fpow(w, (n - k) as nat));
    lemma_fmul_congruent(n, finv(fpow(w, i)));
    lemma_fmul_congruent(n, finv(fpow(w, k)));
    lemma_fmul_congruent(fpow(w, i), finv(fpow(w, i)));
    lemma_fmul_congruent(fpow(w, k), finv(fpow(w, k)));
    assert(is_inverse(table.evaluations[i as int], table.inverses[i as int]));
    lemma_fmul_congruent(table.evaluations[i as int], table.inverses[i as int]);
    let ni = n as int;
    let (wi, wk) = (fpow(w, i) as int, fpow(w, k) as int);
    let (ui, uk) = (finv(fpow(w, i)) as int, finv(fpow(w, k)) as int);
    let (ei, ek) = (table.evaluations[i as int] as int, table.evaluations[k as int] as int);
    let vi = table.inverses[i as int] as int;
    assert(congruent(ei, ni * ui) && congruent(ek, ni * uk));
    assert(congruent(wi * ui, 1) && congruent(wk * uk, 1));
    assert(congruent(ei * vi, 1));
    // e_k * w^k == n and e_i * w^i == n, up to congruence
    assert(congruent(ek * wk, ni)) by {
        lemma_congruent_mul(ek, ni * uk, wk, wk);
        lemma_congruent_mul(ni, ni, wk * uk, 1);
        assert(ni * uk * wk == ni * (wk * uk)) by (nonlinear_arith);
        assert(ni * 1 == ni);
    }
    assert(congruent(ei * wi, ni)) by {
        lemma_congruent_mul(ei, ni * ui, wi, wi);
        lemma_congruent_mul(ni, ni, wi * ui, 1);
        assert(ni * ui * wi == ni * (wi * ui)) by (nonlinear_arith);
        assert(ni * 1 == ni);
    }
    // e_k * v_i * w^k == n * v_i == e_i * w^i * v_i == w^i
    lemma_congruent_mul(ek * wk, ni, vi, vi);
    lemma_congruent_mul(ei * wi, ni, vi, vi);
    lemma_congruent_mul(ei * vi, 1, wi, wi);
    assert(ek * vi * wk == (ek * wk) * vi) by (nonlinear_arith);
    assert((ei * wi) * vi == (ei * vi) * wi) by (nonlinear_arith);
    assert(1 * wi == wi);
}

/// The identity for one domain point `i` other than the singular one.
proof fn lemma_term_identity(
    li: int,
    lk: int,
    q: int,
    ratio: int,
    s: int,
    wi: int,
    wk: int,
    uk: int,
    pi: int,
    pk: int,
)
    requires
        congruent(q * (wi - wk), pi - pk),
        congruent(li * (s - wi) * wk, lk * (s - wk) * wi),
        congruent(ratio * wk, wi),
        congruent(wk * uk, 1),
    ensures
        congruent((li * q - lk * (ratio * q)) * (s - wk), (pi - pk) * li),
{
    let b = (li * q - lk * (ratio * q)) * (s - wk);
    let c = (pi - pk) * li;
    // b * w^k is congruent to c * w^k
    let t = s - wk;
    let x = li * q;
    let y = lk * (ratio * q);
    let rw = ratio * wk;
    assert(b * wk == x * t * wk - y * t * wk) by (nonlinear_arith)
        requires
            b == (x - y) * t,
    ;
    assert(x * t * wk == q * (li * t * wk)) by (nonlinear_arith)
        requires
            x == li * q,
    ;
    assert(y * t * wk == q * (lk * t * rw)) by (nonlinear_arith)
        requires
            y == lk * (ratio * q),
            rw == ratio * wk,
    ;
    assert(q * (li * t * wk) - q * (lk * t * rw) == q * (li * t * wk - lk * t * rw))
        by (nonlinear_arith);
    assert(b * wk == q * (li * (s - wk) * wk - lk * (s - wk) * (ratio * wk)));
    lemma_congruent_mul(lk * (s - wk), lk * (s - wk), ratio * wk, wi);
    assert(lk * (s - wk) * (ratio * wk) == (lk * (s - wk)) * (ratio * wk));
    lemma_congruent_sub(
        li * (s - wk) * wk,
        li * (s - wk) * wk,
        lk * (s - wk) * (ratio * wk),
        li * (s - wi) * wk,
    );
    lemma_congruent_mul(
        q,
        q,
        li * (s - wk) * wk - lk * (s - wk) * (ratio * wk),
        li * (s - wk) * wk - li * (s - wi) * wk,
    );
    assert(q * (li * (s - wk) * wk - li * (s - wi) * wk) == (li * wk) * (q * (wi - wk)))
        by (nonlinear_arith);
    lemma_congruent_mul(li * wk, li * wk, q * (wi - wk), pi - pk);
    assert((li * wk) * (pi - pk) == c * wk) by (nonlinear_arith)
        requires
            c == (pi - pk) * li,
    ;
    assert(congruent(b * wk, c * wk));
    // and w^k cancels
    lemma_congruent_mul(b * wk, c * wk, uk, uk);
    lemma_congruent_mul(b, b, wk * uk, 1);
    lemma_congruent_mul(c, c, wk * uk, 1);
    assert(b * wk * uk == b * (wk * uk)) by (nonlinear_arith);
    assert(c * wk * uk == c * (wk * uk)) by (nonlinear_arith);
    assert(b * 1 == b && c * 1 == c);
}

/// The opening identity at a domain point.
///
/// Let `q` be the quotient of `values` at the domain index `index`, as
/// `divide_by_vanishing` returns it: the entries of `domain_quotient`, each of
/// which away from `index` gives back `f(i) - f(index)` when multiplied by
/// `w^i - w^index`. Let `srs` hold the values of the domain's Lagrange
/// polynomials at `s`. Then the inner product of `srs` with `q`, times
/// `s - w^index`, is the inner product of `srs` with the values, minus the
/// value at `index`.
pub proof fn lemma_opening_identity(
    values: Seq<nat>,
    table: TableView,
    index: nat,
    srs: Seq<nat>,
    s: nat,
)
    requires
        table.wf(),
        values.len() <= table.size,
        index < table.size,
        is_lagrange_evaluation(srs, table.root, table.size, s),
        forall|i: int|
            0 <= i < table.size && i != index ==> fmul(
                #[trigger] domain_quotient(values, table, index)[i],
                fsub(fpow(table.root, i as nat), fpow(table.root, index)),
            ) == fsub(padded(values, i as nat), padded(values, index)),
    ensures
        fmul(
            inner_product_spec::<Scalar, Scalar>(srs, domain_quotient(values, table, index)),
            fsub(s, fpow(table.root, index)),
        ) == fsub(inner_product_spec::<Scalar, Scalar>(srs, values), padded(values, index)),
{
    let n = table.size;
    let w = table.root;
    let k = index as int;
    let m = modulus() as int;
    let q = domain_quotient(values, table, index);
    let wk = fpow(w, index) as int;
    let si = s as int;
    let d = fsub(s, fpow(w, index));
    let pk = padded(values, index) as int;
    let lk = srs[k] as int;
    let terms = singular_terms(values, table, index, n);
    let ipq = inner_product_spec::<Scalar, Scalar>(srs, q);
    let ip = inner_product_spec::<Scalar, Scalar>(srs, values);

    // the inner product with the quotient, as a sum without the singular term
    let p = products(srs, q);
    let a = Seq::new(
        n,
        |i: int|
            if i == k {
                0
            } else {
                srs[i] as int * q[i] as int - lk * terms[i]
            },
    );
    lemma_inner_product_congruent(srs, q);
    assert(congruent(isum(p), isum(a))) by {
        lemma_isum_without(p, k);
        let rest = p.update(k, 0);
        let scaled = Seq::new(n, |i: int| terms[i] * lk);
        lemma_isum_scale(terms, lk, scaled);
        lemma_singular_congruent(values, table, index, n);
        lemma_congruent_mul(lk, lk, q[k] as int, -isum(terms));
        assert(lk * (-isum(terms)) == -(isum(terms) * lk)) by (nonlinear_arith);
        assert(p[k] == lk * q[k] as int);
        lemma_congruent_add(isum(rest), isum(rest), p[k], -isum(scaled));
        assert forall|i: int| 0 <= i < n implies #[trigger] a[i] == rest[i] - scaled[i] by {
            assert(lk * terms[i] == terms[i] * lk) by (nonlinear_arith);
            if i == k {
                assert(terms[i] == 0);
                assert(0 * lk == 0);
            }
        }
        lemma_isum_sub(rest, scaled, a);
    }

    // times s - w^k, term by term
    let b = Seq::new(n, |i: int| a[i] * (si - wk));
    lemma_isum_scale(a, si - wk, b);
    let c = Seq::new(n, |i: int| (padded(values, i as nat) as int - pk) * srs[i] as int);
    assert forall|i: int| 0 <= i < n implies congruent(#[trigger] b[i], c[i]) by {
        if i == k {
            assert(0 * (si - wk) == 0);
            assert((pk - pk) * srs[i] as int == 0) by (nonlinear_arith);
        } else {
            let wi = fpow(w, i as nat) as int;
            let li = srs[i] as int;
            let pi = padded(values, i as nat) as int;
            let ratio = table.evaluations[k] as int * table.inverses[i] as int;
            let qi = quotient_entry(values, w, index, i as nat);
            assert(q[i] == qi);
            lemma_fmul_congruent(q[i], fsub(fpow(w, i as nat), fpow(w, index)));
            lemma_fsub_congruent(fpow(w, i as nat), fpow(w, index));
            lemma_congruent_mul(
                qi as int,
                qi as int,
                fsub(fpow(w, i as nat), fpow(w, index)) as int,
                wi - wk,
            );
            lemma_fsub_congruent(padded(values, i as nat), padded(values, index));
            assert(congruent(qi as int * (wi - wk), pi - pk));
            // the symmetry of the reference string, over the integers
            assert(congruent(li * (si - wi) * wk, lk * (si - wk) * wi)) by {
                let fi = fsub(s, fpow(w, i as nat));
                let fk = fsub(s, fpow(w, index));
                assert(srs[i] == srs[i] && srs[k] == srs[k]);
                assert(fmul(fmul(srs[i], fi), fpow(w, index)) == fmul(
                    fmul(srs[k], fk),
                    fpow(w, i as nat),
                ));
                lemma_fsub_congruent(s, fpow(w, i as nat));
                lemma_fsub_congruent(s, fpow(w, index));
                lemma_fmul_congruent(srs[i], fi);
                lemma_fmul_congruent(srs[k], fk);
                lemma_fmul_congruent(fmul(srs[i], fi), fpow(w, index));
                lemma_fmul_congruent(fmul(srs[k], fk), fpow(w, i as nat));
                lemma_congruent_mul(li, li, fi as int, si - wi);
                lemma_congruent_mul(lk, lk, fk as int, si - wk);
                lemma_congruent_mul(fmul(srs[i], fi) as int, li * (si - wi), wk, wk);
                lemma_congruent_mul(fmul(srs[k], fk) as int, lk * (si - wk), wi, wi);
            }
            lemma_derivative_ratio(table, i as nat, index);
            lemma_root_power_inverse(w, n, index);
            let uk = fpow(w, (n - index) as nat);
            lemma_fmul_congruent(fpow(w, index), uk);
            lemma_term_identity(li, lk, qi as int, ratio, si, wi, wk, uk as int, pi, pk);
            assert(terms[i] == ratio * qi as int);
        }
    }
    lemma_isum_congruent(b, c);

    // the right-hand side: the values' inner product, minus the value times one
    let dv = Seq::new(n, |i: int| padded(values, i as nat) as int * srs[i] as int);
    let ls = Seq::new(n, |i: int| srs[i] as int);
    let scaled_ls = Seq::new(n, |i: int| ls[i] * pk);
    lemma_isum_scale(ls, pk, scaled_ls);
    assert forall|i: int| 0 <= i < n implies #[trigger] c[i] == dv[i] - scaled_ls[i] by {
        let x = padded(values, i as nat) as int;
        let l = srs[i] as int;
        assert((x - pk) * l == x * l - l * pk) by (nonlinear_arith);
    }
    lemma_isum_sub(dv, scaled_ls, c);
    assert(isum(dv) == isum(products(srs, values))) by {
        assert forall|i: int| values.len() <= i < n implies dv[i] == 0 by {
            assert(0 * srs[i] as int == 0);
        }
        lemma_isum_zero_tail(dv, values.len() as int);
        let head = dv.subrange(0, values.len() as int);
        assert forall|i: int| 0 <= i < values.len() implies #[trigger] head[i] == products(
            srs,
            values,
        )[i] by {
            assert(values[i] as int * srs[i] as int == srs[i] as int * values[i] as int)
                by (nonlinear_arith);
        }
        assert(head =~= products(srs, values));
    }
    lemma_inner_product_congruent(srs, values);
    lemma_inner_product_congruent(srs, ones(n));
    assert(isum(products(srs, ones(n))) == isum(ls)) by {
        assert forall|i: int| 0 <= i < n implies #[trigger] products(srs, ones(n))[i]
            == ls[i] by {
            assert(srs[i] as int * 1 == srs[i] as int);
        }
        assert(products(srs, ones(n)) =~= ls);
    }
    lemma_congruent_mul(isum(ls), 1, pk, pk);
    assert(1 * pk == pk);
    lemma_congruent_sub(isum(dv), ip as int, isum(ls) * pk, pk);
    lemma_fsub_congruent(ip, padded(values, index));

    // both sides are congruent and reduced
    let lhs = fmul(ipq, d);
    lemma_fmul_congruent(ipq, d);
    lemma_fsub_congruent(s, fpow(w, index));
    lemma_congruent_mul(ipq as int, isum(a), d as int, si - wk);
    assert(congruent(lhs as int, fsub(ip, padded(values, index)) as int));
    lemma_mod_bound((ipq * d) as int, m);
    lemma_mod_bound(ip as int - pk, m);
    lemma_small_mod(lhs, modulus());
    lemma_small_mod(fsub(ip, padded(values, index)), modulus());
}

} // verus!
