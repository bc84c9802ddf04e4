//! Polynomials held by their values on an evaluation domain.

use crate::algebra::views;
use crate::domain::{ifft_values, lemma_domain_size_for, EvaluationDomain, MAX_DOMAIN_SIZE};
use crate::field::{fdiv, fmul, fpow, fsub, le_bytes_value, modulus, Scalar};
use crate::field_lemmas::{
    lemma_fadd_zero, lemma_fmul_zero, lemma_fpow_reduced, lemma_fsub_nonzero,
    lemma_quotient_times_divisor, lemma_root_power_is_root, lemma_root_powers_distinct,
};
use crate::precompute::{barycentric_coefficients, PrecomputedLagrange, TableView};
use crate::utils::{inner_product, inner_product_spec, to_usize};
use crate::VCData;
use vstd::arithmetic::div_mod::lemma_mod_bound;
use vstd::prelude::*;

verus! {

/// The value at the `i`-th domain point of a vector that is zero beyond its
/// own length.
pub open spec fn padded(values: Seq<nat>, i: nat) -> nat {
    if i < values.len() {
        values[i as int]
    } else {
        0
    }
}

/// The value at `point` of the polynomial with the given values on the domain
/// of `n` points generated by `w`: the stored value where the point is one of
/// the vector's own indices, and the inner product of the barycentric
/// coefficients with the values elsewhere.
pub open spec fn evaluate_spec(values: Seq<nat>, w: nat, n: nat, point: nat) -> nat {
    if point < values.len() {
        values[point as int]
    } else {
        inner_product_spec::<Scalar, Scalar>(barycentric_coefficients(w, n, point), values)
    }
}

/// The quotient `(f(i) - f(index)) / (w^i - w^index)` at a domain point other
/// than the one divided out.
pub open spec fn quotient_entry(values: Seq<nat>, w: nat, index: nat, i: nat) -> nat {
    fdiv(fsub(padded(values, i), padded(values, index)), fsub(fpow(w, i), fpow(w, index)))
}

/// The quotient at the point divided out, summed over the first `k` domain
/// points: minus the sum of `A'(index) / A'(i)` times the quotient at `i`, over
/// the points `i` other than `index`, with `A'` the table's vanishing
/// derivative.
pub open spec fn singular_quotient(values: Seq<nat>, table: TableView, index: nat, k: nat) -> nat
    decreases k,
{
    if k == 0 {
        0
    } else {
        let i = (k - 1) as nat;
        let before = singular_quotient(values, table, index, i);
        if i == index {
            before
        } else {
            fsub(
                before,
                fmul(
                    fmul(table.evaluations[index as int], table.inverses[i as int]),
                    quotient_entry(values, table.root, index, i),
                ),
            )
        }
    }
}

/// The values on the domain of the quotient of `f(X) - f(index)` by
/// `X - w^index`.
pub open spec fn domain_quotient(values: Seq<nat>, table: TableView, index: nat) -> Seq<nat> {
    Seq::new(
        table.size,
        |i: int|
            if i == index {
                singular_quotient(values, table, index, table.size)
            } else {
                quotient_entry(values, table.root, index, i as nat)
            },
    )
}

/// The quotient `(f(i) - y) / (w^i - z)` for a point `z` outside the domain
/// and the value `y` there.
pub open spec fn outside_quotient_entry(values: Seq<nat>, w: nat, y: nat, z: nat, i: nat) -> nat {
    fdiv(fsub(padded(values, i), y), fsub(fpow(w, i), z))
}

/// The values on the domain of the quotient of `f(X) - f(z)` by `X - z`.
pub open spec fn outside_quotient(values: Seq<nat>, w: nat, n: nat, z: nat) -> Seq<nat> {
    Seq::new(
        n,
        |i: int| outside_quotient_entry(values, w, evaluate_spec(values, w, n, z), z, i as nat),
    )
}

/// An inner product whose coefficients are all zero is zero.
pub proof fn lemma_inner_product_zero_coefficients(a: Seq<nat>, b: Seq<nat>)
    requires
        b.len() <= a.len(),
        forall|i: int| 0 <= i < b.len() ==> a[i] == 0,
    ensures
        inner_product_spec::<Scalar, Scalar>(a, b) == 0,
    decreases b.len(),
{
    if b.len() > 0 {
        lemma_inner_product_zero_coefficients(a, b.drop_last());
        lemma_fmul_zero(b.last());
        lemma_fadd_zero(0);
    }
}

/// A vector evaluates to zero at every domain index beyond its own length.
pub proof fn lemma_evaluate_beyond_length(values: Seq<nat>, w: nat, n: nat, point: nat)
    requires
        values.len() <= point < n,
    ensures
        evaluate_spec(values, w, n, point) == 0,
{
    lemma_inner_product_zero_coefficients(barycentric_coefficients(w, n, point), values);
}

/// A polynomial of degree below the size of its domain, by its values on the
/// first domain points; the values beyond its own length are zero.
#[derive(Debug)]
pub struct LagrangeBasis {
    elements: Vec<Scalar>,
    domain: EvaluationDomain,
}

impl View for LagrangeBasis {
    type V = Seq<nat>;

    closed spec fn view(&self) -> Seq<nat> {
        views(self.elements@)
    }
}

impl Clone for LagrangeBasis {
    fn clone(&self) -> (r: Self)
        ensures
            r@ == self@,
            r.domain_size() == self.domain_size(),
            r.domain_root() == self.domain_root(),
    {
        proof {
            use_type_invariant(self);
        }
        LagrangeBasis { elements: crate::utils::copy_of(&self.elements), domain: self.domain }
    }
}

impl LagrangeBasis {
    /// The size of the domain that the values are on.
    pub closed spec fn domain_size(&self) -> nat {
        self.domain.size_spec()
    }

    /// The generator of that domain.
    pub closed spec fn domain_root(&self) -> nat {
        self.domain.root()
    }

    /// The entries as they are held.
    pub closed spec fn entries(&self) -> Seq<Scalar> {
        self.elements@
    }

    /// The invariant, which every value holds: there are no more values than
    /// the domain has points.
    #[verifier::type_invariant]
    pub closed spec fn wf(&self) -> bool {
        self.elements@.len() <= self.domain.size_spec()
    }

    /// The entries of the dataset are the entries as they are held.
    pub proof fn lemma_items(&self)
        ensures
            self.items() == self.entries(),
            self@ == views(self.entries()),
    {
    }

    /// The values `data` over the given domain.
    pub fn from_vec_and_domain(data: Vec<Scalar>, domain: EvaluationDomain) -> (r: Self)
        requires
            data@.len() <= domain.size_spec(),
        ensures
            r@ == views(data@),
            r.entries() == data@,
            r.domain_size() == domain.size_spec(),
            r.domain_root() == domain.root(),
    {
        LagrangeBasis { elements: data, domain }
    }

    /// The number of values.
    pub fn len(&self) -> (r: usize)
        ensures
            r == self@.len(),
            r <= self.domain_size(),
    {
        proof {
            use_type_invariant(self);
        }
        self.elements.len()
    }

    /// The values.
    pub fn elements_ref(&self) -> (r: &Vec<Scalar>)
        ensures
            r@ == self.entries(),
            views(r@) == self@,
    {
        &self.elements
    }

    /// The domain that the values are on.
    pub fn domain(&self) -> (r: &EvaluationDomain)
        ensures
            r.size_spec() == self.domain_size(),
            r.root() == self.domain_root(),
    {
        &self.domain
    }

    /// The value at `index`.
    pub fn index(&self, index: usize) -> (r: &Scalar)
        requires
            index < self@.len(),
        ensures
            r@ == self@[index as int],
    {
        &self.elements[index]
    }

    /// The polynomial's value at `point`.
    ///
    /// A point below the vector's length is an index, and the stored value is
    /// returned. Any other point goes through the barycentric coefficients of
    /// the table: a domain index beyond the vector's length gives zero.
    pub fn evaluate(&self, precompute: &PrecomputedLagrange, point: Scalar) -> (r: Scalar)
        requires
            self@.len() <= precompute@.size,
            point@ < precompute@.size || fpow(point@, precompute@.size) != 1,
        ensures
            r@ == evaluate_spec(self@, precompute@.root, precompute@.size, point@),
            self@.len() <= point@ < precompute@.size ==> r@ == 0,
    {
        if point.is_less_than(self.elements.len() as u64) {
            return self.elements[to_usize(&point)];
        }
        let coeffs = precompute.compute_barycentric_coefficients(point);
        proof {
            assert(views(coeffs@) =~= barycentric_coefficients(
                precompute@.root,
                precompute@.size,
                point@,
            ));
            if point@ < precompute@.size {
                lemma_evaluate_beyond_length(self@, precompute@.root, precompute@.size, point@);
            }
        }
        inner_product(coeffs.as_slice(), self.elements.as_slice())
    }

    /// The coefficients of the polynomial, by the inverse transform over the
    /// vector's own domain.
    pub fn interpolate(&self) -> (r: Vec<Scalar>)
        ensures
            views(r@) == ifft_values(self.domain_size(), self@),
            r@.len() == self.domain_size(),
    {
        self.domain.ifft(self.elements.as_slice())
    }

    /// The value at the `i`-th domain point, zero beyond the vector's length.
    fn padded_at(&self, i: usize) -> (r: Scalar)
        ensures
            r@ == padded(self@, i as nat),
    {
        if i < self.elements.len() {
            self.elements[i]
        } else {
            Scalar::zero()
        }
    }

    /// The values on the table's domain of the quotient of `f(X) - f(index)` by
    /// `X - w^index`, the index being a domain index.
    ///
    /// Away from `index` the entry is `(f(i) - f(index)) / (w^i - w^index)`, so
    /// that its product with `w^i - w^index` is `f(i) - f(index)`. At `index`
    /// itself the entry comes from the table of vanishing derivatives.
    pub fn divide_by_vanishing(&self, precompute: &PrecomputedLagrange, index: usize) -> (r: Vec<
        Scalar,
    >)
        requires
            self@.len() <= precompute@.size,
            index < precompute@.size,
        ensures
            views(r@) == domain_quotient(self@, precompute@, index as nat),
            r@.len() == precompute@.size,
            forall|i: int|
                0 <= i < r@.len() && i != index ==> fmul(
                    #[trigger] r@[i]@,
                    fsub(fpow(precompute@.root, i as nat), fpow(precompute@.root, index as nat)),
                ) == fsub(padded(self@, i as nat), padded(self@, index as nat)),
    {
        let size = precompute.size();
        let domain = precompute.domain();
        let y = self.padded_at(index);
        let at = domain.element(index);
        let derivative = precompute.vanishing_at(index);
        let mut q: Vec<Scalar> = Vec::new();
        let mut acc = Scalar::zero();
        let ghost w = precompute@.root;
        let mut i: usize = 0;
        while i < size
            invariant
                i <= size,
                size == precompute@.size,
                index < size,
                precompute.wf(),
                domain.root() == w,
                w == precompute@.root,
                y@ == padded(self@, index as nat),
                at@ == fpow(w, index as nat),
                derivative@ == precompute@.evaluations[index as int],
                q@.len() == i,
                acc@ == singular_quotient(self@, precompute@, index as nat, i as nat),
                forall|j: int|
                    0 <= j < i && j != index ==> #[trigger] q@[j]@ == quotient_entry(
                        self@,
                        w,
                        index as nat,
                        j as nat,
                    ),
                forall|j: int|
                    0 <= j < i && j != index ==> fmul(
                        #[trigger] q@[j]@,
                        fsub(fpow(w, j as nat), fpow(w, index as nat)),
                    ) == fsub(padded(self@, j as nat), padded(self@, index as nat)),
            decreases size - i,
        {
            if i == index {
                q.push(Scalar::zero());
            } else {
                let here = domain.element(i);
                proof {
                    lemma_fpow_reduced(w, i as nat);
                    lemma_fpow_reduced(w, index as nat);
                    if i < index {
                        lemma_root_powers_distinct(w, size as nat, i as nat, index as nat);
                    } else {
                        lemma_root_powers_distinct(w, size as nat, index as nat, i as nat);
                    }
                    lemma_fsub_nonzero(here@, at@);
                }
                let divisor = here.minus(&at);
                let difference = self.padded_at(i).minus(&y);
                let entry = difference.divided_by(&divisor);
                proof {
                    lemma_mod_bound(
                        padded(self@, i as nat) as int - padded(self@, index as nat) as int,
                        modulus() as int,
                    );
                    lemma_quotient_times_divisor(
                        difference@,
                        divisor@,
                        crate::field::finv(divisor@),
                    );
                }
                let weight = derivative.times(&precompute.vanishing_inverse_at(i));
                acc = acc.minus(&weight.times(&entry));
                q.push(entry);
            }
            i += 1;
        }
        q.set(index, acc);
        proof {
            assert(views(q@) =~= domain_quotient(self@, precompute@, index as nat));
        }
        q
    }

    /// The values on the table's domain of the quotient of `f(X) - f(point)` by
    /// `X - point`, for a point outside the domain: the entries
    /// `(f(i) - f(point)) / (w^i - point)`.
    pub fn divide_by_vanishing_outside_domain(
        &self,
        precompute: &PrecomputedLagrange,
        point: Scalar,
    ) -> (r: Vec<Scalar>)
        requires
            self@.len() <= precompute@.size,
            point@ >= precompute@.size,
            fpow(point@, precompute@.size) != 1,
        ensures
            views(r@) == outside_quotient(self@, precompute@.root, precompute@.size, point@),
            r@.len() == precompute@.size,
            forall|i: int|
                0 <= i < r@.len() ==> fmul(
                    #[trigger] r@[i]@,
                    fsub(fpow(precompute@.root, i as nat), point@),
                ) == fsub(
                    padded(self@, i as nat),
                    evaluate_spec(self@, precompute@.root, precompute@.size, point@),
                ),
    {
        let size = precompute.size();
        let domain = precompute.domain();
        let y = self.evaluate(precompute, point);
        let ghost w = precompute@.root;
        let mut q: Vec<Scalar> = Vec::new();
        let mut i: usize = 0;
        while i < size
            invariant
                i <= size,
                size == precompute@.size,
                precompute.wf(),
                domain.root() == w,
                w == precompute@.root,
                fpow(point@, size as nat) != 1,
                y@ == evaluate_spec(self@, w, size as nat, point@),
                q@.len() == i,
                forall|j: int|
                    0 <= j < i ==> #[trigger] q@[j]@ == outside_quotient_entry(
                        self@,
                        w,
                        y@,
                        point@,
                        j as nat,
                    ),
                forall|j: int|
                    0 <= j < i ==> fmul(#[trigger] q@[j]@, fsub(fpow(w, j as nat), point@))
                        == fsub(padded(self@, j as nat), y@),
            decreases size - i,
        {
            let here = domain.element(i);
            proof {
                use_type_invariant(&point);
                lemma_fpow_reduced(w, i as nat);
                if point@ == here@ {
                    lemma_root_power_is_root(w, size as nat, i as nat);
                }
                lemma_fsub_nonzero(here@, point@);
            }
            let divisor = here.minus(&point);
            let difference = self.padded_at(i).minus(&y);
            let entry = difference.divided_by(&divisor);
            proof {
                lemma_mod_bound(padded(self@, i as nat) as int - y@ as int, modulus() as int);
                lemma_quotient_times_divisor(
                    difference@,
                    divisor@,
                    crate::field::finv(divisor@),
                );
            }
            q.push(entry);
            i += 1;
        }
        proof {
            assert(views(q@) =~= outside_quotient(self@, w, size as nat, point@));
        }
        q
    }
}

impl VCData for LagrangeBasis {
    type Item = Scalar;

    closed spec fn items(&self) -> Seq<Scalar> {
        self.elements@
    }

    open spec fn valid_length(len: nat) -> bool {
        len <= MAX_DOMAIN_SIZE
    }

    open spec fn is_index_item(index: nat, item: Scalar) -> bool {
        item@ == index
    }

    /// The values `data` over the smallest domain that holds them.
    fn from_vec(data: Vec<Scalar>) -> (r: Self)
        ensures
            r@ == views(data@),
            r.domain_size() == crate::domain::domain_size_for(data@.len()),
            r.domain_root() == crate::domain::root_of_unity(r.domain_size()),
    {
        let domain = EvaluationDomain::new(data.len()).unwrap();
        proof {
            lemma_domain_size_for(data@.len());
        }
        LagrangeBasis { elements: data, domain }
    }

    fn set_evaluation(&mut self, index: usize, value: Scalar)
        ensures
            final(self)@ == old(self)@.update(index as int, value@),
            final(self).domain_size() == old(self).domain_size(),
            final(self).domain_root() == old(self).domain_root(),
    {
        proof {
            use_type_invariant(&*self);
        }
        let mut elements = crate::utils::copy_of(self.elements.as_slice());
        elements.set(index, value);
        proof {
            assert(views(elements@) =~= views(self.elements@).update(index as int, value@));
        }
        *self = LagrangeBasis { elements, domain: self.domain };
    }

    fn get(&self, index: usize) -> (r: Option<&Scalar>) {
        if index < self.elements.len() {
            Some(&self.elements[index])
        } else {
            None
        }
    }

    fn get_all(&self) -> (r: Vec<(usize, &Scalar)>) {
        let mut out: Vec<(usize, &Scalar)> = Vec::new();
        let mut i: usize = 0;
        while i < self.elements.len()
            invariant
                i <= self.elements@.len(),
                out@.len() == i,
                forall|j: int|
                    0 <= j < i ==> (#[trigger] out@[j]).0 == j && *out@[j].1 == self.elements@[j],
            decreases self.elements@.len() - i,
        {
            out.push((i, &self.elements[i]));
            i += 1;
        }
        out
    }

    /// The little-endian integer that the bytes denote, reduced modulo the
    /// field order.
    fn bytes_to_item(bytes: &[u8]) -> (r: Scalar)
        ensures
            r@ == le_bytes_value(bytes@) % modulus(),
    {
        Scalar::from_le_bytes_mod_order(bytes)
    }

    fn item_from_index(index: usize) -> (r: Scalar) {
        Scalar::from_u64(index as u64)
    }
}

} // verus!
