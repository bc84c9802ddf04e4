//! Working over a domain of roots of unity makes evaluation-form polynomial
//! arithmetic cheap, given a table of the derivative of the vanishing polynomial
//! at every point of the domain.

use crate::domain::{
    domain_size_for, is_power_of_two, root_of_unity, EvaluationDomain, MAX_DOMAIN_SIZE,
};
use crate::field::{batch_inversion, fdiv, finv, fmul, fpow, fsub, is_inverse, Scalar};
use crate::field_lemmas::{
    is_primitive_root, lemma_fpow_reduced, lemma_fsub_nonzero, lemma_quotient_times_divisor,
    lemma_root_power_inverse, lemma_root_power_is_root, lemma_fmul_zero,
};
use crate::utils::copy_of;
use crate::KZGError;
use vstd::prelude::*;

verus! {

/// The derivative of `X^n - 1` at the `i`-th power of `w`: `n * w^(-i)`.
pub open spec fn vanishing_value(w: nat, n: nat, i: nat) -> nat {
    fmul(n, finv(fpow(w, i)))
}

/// The constant `(z^n - 1) / n` of the barycentric formula.
pub open spec fn barycentric_constant(n: nat, z: nat) -> nat {
    fdiv(fsub(fpow(z, n), 1), n)
}

/// The `i`-th barycentric coefficient of a point `z` outside the domain:
/// `t * w^i / (z - w^i)` with `t` the barycentric constant.
pub open spec fn barycentric_weight(w: nat, n: nat, z: nat, i: nat) -> nat {
    fdiv(fmul(barycentric_constant(n, z), fpow(w, i)), fsub(z, fpow(w, i)))
}

/// The `i`-th entry of the unit vector at `at`.
pub open spec fn unit_entry(at: nat, i: nat) -> nat {
    if i == at {
        1
    } else {
        0
    }
}

/// The barycentric coefficients of `point` over the domain of `n` points
/// generated by `w`: the unit vector where the point is a domain index, and the
/// barycentric weights elsewhere.
pub open spec fn barycentric_coefficients(w: nat, n: nat, point: nat) -> Seq<nat> {
    Seq::new(
        n,
        |i: int|
            if point < n {
                unit_entry(point, i as nat)
            } else {
                barycentric_weight(w, n, point, i as nat)
            },
    )
}

/// What a table holds: the domain's size and generator, the vanishing
/// derivative at every point, and the inverses of those.
pub struct TableView {
    pub size: nat,
    pub domain_size: nat,
    pub root: nat,
    pub evaluations: Seq<nat>,
    pub inverses: Seq<nat>,
}

impl TableView {
    /// The table's invariant.
    pub open spec fn wf(self) -> bool {
        &&& self.size == self.domain_size
        &&& is_power_of_two(self.size)
        &&& self.size <= MAX_DOMAIN_SIZE
        &&& is_primitive_root(self.root, self.size)
        &&& self.evaluations.len() == self.size
        &&& self.inverses.len() == self.size
        &&& forall|i: int|
            0 <= i < self.size ==> #[trigger] self.evaluations[i] == vanishing_value(
                self.root,
                self.size,
                i as nat,
            )
        &&& forall|i: int|
            0 <= i < self.size ==> is_inverse(#[trigger] self.evaluations[i], self.inverses[i])
        &&& forall|i: int|
            0 <= i < self.size ==> #[trigger] self.inverses[i] == finv(self.evaluations[i])
    }
}

/// Precomputes the evaluations (and inverses) of the derivative of the vanishing
/// polynomial on a domain of roots of unity.
#[derive(Debug)]
pub struct PrecomputedLagrange {
    size: usize,
    domain: EvaluationDomain,
    vanishing_evaluations: Vec<Scalar>,
    vanishing_evaluations_inv: Vec<Scalar>,
}

impl View for PrecomputedLagrange {
    type V = TableView;

    closed spec fn view(&self) -> TableView {
        TableView {
            size: self.size as nat,
            domain_size: self.domain.size_spec(),
            root: self.domain.root(),
            evaluations: Seq::new(
                self.vanishing_evaluations@.len(),
                |i: int| self.vanishing_evaluations@[i]@,
            ),
            inverses: Seq::new(
                self.vanishing_evaluations_inv@.len(),
                |i: int| self.vanishing_evaluations_inv@[i]@,
            ),
        }
    }
}

impl Clone for PrecomputedLagrange {
    fn clone(&self) -> (r: Self)
        ensures
            r@ == self@,
    {
        proof {
            use_type_invariant(self);
        }
        let evals = copy_of(&self.vanishing_evaluations);
        let inv = copy_of(&self.vanishing_evaluations_inv);
        let r = PrecomputedLagrange {
            size: self.size,
            domain: self.domain,
            vanishing_evaluations: evals,
            vanishing_evaluations_inv: inv,
        };
        assert(r@.evaluations =~= self@.evaluations);
        assert(r@.inverses =~= self@.inverses);
        r
    }
}

impl PrecomputedLagrange {
    /// The table's invariant, which every table holds.
    #[verifier::type_invariant]
    pub open spec fn wf(&self) -> bool {
        self@.wf()
    }

    /// The table for the domain made for `size` points: the smallest domain with
    /// at least that many. Fails with `InvalidDomain` where there is none.
    pub fn new(size: usize) -> (r: Result<PrecomputedLagrange, KZGError>)
        ensures
            r.is_ok() <==> size <= MAX_DOMAIN_SIZE,
            r.is_err() ==> r == Err::<PrecomputedLagrange, KZGError>(KZGError::InvalidDomain),
            r.is_ok() ==> r.unwrap().wf() && r.unwrap()@.size == domain_size_for(size as nat)
                && r.unwrap()@.root == root_of_unity(domain_size_for(size as nat)),
    {
        match EvaluationDomain::new(size) {
            None => Err(KZGError::InvalidDomain),
            Some(domain) => {
                let (evals, inv) = Self::compute_vanishing_evaluations(
                    domain.size(),
                    &domain.group_gen(),
                );
                Ok(
                    PrecomputedLagrange {
                        size: domain.size(),
                        domain,
                        vanishing_evaluations: evals,
                        vanishing_evaluations_inv: inv,
                    },
                )
            },
        }
    }

    /// The values `size * unity^(-i)` for every `i` below `size`, and their
    /// inverses.
    pub fn compute_vanishing_evaluations(size: usize, unity: &Scalar) -> (r: (
        Vec<Scalar>,
        Vec<Scalar>,
    ))
        requires
            is_primitive_root(unity@, size as nat),
            size >= 1,
        ensures
            r.0@.len() == size,
            r.1@.len() == size,
            forall|i: int|
                0 <= i < size ==> #[trigger] r.0@[i]@ == vanishing_value(
                    unity@,
                    size as nat,
                    i as nat,
                ),
            forall|i: int| 0 <= i < size ==> is_inverse(#[trigger] r.0@[i]@, r.1@[i]@),
            forall|i: int| 0 <= i < size ==> #[trigger] r.1@[i]@ == finv(r.0@[i]@),
    {
        let mut evals: Vec<Scalar> = Vec::new();
        let mut inv: Vec<Scalar> = Vec::new();
        let n_f = Scalar::from_u64(size as u64);
        let mut i: usize = 0;
        while i < size
            invariant
                i <= size,
                is_primitive_root(unity@, size as nat),
                n_f@ == size,
                evals@.len() == i,
                inv@.len() == i,
                forall|j: int| 0 <= j < i ==> inv@[j] == evals@[j],
                forall|j: int|
                    0 <= j < i ==> #[trigger] evals@[j]@ == vanishing_value(
                        unity@,
                        size as nat,
                        j as nat,
                    ),
                forall|j: int| 0 <= j < i ==> #[trigger] evals@[j]@ != 0,
            decreases size - i,
        {
            let power = unity.pow(i as u64);
            proof {
                lemma_root_power_inverse(unity@, size as nat, i as nat);
            }
            let power_inv = power.inverse().unwrap();
            let value = n_f.times(&power_inv);
            proof {
                // a zero product would make `size` itself zero
                if value@ == 0 {
                    lemma_fmul_commutative_inverse(power@, power_inv@);
                    lemma_quotient_times_divisor(n_f@, power@, power_inv@);
                    lemma_fmul_zero(power@);
                }
            }
            evals.push(value);
            inv.push(value);  // batch inverted after the loop
            i += 1;
        }
        let ghost before = inv@;
        batch_inversion(&mut inv);
        proof {
            assert forall|j: int| 0 <= j < size implies is_inverse(
                #[trigger] evals@[j]@,
                inv@[j]@,
            ) by {
                assert(before[j]@ != 0);
            }
            assert forall|j: int| 0 <= j < size implies #[trigger] inv@[j]@ == finv(
                evals@[j]@,
            ) by {
                assert(before[j]@ != 0);
            }
        }
        (evals, inv)
    }

    /// The number of points of the table's domain.
    pub fn size(&self) -> (r: usize)
        ensures
            r == self@.size,
            self.wf(),
    {
        proof {
            use_type_invariant(self);
        }
        self.size
    }

    /// The vanishing derivative at the `point`-th domain point.
    pub fn vanishing_at(&self, point: usize) -> (r: Scalar)
        requires
            point < self@.size,
        ensures
            r@ == self@.evaluations[point as int],
    {
        proof {
            use_type_invariant(self);
        }
        self.vanishing_evaluations[point]
    }

    /// The inverse of the vanishing derivative at the `point`-th domain point.
    pub fn vanishing_inverse_at(&self, point: usize) -> (r: Scalar)
        requires
            point < self@.size,
        ensures
            r@ == self@.inverses[point as int],
    {
        proof {
            use_type_invariant(self);
        }
        self.vanishing_evaluations_inv[point]
    }

    /// The table's domain.
    pub fn domain(&self) -> (r: &EvaluationDomain)
        ensures
            r.size_spec() == self@.size,
            r.root() == self@.root,
            r.wf(),
    {
        proof {
            use_type_invariant(self);
        }
        &self.domain
    }

    /// The vector whose inner product with a polynomial's values on the domain
    /// is the polynomial's value at `point`.
    ///
    /// A point below the domain's size is a domain index, and its vector is the
    /// unit vector at that index. Any other point is taken as a field element,
    /// which must lie outside the domain: its `i`-th coefficient is
    /// `t * w^i / (point - w^i)` with `t = (point^n - 1) / n`.
    pub fn compute_barycentric_coefficients(&self, point: Scalar) -> (r: Vec<Scalar>)
        requires
            point@ < self@.size || fpow(point@, self@.size) != 1,
        ensures
            r@.len() == self@.size,
            forall|i: int|
                0 <= i < r@.len() ==> #[trigger] r@[i]@ == barycentric_coefficients(
                    self@.root,
                    self@.size,
                    point@,
                )[i],
            point@ < self@.size ==> forall|i: int|
                0 <= i < r@.len() ==> #[trigger] r@[i]@ == unit_entry(point@, i as nat),
    {
        proof {
            use_type_invariant(self);
        }
        let mut res: Vec<Scalar> = Vec::new();
        if point.is_less_than(self.size as u64) {
            let at = point.to_u64().unwrap();
            let mut i: usize = 0;
            while i < self.size
                invariant
                    i <= self.size,
                    at == point@,
                    res@.len() == i,
                    forall|j: int| 0 <= j < i ==> #[trigger] res@[j]@ == unit_entry(at as nat, j as nat),
                decreases self.size - i,
            {
                if i as u64 == at {
                    res.push(Scalar::one());
                } else {
                    res.push(Scalar::zero());
                }
                i += 1;
            }
            return res;
        }
        let unity = self.domain.group_gen();
        let n_f = Scalar::from_u64(self.size as u64);
        // t is the constant outside the summation
        let t = point.pow(self.size as u64).minus(&Scalar::one()).divided_by(&n_f);
        let mut i: usize = 0;
        while i < self.size
            invariant
                i <= self.size,
                self.wf(),
                unity@ == self@.root,
                point@ >= self@.size,
                fpow(point@, self@.size) != 1,
                t@ == barycentric_constant(self@.size, point@),
                res@.len() == i,
                forall|j: int|
                    0 <= j < i ==> #[trigger] res@[j]@ == barycentric_weight(
                        self@.root,
                        self@.size,
                        point@,
                        j as nat,
                    ),
            decreases self.size - i,
        {
            let power = unity.pow(i as u64);
            proof {
                use_type_invariant(&point);
                lemma_fpow_reduced(unity@, i as nat);
                if point@ == power@ {
                    lemma_root_power_is_root(unity@, self@.size, i as nat);
                }
                lemma_fsub_nonzero(point@, power@);
            }
            res.push(t.times(&power).divided_by(&point.minus(&power)));
            i += 1;
        }
        res
    }
}

/// An inverse pair read the other way round.
pub proof fn lemma_fmul_commutative_inverse(a: nat, x: nat)
    requires
        is_inverse(a, x),
    ensures
        fmul(x, a) == 1,
{
    assert(a * x == x * a) by (nonlinear_arith);
}

} // verus!
