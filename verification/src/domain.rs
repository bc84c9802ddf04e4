//! Evaluation domains: the multiplicative subgroups of the scalar field over
//! which polynomials are held by their values, and the transforms between
//! values and coefficients.
//!
//! The subgroup generator and the transforms come from `ark-poly`. A domain is
//! held here by its size and its generator; the transforms are named by
//! uninterpreted functions of the requested size and the input vector.

use crate::curve::G1Point;
use crate::algebra::views;
use crate::field::{fadd, finv, fmul, fpow, Scalar};
use crate::field_lemmas::is_primitive_root;
use ark_ec::{AffineRepr, CurveGroup};
use ark_ff::PrimeField;
use ark_poly::EvaluationDomain as ArkEvaluationDomain;
use ark_poly::GeneralEvaluationDomain;
use ark_serialize::{CanonicalDeserialize, CanonicalSerialize};
use vstd::prelude::*;

verus! {

/// The largest domain that the scalar field supports: two to the power of its
/// two-adicity.
pub const MAX_DOMAIN_SIZE: usize = 0x1000_0000;

/// The generator that the transform library chooses for the domain of `size`
/// points.
pub uninterp spec fn root_of_unity(size: nat) -> nat;

/// A vector cut or padded with zeros to `n` entries.
pub open spec fn resized(xs: Seq<nat>, n: nat) -> Seq<nat> {
    Seq::new(n, |j: int| if j < xs.len() { xs[j] } else { 0 })
}

/// The sum of `xs[j] * w^(i * j)` over the `j` below `k`.
pub open spec fn power_sum(w: nat, xs: Seq<nat>, i: nat, k: nat) -> nat
    decreases k,
{
    if k == 0 {
        0
    } else {
        fadd(
            power_sum(w, xs, i, (k - 1) as nat),
            fmul(xs[k - 1], fpow(w, i * ((k - 1) as nat))),
        )
    }
}

/// The forward transform of `coeffs` over the domain made for `size` points:
/// the values at the domain's points of the polynomial with those coefficients.
pub open spec fn fft_values(size: nat, coeffs: Seq<nat>) -> Seq<nat> {
    let n = domain_size_for(size);
    let w = root_of_unity(n);
    Seq::new(n, |i: int| power_sum(w, resized(coeffs, n), i as nat, n))
}

/// The inverse transform of `evals` over the domain made for `size` points:
/// the same sums over the inverse of the generator, divided by the domain's
/// size.
pub open spec fn ifft_values(size: nat, evals: Seq<nat>) -> Seq<nat> {
    let n = domain_size_for(size);
    let w_inv = fpow(root_of_unity(n), (n - 1) as nat);
    Seq::new(n, |i: int| fmul(finv(n), power_sum(w_inv, resized(evals, n), i as nat, n)))
}

/// The forward transform of a vector of group elements.
pub uninterp spec fn g1_fft_values(size: nat, points: Seq<Seq<u8>>) -> Seq<Seq<u8>>;

/// The inverse transform of a vector of group elements.
pub uninterp spec fn g1_ifft_values(size: nat, points: Seq<Seq<u8>>) -> Seq<Seq<u8>>;

/// Whether `n` is a power of two.
pub open spec fn is_power_of_two(n: nat) -> bool
    decreases n,
{
    n == 1 || (n > 1 && n % 2 == 0 && is_power_of_two(n / 2))
}

/// The smallest power of two that is at least `n`.
pub open spec fn domain_size_for(n: nat) -> nat
    decreases n,
{
    if n <= 1 {
        1
    } else {
        2 * domain_size_for((n + 1) / 2)
    }
}

/// What makes a size and a generator a domain: the size is a power of two that
/// the field supports, and the generator has exactly that order.
pub open spec fn valid_domain(size: nat, root: nat) -> bool {
    &&& is_power_of_two(size)
    &&& size <= MAX_DOMAIN_SIZE
    &&& is_primitive_root(root, size)
}

/// A multiplicative subgroup of the scalar field, by its size and generator.
#[derive(Clone, Copy, Debug)]
pub struct EvaluationDomain {
    size: usize,
    group_gen: Scalar,
}

/// `GeneralEvaluationDomain::new` of ark-poly with its `size` and `group_gen`:
/// for this field a radix-2 domain, which exists exactly for requests of at
/// most 2^28 coefficients, has the next power of two as its size, and whose
/// generator has that size as its multiplicative order.
#[verifier::external_body]
fn radix2_domain(num_coeffs: usize) -> (r: Option<(usize, Scalar)>)
    ensures
        r.is_some() == (num_coeffs <= MAX_DOMAIN_SIZE),
        r.is_some() ==> r.unwrap().0 == domain_size_for(num_coeffs as nat),
        r.is_some() ==> r.unwrap().1@ == root_of_unity(r.unwrap().0 as nat),
        r.is_some() ==> is_primitive_root(r.unwrap().1@, r.unwrap().0 as nat),
{
    let d = GeneralEvaluationDomain::<ark_bn254::Fr>::new(num_coeffs)?;
    let l = d.group_gen().into_bigint().0;
    Some((d.size(), Scalar { l0: l[0], l1: l[1], l2: l[2], l3: l[3] }))
}

/// `EvaluationDomain::fft` of ark-poly over the domain made for `size`
/// coefficients: the values at the domain's points, in the order of the
/// generator's powers, of the polynomial with those coefficients, cut or padded
/// to the domain's size.
#[verifier::external_body]
fn fft_scalars(size: usize, coeffs: &[Scalar]) -> (r: Vec<Scalar>)
    requires
        size <= MAX_DOMAIN_SIZE,
    ensures
        views(r@) == fft_values(size as nat, views(coeffs@)),
        r@.len() == domain_size_for(size as nat),
{
    let d = GeneralEvaluationDomain::<ark_bn254::Fr>::new(size).unwrap();
    let xs: Vec<ark_bn254::Fr> = coeffs.iter().map(
        |s| ark_bn254::Fr::from_bigint(ark_ff::BigInt::new([s.l0, s.l1, s.l2, s.l3])).unwrap(),
    ).collect();
    d.fft(&xs).into_iter().map(
        |x|
            {
                let l = x.into_bigint().0;
                Scalar { l0: l[0], l1: l[1], l2: l[2], l3: l[3] }
            },
    ).collect()
}

/// `EvaluationDomain::ifft` of ark-poly over the domain made for `size`
/// coefficients: the coefficients of the polynomial with those values at the
/// domain's points, the values cut or padded to the domain's size.
#[verifier::external_body]
fn ifft_scalars(size: usize, evals: &[Scalar]) -> (r: Vec<Scalar>)
    requires
        size <= MAX_DOMAIN_SIZE,
    ensures
        views(r@) == ifft_values(size as nat, views(evals@)),
        r@.len() == domain_size_for(size as nat),
{
    let d = GeneralEvaluationDomain::<ark_bn254::Fr>::new(size).unwrap();
    let xs: Vec<ark_bn254::Fr> = evals.iter().map(
        |s| ark_bn254::Fr::from_bigint(ark_ff::BigInt::new([s.l0, s.l1, s.l2, s.l3])).unwrap(),
    ).collect();
    d.ifft(&xs).into_iter().map(
        |x|
            {
                let l = x.into_bigint().0;
                Scalar { l0: l[0], l1: l[1], l2: l[2], l3: l[3] }
            },
    ).collect()
}

/// `EvaluationDomain::fft` of ark-poly on group elements, over the domain made
/// for `size` coefficients: as many points as the domain has. An encoding that
/// decodes to no point counts as the identity.
#[verifier::external_body]
fn fft_points(size: usize, points: &[G1Point]) -> (r: Vec<G1Point>)
    requires
        size <= MAX_DOMAIN_SIZE,
    ensures
        views(r@) == g1_fft_values(size as nat, views(points@)),
        r@.len() == domain_size_for(size as nat),
{
    let d = GeneralEvaluationDomain::<ark_bn254::Fr>::new(size).unwrap();
    let xs: Vec<ark_bn254::G1Projective> = points.iter().map(
        |p|
            ark_bn254::G1Affine::deserialize_compressed_unchecked(
                &p.bytes[..],
            ).unwrap_or_default().into_group(),
    ).collect();
    d.fft(&xs).into_iter().map(
        |x|
            {
                let mut bytes = [0u8; 32];
                x.into_affine().serialize_compressed(&mut bytes[..]).unwrap();
                G1Point { bytes }
            },
    ).collect()
}

/// `EvaluationDomain::ifft` of ark-poly on group elements, over the domain made
/// for `size` coefficients: as many points as the domain has. An encoding that
/// decodes to no point counts as the identity.
#[verifier::external_body]
fn ifft_points(size: usize, points: &[G1Point]) -> (r: Vec<G1Point>)
    requires
        size <= MAX_DOMAIN_SIZE,
    ensures
        views(r@) == g1_ifft_values(size as nat, views(points@)),
        r@.len() == domain_size_for(size as nat),
{
    let d = GeneralEvaluationDomain::<ark_bn254::Fr>::new(size).unwrap();
    let xs: Vec<ark_bn254::G1Projective> = points.iter().map(
        |p|
            ark_bn254::G1Affine::deserialize_compressed_unchecked(
                &p.bytes[..],
            ).unwrap_or_default().into_group(),
    ).collect();
    d.ifft(&xs).into_iter().map(
        |x|
            {
                let mut bytes = [0u8; 32];
                x.into_affine().serialize_compressed(&mut bytes[..]).unwrap();
                G1Point { bytes }
            },
    ).collect()
}

/// A power of two is its own domain size.
pub proof fn lemma_power_of_two_is_domain_size(n: nat)
    requires
        is_power_of_two(n),
    ensures
        domain_size_for(n) == n,
    decreases n,
{
    if n > 1 {
        lemma_power_of_two_is_domain_size(n / 2);
    }
}

/// The domain size for `n` is a power of two, at least `n` and at least one,
/// and below `2 * n` where `n` is not zero.
pub proof fn lemma_domain_size_for(n: nat)
    ensures
        is_power_of_two(domain_size_for(n)),
        domain_size_for(n) >= n,
        domain_size_for(n) >= 1,
        n >= 1 ==> domain_size_for(n) < 2 * n,
    decreases n,
{
    if n > 1 {
        lemma_domain_size_for((n + 1) / 2);
    }
}

impl EvaluationDomain {
    /// The number of points.
    pub closed spec fn size_spec(&self) -> nat {
        self.size as nat
    }

    /// The generator of the subgroup.
    pub closed spec fn root(&self) -> nat {
        self.group_gen@
    }

    /// The domain's invariant, which every domain holds: its size is a power of
    /// two that the field supports, and its generator has exactly that order.
    #[verifier::type_invariant]
    pub open spec fn wf(&self) -> bool {
        valid_domain(self.size_spec(), self.root())
    }

    /// The `i`-th point of the domain.
    pub open spec fn element_spec(&self, i: nat) -> nat {
        fpow(self.root(), i)
    }

    /// The domain for `num_coeffs` coefficients: the smallest one with at least
    /// that many points. There is none above `MAX_DOMAIN_SIZE`.
    pub fn new(num_coeffs: usize) -> (r: Option<EvaluationDomain>)
        ensures
            r.is_some() == (num_coeffs <= MAX_DOMAIN_SIZE),
            r.is_some() ==> r.unwrap().wf(),
            r.is_some() ==> r.unwrap().size_spec() == domain_size_for(num_coeffs as nat),
            r.is_some() ==> r.unwrap().root() == root_of_unity(r.unwrap().size_spec()),
    {
        match radix2_domain(num_coeffs) {
            Some((size, group_gen)) => {
                proof {
                    lemma_domain_size_for(num_coeffs as nat);
                    lemma_domain_size_bounded(num_coeffs as nat);
                }
                Some(EvaluationDomain { size, group_gen })
            },
            None => None,
        }
    }

    /// The number of points.
    pub fn size(&self) -> (r: usize)
        ensures
            r == self.size_spec(),
            self.wf(),
    {
        proof {
            use_type_invariant(self);
        }
        self.size
    }

    /// The generator of the subgroup.
    pub fn group_gen(&self) -> (r: Scalar)
        ensures
            r@ == self.root(),
            self.wf(),
    {
        proof {
            use_type_invariant(self);
        }
        self.group_gen
    }

    /// The `i`-th point of the domain, the generator to the power `i`.
    pub fn element(&self, i: usize) -> (r: Scalar)
        ensures
            r@ == self.element_spec(i as nat),
    {
        self.group_gen.pow(i as u64)
    }

    /// The values of the polynomial with coefficients `coeffs` on the domain.
    pub fn fft(&self, coeffs: &[Scalar]) -> (r: Vec<Scalar>)
        ensures
            views(r@) == fft_values(self.size_spec(), views(coeffs@)),
            r@.len() == self.size_spec(),
    {
        proof {
            use_type_invariant(self);
            lemma_power_of_two_is_domain_size(self.size as nat);
        }
        fft_scalars(self.size, coeffs)
    }

    /// The coefficients of the polynomial with values `evals` on the domain.
    pub fn ifft(&self, evals: &[Scalar]) -> (r: Vec<Scalar>)
        ensures
            views(r@) == ifft_values(self.size_spec(), views(evals@)),
            r@.len() == self.size_spec(),
    {
        proof {
            use_type_invariant(self);
            lemma_power_of_two_is_domain_size(self.size as nat);
        }
        ifft_scalars(self.size, evals)
    }

    /// The forward transform of a vector of group elements.
    pub fn fft_g1(&self, points: &[G1Point]) -> (r: Vec<G1Point>)
        ensures
            views(r@) == g1_fft_values(self.size_spec(), views(points@)),
            r@.len() == self.size_spec(),
    {
        proof {
            use_type_invariant(self);
            lemma_power_of_two_is_domain_size(self.size as nat);
        }
        fft_points(self.size, points)
    }

    /// The inverse transform of a vector of group elements.
    pub fn ifft_g1(&self, points: &[G1Point]) -> (r: Vec<G1Point>)
        ensures
            views(r@) == g1_ifft_values(self.size_spec(), views(points@)),
            r@.len() == self.size_spec(),
    {
        proof {
            use_type_invariant(self);
            lemma_power_of_two_is_domain_size(self.size as nat);
        }
        ifft_points(self.size, points)
    }
}

/// The domain size for a request within the supported range is within it too.
pub proof fn lemma_domain_size_bounded(n: nat)
    requires
        n <= MAX_DOMAIN_SIZE,
    ensures
        domain_size_for(n) <= MAX_DOMAIN_SIZE,
{
    lemma_domain_size_monotone(n, MAX_DOMAIN_SIZE as nat);
    assert(is_power_of_two(MAX_DOMAIN_SIZE as nat)) by {
        reveal_with_fuel(is_power_of_two, 30);
    }
    lemma_power_of_two_is_domain_size(MAX_DOMAIN_SIZE as nat);
}

/// A larger request never gets a smaller domain.
pub proof fn lemma_domain_size_monotone(a: nat, b: nat)
    requires
        a <= b,
    ensures
        domain_size_for(a) <= domain_size_for(b),
    decreases b,
{
    if a > 1 {
        lemma_domain_size_monotone((a + 1) / 2, (b + 1) / 2);
    } else {
        lemma_domain_size_for(b);
    }
}

} // verus!
