//! The pairing-based commitment scheme: constant-size proofs from a structured
//! reference string, with the commitments made directly in evaluation form.

use crate::algebra::views;
use crate::curve::{
    g1_decoding, g1_difference, g1_generator_product, g1_identity_encoding, g1_is_identity, g1_product,
    g2_decoding, g2_difference, g2_generator_product, pairing_value, G1Point, G2Point, PairingOutput,
};
use crate::domain::{
    domain_size_for, fft_values, g1_fft_values, g1_ifft_values, ifft_values, is_power_of_two,
    lemma_domain_size_bounded, lemma_domain_size_for, lemma_power_of_two_is_domain_size,
    root_of_unity, EvaluationDomain, MAX_DOMAIN_SIZE,
};
use crate::field::{fpow, le_bytes_value, modulus, Scalar};
use crate::lagrange_basis::{
    domain_quotient, evaluate_spec, outside_quotient, padded, LagrangeBasis,
};
use crate::precompute::{PrecomputedLagrange, TableView};
use crate::transcript::Transcript;
use crate::utils::{
    copy_of, elementwise_mul, inner_product, inner_product_spec, powers_of, serialize,
};
use crate::{
    HasPrecompute, KZGError, PointGenerator, PointGeneratorError, SetupError, VCCommitment,
    VCData, VCUniversalParams, VectorCommitment,
};
use vstd::prelude::*;

verus! {

/// A commitment of the scheme: a point of the first group.
pub type KZGCommitment = G1Point;

/// The points `secret^i` times the generator, for `i` below `num`.
pub open spec fn generator_points(secret: nat, num: nat) -> Seq<Seq<u8>> {
    Seq::new(num, |i: int| g1_generator_product(fpow(secret, i as nat)))
}

/// Whether every encoding of a reference string decodes to a point.
pub open spec fn all_decode(points: Seq<Vec<u8>>, g2: Seq<u8>) -> bool {
    &&& forall|i: int| 0 <= i < points.len() ==> g1_decoding(#[trigger] points[i]@).is_some()
    &&& g2_decoding(g2).is_some()
}

/// The points that the encodings of a reference string decode to.
pub open spec fn decoded_points(points: Seq<Vec<u8>>) -> Seq<Seq<u8>> {
    Seq::new(points.len(), |i: int| g1_decoding(points[i]@).unwrap())
}

/// The index of the last coefficient that is not zero, and zero where there is
/// none.
pub open spec fn degree_spec(coeffs: Seq<nat>) -> nat
    decreases coeffs.len(),
{
    if coeffs.len() == 0 {
        0
    } else if coeffs.last() != 0 {
        (coeffs.len() - 1) as nat
    } else {
        degree_spec(coeffs.drop_last())
    }
}

/// The coefficient vector of the amortized proofs, of size `m`: the leading
/// coefficient, then zeros, then the coefficients `1` to `d - 1`.
pub open spec fn amortized_coefficients(coeffs: Seq<nat>, d: nat, m: nat) -> Seq<nat> {
    Seq::new(
        m,
        |i: int|
            if i == 0 {
                coeffs[d as int]
            } else if i > m - d {
                coeffs[i - (m - d)]
            } else {
                0
            },
    )
}

/// The reference string vector of the amortized proofs, of size `m`: the first
/// `d` points in reverse, then the identity.
pub open spec fn amortized_points(points: Seq<Seq<u8>>, d: nat, m: nat) -> Seq<Seq<u8>> {
    Seq::new(
        m,
        |i: int|
            if i < d {
                points[d - 1 - i]
            } else {
                g1_identity_encoding()
            },
    )
}

/// The entries `a[i] * b[i]` of two sequences of the same length.
pub open spec fn pointwise_products(a: Seq<Seq<u8>>, b: Seq<nat>) -> Seq<Seq<u8>> {
    Seq::new(a.len(), |i: int| g1_product(a[i], b[i]))
}

/// The convolution of the amortized proving, for the coefficients `coeffs` of
/// degree `d` and the reference string `points` in monomial form, over the
/// transform domain made for `2 * d` points. Its first `d` entries are the
/// commitments to the coefficients of the quotients.
pub open spec fn amortized_commitments(coeffs: Seq<nat>, points: Seq<Seq<u8>>, d: nat) -> Seq<
    Seq<u8>,
> {
    let m = domain_size_for(2 * d);
    g1_ifft_values(
        m,
        pointwise_products(
            g1_fft_values(m, amortized_points(points, d, m)),
            fft_values(m, amortized_coefficients(coeffs, d, m)),
        ),
    )
}

/// The commitments to the coefficients of the quotients, as many as the key's
/// domain has points: the first `d` entries of the amortized convolution, then
/// the identity.
pub open spec fn amortized_quotients(
    coeffs: Seq<nat>,
    points: Seq<Seq<u8>>,
    d: nat,
    n: nat,
) -> Seq<Seq<u8>> {
    let convolution = amortized_commitments(coeffs, points, d);
    Seq::new(
        n,
        |i: int|
            if i < d {
                convolution[i]
            } else {
                g1_identity_encoding()
            },
    )
}

/// The index of the last coefficient that is not zero, and zero where there is
/// none.
pub fn polynomial_degree(coeffs: &[Scalar]) -> (r: usize)
    ensures
        r == degree_spec(views(coeffs@)),
        r < coeffs@.len() || r == 0,
{
    let mut n = coeffs.len();
    assert(views(coeffs@).subrange(0, n as int) =~= views(coeffs@));
    while n > 0
        invariant
            n <= coeffs@.len(),
            degree_spec(views(coeffs@)) == degree_spec(views(coeffs@).subrange(0, n as int)),
        decreases n,
    {
        let ghost prefix = views(coeffs@).subrange(0, n as int);
        if !coeffs[n - 1].is_zero() {
            assert(prefix.last() == coeffs@[n - 1]@);
            return n - 1;
        }
        proof {
            assert(prefix.last() == coeffs@[n - 1]@);
            assert(prefix.drop_last() =~= views(coeffs@).subrange(0, n - 1));
        }
        n -= 1;
    }
    assert(views(coeffs@).subrange(0, 0).len() == 0);
    0
}

/// A generator of the points of a reference string from a trapdoor that it
/// holds: the powers of the trapdoor times the group's generator. It is for
/// tests and ceremonies, since whoever holds it can forge proofs.
#[derive(Clone, Copy, Debug)]
pub struct KZGRandomPointGenerator {
    max: usize,
    secret: Scalar,
}

impl KZGRandomPointGenerator {
    /// The most points that the generator hands out.
    pub closed spec fn max_spec(&self) -> nat {
        self.max as nat
    }

    /// The trapdoor.
    pub closed spec fn secret_spec(&self) -> nat {
        self.secret@
    }

    /// The generator with the given trapdoor and bound.
    pub fn new(secret: Scalar, max: usize) -> (r: Self)
        ensures
            r.max_spec() == max,
            r.secret_spec() == secret@,
    {
        KZGRandomPointGenerator { max, secret }
    }

    /// Changes the bound.
    pub fn set_max(&mut self, max: usize)
        ensures
            final(self).max_spec() == max,
            final(self).secret_spec() == old(self).secret_spec(),
    {
        self.max = max;
    }
}

impl Default for KZGRandomPointGenerator {
    /// A generator with a trapdoor drawn at random, which hands out as many
    /// points as the largest domain has.
    fn default() -> (r: Self)
        ensures
            r.max_spec() == MAX_DOMAIN_SIZE,
    {
        KZGRandomPointGenerator { max: MAX_DOMAIN_SIZE, secret: Scalar::random() }
    }
}

impl PointGenerator for KZGRandomPointGenerator {
    type Point = G1Point;

    type Secret = Scalar;

    /// `OutOfBounds` for more points than the bound allows, and else the powers
    /// of the trapdoor times the generator.
    open spec fn gen_post(&self, num: usize, r: Result<Vec<G1Point>, PointGeneratorError>) -> bool {
        if num > self.max_spec() {
            r == Err::<Vec<G1Point>, PointGeneratorError>(PointGeneratorError::OutOfBounds)
        } else {
            r.is_ok() && views(r.unwrap()@) == generator_points(self.secret_spec(), num as nat)
        }
    }

    /// `OutOfBounds` for an index at or beyond the bound, and else the trapdoor
    /// to the power `index` times the generator.
    open spec fn gen_at_post(&self, index: usize, r: Result<G1Point, PointGeneratorError>) -> bool {
        if index >= self.max_spec() {
            r == Err::<G1Point, PointGeneratorError>(PointGeneratorError::OutOfBounds)
        } else {
            r.is_ok() && r.unwrap()@ == g1_generator_product(
                fpow(self.secret_spec(), index as nat),
            )
        }
    }

    /// The trapdoor is always revealed.
    open spec fn secret_post(&self, r: Option<Scalar>) -> bool {
        r.is_some() && r.unwrap()@ == self.secret_spec()
    }

    fn gen(&self, num: usize) -> (r: Result<Vec<G1Point>, PointGeneratorError>) {
        if num > self.max {
            return Err(PointGeneratorError::OutOfBounds);
        }
        let powers = powers_of(self.secret, num);
        let mut points: Vec<G1Point> = Vec::new();
        let mut i: usize = 0;
        while i < num
            invariant
                i <= num,
                num <= powers@.len(),
                points@.len() == i,
                forall|j: int| 0 <= j < powers@.len() ==> #[trigger] powers@[j]@ == fpow(self.secret@, j as nat),
                forall|j: int|
                    0 <= j < i ==> #[trigger] points@[j]@ == g1_generator_product(
                        fpow(self.secret@, j as nat),
                    ),
            decreases num - i,
        {
            points.push(G1Point::generator_times(&powers[i]));
            i += 1;
        }
        proof {
            assert(views(points@) =~= generator_points(self.secret@, num as nat));
        }
        Ok(points)
    }

    fn gen_at(&self, index: usize) -> (r: Result<G1Point, PointGeneratorError>) {
        if index >= self.max {
            return Err(PointGeneratorError::OutOfBounds);
        }
        Ok(G1Point::generator_times(&self.secret.pow(index as u64)))
    }

    fn secret(&self) -> (r: Option<Scalar>) {
        Some(self.secret)
    }
}

/// The universal parameters, or reference string, for both committing to
/// polynomials and verifying commitments.
#[derive(Debug)]
pub struct KZGKey {
    /// The max number of elements this reference string supports.
    size: usize,
    /// The commitments to the Lagrange polynomials of the domain, since the
    /// scheme works in evaluation form.
    lagrange_commitments: Vec<G1Point>,
    /// The trapdoor times the generator of the second group.
    g2: G2Point,
    precompute: PrecomputedLagrange,
}

impl Clone for KZGKey {
    fn clone(&self) -> (r: Self)
        ensures
            r.commitments() == self.commitments(),
            r.trapdoor() == self.trapdoor(),
            r.table() == self.table(),
            r.max_size_spec() == self.max_size_spec(),
    {
        proof {
            use_type_invariant(self);
        }
        let r = KZGKey {
            size: self.size,
            lagrange_commitments: copy_of(self.lagrange_commitments.as_slice()),
            g2: self.g2,
            precompute: self.precompute.clone(),
        };
        r
    }
}

impl KZGKey {
    /// The encodings of the commitments to the Lagrange polynomials.
    pub closed spec fn commitments(&self) -> Seq<Seq<u8>> {
        views(self.lagrange_commitments@)
    }

    /// The encoding of the trapdoor element.
    pub closed spec fn trapdoor(&self) -> Seq<u8> {
        self.g2@
    }

    /// The invariant, which every key holds: there are as many commitments as
    /// the key's size and as its table has points.
    #[verifier::type_invariant]
    pub closed spec fn wf(&self) -> bool {
        &&& self.size == self.lagrange_commitments@.len()
        &&& self.size == self.precompute@.size
    }

    /// The key made of a finished reference string: the commitments to the
    /// Lagrange polynomials of a domain, and the trapdoor element. It fails with
    /// `InvalidDomain` unless there is a domain with exactly as many points as
    /// there are commitments.
    pub fn from_lagrange_vec(lagrange_g1: Vec<G1Point>, g2: G2Point) -> (r: Result<
        KZGKey,
        KZGError,
    >)
        ensures
            r.is_ok() <==> is_power_of_two(lagrange_g1@.len()) && lagrange_g1@.len()
                <= MAX_DOMAIN_SIZE,
            r.is_err() ==> r == Err::<KZGKey, KZGError>(KZGError::InvalidDomain),
            r.is_ok() ==> {
                let key = r.unwrap();
                &&& key.wf()
                &&& key.commitments() == views(lagrange_g1@)
                &&& key.trapdoor() == g2@
                &&& key.max_size_spec() == lagrange_g1@.len()
                &&& key.table().wf()
                &&& key.table().size == lagrange_g1@.len()
                &&& key.table().root == root_of_unity(lagrange_g1@.len())
            },
    {
        let size = lagrange_g1.len();
        proof {
            lemma_domain_size_for(size as nat);
            if is_power_of_two(size as nat) {
                lemma_power_of_two_is_domain_size(size as nat);
            }
        }
        match PrecomputedLagrange::new(size) {
            Err(_) => Err(KZGError::InvalidDomain),
            Ok(precompute) => {
                if precompute.size() != size {
                    return Err(KZGError::InvalidDomain);
                }
                Ok(KZGKey { size, lagrange_commitments: lagrange_g1, g2, precompute })
            },
        }
    }

    /// The key made of an encoded reference string. It fails with the
    /// generator's `InvalidPoint` where an encoding decodes to no point, and
    /// else as `from_lagrange_vec` does on the decoded points.
    pub fn from_encoded(points: &Vec<Vec<u8>>, g2: &[u8]) -> (r: Result<
        KZGKey,
        SetupError<KZGError>,
    >)
        ensures
            !all_decode(points@, g2@) ==> r == Err::<KZGKey, SetupError<KZGError>>(
                SetupError::Generator(PointGeneratorError::InvalidPoint),
            ),
            all_decode(points@, g2@) && !(is_power_of_two(points@.len()) && points@.len()
                <= MAX_DOMAIN_SIZE) ==> r == Err::<KZGKey, SetupError<KZGError>>(
                SetupError::Scheme(KZGError::InvalidDomain),
            ),
            all_decode(points@, g2@) && is_power_of_two(points@.len()) && points@.len()
                <= MAX_DOMAIN_SIZE ==> {
                &&& r.is_ok()
                &&& r.unwrap().commitments() == decoded_points(points@)
                &&& r.unwrap().trapdoor() == g2_decoding(g2@).unwrap()
                &&& r.unwrap().max_size_spec() == points@.len()
                &&& r.unwrap().table().wf()
                &&& r.unwrap().table().size == points@.len()
                &&& r.unwrap().table().root == root_of_unity(points@.len())
            },
    {
        let mut decoded: Vec<G1Point> = Vec::new();
        let mut i: usize = 0;
        while i < points.len()
            invariant
                i <= points@.len(),
                decoded@.len() == i,
                forall|j: int| 0 <= j < i ==> g1_decoding(#[trigger] points@[j]@).is_some(),
                forall|j: int|
                    0 <= j < i ==> #[trigger] decoded@[j]@ == g1_decoding(points@[j]@).unwrap(),
            decreases points@.len() - i,
        {
            match G1Point::from_bytes(points[i].as_slice()) {
                Some(point) => {
                    decoded.push(point);
                },
                None => {
                    return Err(SetupError::Generator(PointGeneratorError::InvalidPoint));
                },
            }
            i += 1;
        }
        let trapdoor = match G2Point::from_bytes(g2) {
            Some(point) => point,
            None => {
                return Err(SetupError::Generator(PointGeneratorError::InvalidPoint));
            },
        };
        proof {
            assert(views(decoded@) =~= decoded_points(points@));
        }
        match KZGKey::from_lagrange_vec(decoded, trapdoor) {
            Ok(key) => Ok(key),
            Err(e) => Err(SetupError::Scheme(e)),
        }
    }

    /// The commitments to the Lagrange polynomials.
    pub fn lagrange_commitments(&self) -> (r: &Vec<G1Point>)
        ensures
            views(r@) == self.commitments(),
            r@.len() == self.max_size_spec(),
    {
        proof {
            use_type_invariant(self);
        }
        &self.lagrange_commitments
    }

    /// The trapdoor element.
    pub fn g2(&self) -> (r: &G2Point)
        ensures
            r@ == self.trapdoor(),
    {
        &self.g2
    }
}

impl VCUniversalParams for KZGKey {
    closed spec fn max_size_spec(&self) -> nat {
        self.size as nat
    }

    fn max_size(&self) -> (r: usize) {
        self.size
    }
}

impl HasPrecompute for KZGKey {
    closed spec fn table(&self) -> TableView {
        self.precompute@
    }

    fn precompute(&self) -> (r: &PrecomputedLagrange)
        ensures
            r@.size == self.max_size_spec(),
    {
        proof {
            use_type_invariant(self);
        }
        &self.precompute
    }
}

impl VCCommitment<Scalar> for G1Point {
    /// Zero for the identity, and for every other point the little-endian
    /// integer that its encoding denotes, reduced modulo the field order.
    open spec fn is_data_item(&self, item: Scalar) -> bool {
        item@ == if g1_is_identity(self@) {
            0
        } else {
            le_bytes_value(self@) % modulus()
        }
    }

    fn to_data_item(&self) -> (r: Scalar)
        ensures
            self@ == g1_identity_encoding() ==> r@ == 0,
    {
        if self.is_zero() {
            Scalar::zero()
        } else {
            let bytes = serialize(self);
            Scalar::from_le_bytes_mod_order(bytes.as_slice())
        }
    }
}

/// An opening of a commitment at a point: the commitment to the quotient
/// polynomial, and the value claimed at the point.
#[derive(Clone, Copy, Debug, PartialEq, Eq)]
pub struct KZGProof {
    /// The commitment to the quotient polynomial.
    pub proof: G1Point,
    /// The claimed evaluation.
    pub y: Scalar,
}

/// The pairing-based vector commitment scheme, with the amortized proving of
/// Feist and Khovratovich.
#[derive(Clone, Copy, Debug, PartialEq, Eq)]
pub struct KZG;

/// The point of the field that `point` stands for in a verification: the
/// domain point of that index where it is below the domain's size, and the
/// point itself elsewhere.
pub open spec fn verification_point(table: TableView, point: nat) -> nat {
    if point < table.size {
        fpow(table.root, point)
    } else {
        point
    }
}

/// The values on the domain of the quotient that opens `values` at `point`.
pub open spec fn quotient_spec(values: Seq<nat>, table: TableView, point: nat) -> Seq<nat> {
    if point < table.size {
        domain_quotient(values, table, point)
    } else {
        outside_quotient(values, table.root, table.size, point)
    }
}

/// Whether the pairing equation of the scheme holds: the pairing of the
/// quotient commitment with `[trapdoor] - [p]` in the second group equals the
/// pairing of `commitment - [y]` with the generator of the second group.
pub open spec fn pairing_check(
    trapdoor: Seq<u8>,
    commitment: Seq<u8>,
    p: nat,
    quotient: Seq<u8>,
    y: nat,
) -> bool {
    pairing_value(quotient, g2_difference(trapdoor, g2_generator_product(p))) == pairing_value(
        g1_difference(commitment, g1_generator_product(y)),
        g2_generator_product(1),
    )
}

impl VectorCommitment for KZG {
    type UniversalParams = KZGKey;

    type Commitment = KZGCommitment;

    type Data = LagrangeBasis;

    type Proof = KZGProof;

    type BatchProof = Vec<G1Point>;

    type Error = KZGError;

    type PointGenerator = KZGRandomPointGenerator;

    type Transcript = Transcript;

    /// The generator's `OutOfBounds` where it hands out fewer points than
    /// asked for; `InvalidDomain` where no domain holds `max_items` points; and
    /// else the key of the smallest domain that does, whose commitments are the
    /// inverse transform of the generator's points and whose trapdoor element is
    /// the generator's trapdoor times the generator of the second group.
    open spec fn setup_post(
        max_items: usize,
        gen: KZGRandomPointGenerator,
        r: Result<KZGKey, SetupError<KZGError>>,
    ) -> bool {
        if max_items > gen.max_spec() {
            r == Err::<KZGKey, SetupError<KZGError>>(
                SetupError::Generator(PointGeneratorError::OutOfBounds),
            )
        } else if max_items > MAX_DOMAIN_SIZE {
            r == Err::<KZGKey, SetupError<KZGError>>(SetupError::Scheme(KZGError::InvalidDomain))
        } else {
            let size = domain_size_for(max_items as nat);
            &&& r.is_ok()
            &&& r.unwrap().max_size_spec() == size
            &&& r.unwrap().commitments() == g1_ifft_values(
                size,
                generator_points(gen.secret_spec(), max_items as nat),
            )
            &&& r.unwrap().trapdoor() == g2_generator_product(gen.secret_spec())
            &&& r.unwrap().table().wf()
            &&& r.unwrap().table().size == size
            &&& r.unwrap().table().root == root_of_unity(size)
        }
    }

    /// `DefaultError` for more data than the key supports, and else the inner
    /// product of the key's commitments with the data.
    open spec fn commit_post(key: KZGKey, data: LagrangeBasis, r: Result<G1Point, KZGError>) -> bool {
        if data@.len() > key.max_size_spec() {
            r == Err::<G1Point, KZGError>(KZGError::DefaultError)
        } else {
            r.is_ok() && r.unwrap()@ == inner_product_spec::<Scalar, G1Point>(
                key.commitments(),
                data@,
            )
        }
    }

    /// `DefaultError` for more data than the key supports, and for a point that
    /// is no domain index and yet lies in the domain; else the evaluation at
    /// the point, with the inner product of the key's commitments with the
    /// quotient's values. The point is always the caller's: the scheme draws
    /// nothing from a transcript.
    open spec fn prove_point_post(
        key: KZGKey,
        commitment: G1Point,
        point: Scalar,
        data: LagrangeBasis,
        transcript: Option<Transcript>,
        r: Result<KZGProof, KZGError>,
    ) -> bool {
        let table = key.table();
        if data@.len() > key.max_size_spec() || (point@ >= table.size && fpow(
            point@,
            table.size,
        ) == 1) {
            r == Err::<KZGProof, KZGError>(KZGError::DefaultError)
        } else {
            &&& r.is_ok()
            &&& r.unwrap().y@ == evaluate_spec(data@, table.root, table.size, point@)
            &&& r.unwrap().proof@ == inner_product_spec::<Scalar, G1Point>(
                key.commitments(),
                quotient_spec(data@, table, point@),
            )
        }
    }

    /// Batch proving is not implemented.
    open spec fn prove_batch_post(
        key: KZGKey,
        commitment: G1Point,
        indexes: Seq<usize>,
        data: LagrangeBasis,
        r: Result<Vec<G1Point>, KZGError>,
    ) -> bool {
        r == Err::<Vec<G1Point>, KZGError>(KZGError::NotImplemented)
    }

    /// Never an error: whether the pairing equation holds at the point that
    /// `point` stands for, whatever the transcript.
    open spec fn verify_point_post(
        key: KZGKey,
        commitment: G1Point,
        point: Scalar,
        proof: KZGProof,
        transcript: Option<Transcript>,
        r: Result<bool, KZGError>,
    ) -> bool {
        r == Ok::<bool, KZGError>(
            pairing_check(
                key.trapdoor(),
                commitment@,
                verification_point(key.table(), point@),
                proof.proof@,
                proof.y@,
            ),
        )
    }

    /// Batch verification is not implemented.
    open spec fn verify_batch_post(
        key: KZGKey,
        commitment: G1Point,
        proof: Vec<G1Point>,
        r: Result<bool, KZGError>,
    ) -> bool {
        r == Err::<bool, KZGError>(KZGError::NotImplemented)
    }

    fn setup(max_items: usize, gen: &KZGRandomPointGenerator) -> (r: Result<
        KZGKey,
        SetupError<KZGError>,
    >) {
        // the domain is looked for before any point is made, but the
        // generator's refusal comes first
        let domain = match EvaluationDomain::new(max_items) {
            Some(domain) => domain,
            None => {
                return match gen.gen_at(max_items - 1) {
                    Err(e) => Err(SetupError::Generator(e)),
                    Ok(_) => Err(SetupError::Scheme(KZGError::InvalidDomain)),
                };
            },
        };
        let g1_points = match gen.gen(max_items) {
            Ok(points) => points,
            Err(e) => {
                return Err(SetupError::Generator(e));
            },
        };
        let points = domain.ifft_g1(g1_points.as_slice());
        let g2 = G2Point::generator_times(&gen.secret().unwrap());
        proof {
            lemma_domain_size_for(max_items as nat);
            lemma_domain_size_bounded(max_items as nat);
        }
        match KZGKey::from_lagrange_vec(points, g2) {
            Ok(key) => Ok(key),
            Err(e) => Err(SetupError::Scheme(e)),
        }
    }

    fn commit(key: &KZGKey, data: &LagrangeBasis) -> (r: Result<G1Point, KZGError>) {
        if data.len() > key.max_size() {
            return Err(KZGError::DefaultError);
        }
        Ok(inner_product(key.lagrange_commitments().as_slice(), data.elements_ref().as_slice()))
    }

    fn prove_point(
        key: &KZGKey,
        commitment: &G1Point,
        point: Scalar,
        data: &LagrangeBasis,
        transcript: Option<Transcript>,
    ) -> (r: Result<KZGProof, KZGError>) {
        let size = key.max_size();
        let table = key.precompute();
        if data.len() > size {
            return Err(KZGError::DefaultError);
        }
        let in_domain = point.is_less_than(size as u64);
        if !in_domain && point.pow(size as u64).equals(&Scalar::one()) {
            return Err(KZGError::DefaultError);
        }
        let evaluation = data.evaluate(table, point);
        let q = if in_domain {
            data.divide_by_vanishing(table, crate::utils::to_usize(&point))
        } else {
            data.divide_by_vanishing_outside_domain(table, point)
        };
        Ok(
            KZGProof {
                proof: inner_product(key.lagrange_commitments().as_slice(), q.as_slice()),
                y: evaluation,
            },
        )
    }

    fn prove_batch(
        key: &KZGKey,
        commitment: &G1Point,
        indexes: Vec<usize>,
        data: &LagrangeBasis,
    ) -> (r: Result<Vec<G1Point>, KZGError>) {
        Err(KZGError::NotImplemented)
    }

    fn verify_point(
        key: &KZGKey,
        commitment: &G1Point,
        point: Scalar,
        proof: &KZGProof,
        transcript: Option<Transcript>,
    ) -> (r: Result<bool, KZGError>) {
        let size = key.max_size();
        let table = key.precompute();
        let p = if point.is_less_than(size as u64) {
            table.domain().group_gen().pow(crate::utils::to_usize(&point) as u64)
        } else {
            point
        };
        let pairing1 = PairingOutput::pairing(
            &proof.proof,
            &key.g2().minus(&G2Point::generator_times(&p)),
        );
        let pairing2 = PairingOutput::pairing(
            &commitment.minus(&G1Point::generator_times(&proof.y)),
            &G2Point::generator(),
        );
        Ok(pairing1.equals(&pairing2))
    }

    fn verify_batch(key: &KZGKey, commitment: &G1Point, proof: &Vec<G1Point>) -> (r: Result<
        bool,
        KZGError,
    >) {
        Err(KZGError::NotImplemented)
    }
}

impl KZG {
    /// What `prove_all_points` returns.
    ///
    /// It fails with `DefaultError` for more data than the key supports, and
    /// with `InvalidDomain` where no domain holds twice the degree `d` of the
    /// data's polynomial over the key's domain. Else there is one proof for
    /// each point of the key's domain, with the data's value there. For
    /// constant data every proof is the identity. For other data the proofs
    /// are the forward transform, over the key's domain, of the `d` amortized
    /// commitments followed by the identity.
    pub open spec fn prove_all_points_post(
        key: KZGKey,
        data: LagrangeBasis,
        r: Result<Vec<KZGProof>, KZGError>,
    ) -> bool {
        let n = key.table().size;
        let coeffs = ifft_values(n, data@);
        let d = degree_spec(coeffs);
        if data@.len() > key.max_size_spec() {
            r == Err::<Vec<KZGProof>, KZGError>(KZGError::DefaultError)
        } else if d != 0 && 2 * d > MAX_DOMAIN_SIZE {
            r == Err::<Vec<KZGProof>, KZGError>(KZGError::InvalidDomain)
        } else {
            &&& r.is_ok()
            &&& r.unwrap()@.len() == n
            &&& forall|i: int|
                0 <= i < n ==> (#[trigger] r.unwrap()@[i]).y@ == padded(data@, i as nat)
            &&& forall|i: int|
                0 <= i < n ==> (#[trigger] r.unwrap()@[i]).proof@ == if d == 0 {
                    g1_identity_encoding()
                } else {
                    g1_fft_values(
                        n,
                        amortized_quotients(
                            coeffs,
                            g1_fft_values(n, key.commitments()),
                            d,
                            n,
                        ),
                    )[i]
                }
        }
    }

    /// The proofs for every point of the key's domain at once, by the amortized
    /// proving of Feist and Khovratovich: the commitments to the coefficients of
    /// the quotients come from one convolution over a domain of twice the
    /// polynomial's degree, and their forward transform gives the proofs.
    pub fn prove_all_points(key: &KZGKey, data: &LagrangeBasis) -> (r: Result<
        Vec<KZGProof>,
        KZGError,
    >)
        ensures
            Self::prove_all_points_post(*key, *data, r),
    {
        let size = key.max_size();
        let table_domain = key.precompute().domain();
        if data.len() > size {
            return Err(KZGError::DefaultError);
        }
        let coeffs = table_domain.ifft(data.elements_ref().as_slice());
        let degree = polynomial_degree(coeffs.as_slice());
        if degree > MAX_DOMAIN_SIZE / 2 {
            return Err(KZGError::InvalidDomain);
        }
        let ghost d = degree as nat;
        let ghost c = views(coeffs@);
        let ghost n = size as nat;

        let commitments = if degree == 0 {
            // the quotients of a constant are zero
            let mut zeros: Vec<G1Point> = Vec::new();
            let mut i: usize = 0;
            while i < size
                invariant
                    i <= size,
                    zeros@.len() == i,
                    forall|j: int| 0 <= j < i ==> #[trigger] zeros@[j]@ == g1_identity_encoding(),
                decreases size - i,
            {
                zeros.push(G1Point::zero());
                i += 1;
            }
            zeros
        } else {
            let domain = EvaluationDomain::new(2 * degree).unwrap();
            let m = domain.size();
            proof {
                lemma_domain_size_for((2 * degree) as nat);
            }
            let mut c_hat: Vec<Scalar> = Vec::new();
            let mut i: usize = 0;
            while i < m
                invariant
                    i <= m,
                    0 < degree < coeffs@.len(),
                    2 * degree <= m,
                    d == degree,
                    c == views(coeffs@),
                    c_hat@.len() == i,
                    forall|j: int|
                        0 <= j < i ==> #[trigger] c_hat@[j]@ == amortized_coefficients(
                            c,
                            d,
                            m as nat,
                        )[j],
                decreases m - i,
            {
                if i == 0 {
                    c_hat.push(coeffs[degree]);
                } else if i > m - degree {
                    c_hat.push(coeffs[i - (m - degree)]);
                } else {
                    c_hat.push(Scalar::zero());
                }
                i += 1;
            }

            // the reference string in monomial form, from its Lagrange form
            let g1 = table_domain.fft_g1(key.lagrange_commitments().as_slice());
            let ghost points = views(g1@);
            let mut s_hat: Vec<G1Point> = Vec::new();
            let mut i: usize = 0;
            while i < m
                invariant
                    i <= m,
                    0 < degree <= g1@.len(),
                    d == degree,
                    points == views(g1@),
                    s_hat@.len() == i,
                    forall|j: int|
                        0 <= j < i ==> #[trigger] s_hat@[j]@ == amortized_points(
                            points,
                            d,
                            m as nat,
                        )[j],
                decreases m - i,
            {
                if i < degree {
                    s_hat.push(g1[degree - 1 - i]);
                } else {
                    s_hat.push(G1Point::zero());
                }
                i += 1;
            }
            proof {
                assert(views(c_hat@) =~= amortized_coefficients(c, d, m as nat));
                assert(views(s_hat@) =~= amortized_points(points, d, m as nat));
            }

            let y = domain.fft(c_hat.as_slice());
            let v = domain.fft_g1(s_hat.as_slice());
            let u = elementwise_mul(v.as_slice(), y.as_slice());
            proof {
                assert(views(u@) =~= pointwise_products(views(v@), views(y@)));
            }
            let h_hat = domain.ifft_g1(u.as_slice());

            // the commitments to the quotients' coefficients, and their values
            // on the key's domain
            let mut h: Vec<G1Point> = Vec::new();
            let mut i: usize = 0;
            while i < size
                invariant
                    i <= size,
                    degree <= m,
                    h_hat@.len() == m,
                    h@.len() == i,
                    forall|j: int|
                        0 <= j < i ==> #[trigger] h@[j]@ == if j < degree {
                            h_hat@[j]@
                        } else {
                            g1_identity_encoding()
                        },
                decreases size - i,
            {
                if i < degree {
                    h.push(h_hat[i]);
                } else {
                    h.push(G1Point::zero());
                }
                i += 1;
            }
            proof {
                let quotients = amortized_quotients(c, points, d, n);
                assert forall|j: int| 0 <= j < n implies #[trigger] views(h@)[j]
                    == quotients[j] by {
                    if j < d {
                        assert(views(h_hat@)[j] == h_hat@[j]@);
                    }
                }
                assert(views(h@) =~= quotients);
            }
            table_domain.fft_g1(h.as_slice())
        };

        let mut proofs: Vec<KZGProof> = Vec::new();
        let mut i: usize = 0;
        while i < size
            invariant
                i <= size,
                commitments@.len() == size,
                proofs@.len() == i,
                forall|j: int|
                    0 <= j < i ==> (#[trigger] proofs@[j]).proof@ == commitments@[j]@
                        && proofs@[j].y@ == padded(data@, j as nat),
            decreases size - i,
        {
            let y_i = match data.get(i) {
                Some(value) => *value,
                None => Scalar::zero(),
            };
            proof {
                data.lemma_items();
            }
            proofs.push(KZGProof { proof: commitments[i], y: y_i });
            i += 1;
        }
        proof {
            assert forall|j: int| 0 <= j < n && d != 0 implies (#[trigger] proofs@[j]).proof@
                == g1_fft_values(n, amortized_quotients(c, g1_fft_values(n, key.commitments()), d, n))[j] by {
                assert(views(commitments@)[j] == commitments@[j]@);
            }
        }
        Ok(proofs)
    }
}

/// Committing is a function of the key and the data: two results for the same
/// inputs are the same commitment, byte for byte.
pub proof fn lemma_commit_deterministic(
    key: KZGKey,
    data: LagrangeBasis,
    first: Result<G1Point, KZGError>,
    second: Result<G1Point, KZGError>,
)
    requires
        KZG::commit_post(key, data, first),
        KZG::commit_post(key, data, second),
    ensures
        first == second,
{
    if first.is_ok() {
        first.unwrap().lemma_view_injective(second.unwrap());
    }
}

/// Proving is a function of the key, the point and the data: two results for
/// the same inputs are the same proof, byte for byte.
pub proof fn lemma_prove_point_deterministic(
    key: KZGKey,
    commitment: G1Point,
    point: Scalar,
    data: LagrangeBasis,
    first: Result<KZGProof, KZGError>,
    second: Result<KZGProof, KZGError>,
)
    requires
        KZG::prove_point_post(key, commitment, point, data, None, first),
        KZG::prove_point_post(key, commitment, point, data, None, second),
    ensures
        first == second,
{
    if first.is_ok() {
        first.unwrap().proof.lemma_view_injective(second.unwrap().proof);
        first.unwrap().y.lemma_view_injective(second.unwrap().y);
    }
}

/// A proof for a domain index beyond the data's own length claims the value
/// zero: the data is zero there.
pub proof fn lemma_proof_beyond_length_is_zero(
    key: KZGKey,
    commitment: G1Point,
    point: Scalar,
    data: LagrangeBasis,
    r: Result<KZGProof, KZGError>,
)
    requires
        KZG::prove_point_post(key, commitment, point, data, None, r),
        data@.len() <= point@ < key.max_size_spec(),
        key.table().size == key.max_size_spec(),
    ensures
        r.is_ok(),
        r.unwrap().y@ == 0,
{
    crate::lagrange_basis::lemma_evaluate_beyond_length(
        data@,
        key.table().root,
        key.table().size,
        point@,
    );
}

} // verus!
