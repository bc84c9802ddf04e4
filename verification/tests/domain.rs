use vector_commit::curve::G1Point;
use vector_commit::domain::{EvaluationDomain, MAX_DOMAIN_SIZE};
use vector_commit::field::Scalar;
use vector_commit::kzg::{KZGRandomPointGenerator, KZG};
use vector_commit::lagrange_basis::LagrangeBasis;
use vector_commit::precompute::PrecomputedLagrange;
use vector_commit::{HasPrecompute, KZGError, VCData, VectorCommitment};

fn s(x: u64) -> Scalar {
    Scalar::from_u64(x)
}

#[test]
fn domain_sizes() {
    assert_eq!(MAX_DOMAIN_SIZE, 1 << 28);
    for (asked, size) in [(0, 1), (1, 1), (2, 2), (3, 4), (4, 4), (5, 8), (10, 16), (16, 16), (17, 32)] {
        assert_eq!(EvaluationDomain::new(asked).unwrap().size(), size);
    }
    assert_eq!(EvaluationDomain::new(1 << 28).unwrap().size(), 1 << 28);
    assert!(EvaluationDomain::new((1 << 28) + 1).is_none());
    assert!(EvaluationDomain::new(usize::MAX).is_none());
}

#[test]
fn the_generator_has_the_order_of_the_domain() {
    for size in [1usize, 2, 4, 8, 16, 1024] {
        let domain = EvaluationDomain::new(size).unwrap();
        let w = domain.group_gen();
        assert_eq!(w.pow(size as u64), Scalar::one());
        for k in 1..size.min(64) {
            assert_ne!(w.pow(k as u64), Scalar::one());
            assert_eq!(domain.element(k), w.pow(k as u64));
        }
    }
    // the domain of two points is generated by minus one
    let two = EvaluationDomain::new(2).unwrap();
    assert_eq!(two.group_gen(), Scalar::zero().minus(&Scalar::one()));
    assert_eq!(EvaluationDomain::new(1).unwrap().group_gen(), Scalar::one());
}

#[test]
fn transforms_of_scalars() {
    let domain = EvaluationDomain::new(4).unwrap();
    let w = domain.group_gen();
    // the constant polynomial 7
    assert_eq!(domain.fft(&[s(7)]), vec![s(7); 4]);
    assert_eq!(domain.ifft(&vec![s(7); 4]), vec![s(7), s(0), s(0), s(0)]);
    // the polynomial X
    let x = domain.fft(&[s(0), s(1)]);
    assert_eq!(x, vec![s(1), w, w.pow(2), w.pow(3)]);
    assert_eq!(domain.ifft(&x), vec![s(0), s(1), s(0), s(0)]);
    // short inputs are padded with zeros
    assert_eq!(domain.ifft(&[]), vec![s(0); 4]);
    let quarter = s(4).inverse().unwrap();
    assert_eq!(domain.ifft(&[s(1)]), vec![quarter; 4]);
    // and long ones are cut
    assert_eq!(domain.fft(&[s(7), s(0), s(0), s(0), s(5)]), vec![s(7); 4]);
}

#[test]
fn transforms_of_points() {
    let domain = EvaluationDomain::new(4).unwrap();
    let g = G1Point::generator();
    let points: Vec<G1Point> = (1..=4).map(|i| G1Point::generator_times(&s(i))).collect();
    let there = domain.fft_g1(&points);
    assert_eq!(there.len(), 4);
    assert_eq!(there[0], G1Point::generator_times(&s(10)));
    assert_ne!(there, points);
    assert_eq!(domain.ifft_g1(&there), points);
    assert_eq!(domain.fft_g1(&[g]), vec![g; 4]);
    let quarter = s(4).inverse().unwrap();
    assert_eq!(domain.ifft_g1(&[g]), vec![G1Point::generator_times(&quarter); 4]);
    assert_eq!(domain.ifft_g1(&[]), vec![G1Point::zero(); 4]);
}

#[test]
fn the_table_of_vanishing_derivatives() {
    let table = PrecomputedLagrange::new(8).unwrap();
    assert_eq!(table.size(), 8);
    let w = table.domain().group_gen();
    for i in 0..8 {
        // 8 * w^(-i)
        let expected = s(8).divided_by(&w.pow(i as u64));
        assert_eq!(table.vanishing_at(i), expected);
        assert_eq!(table.vanishing_at(i).times(&table.vanishing_inverse_at(i)), Scalar::one());
        assert!(!table.vanishing_at(i).is_zero());
    }
    assert_eq!(table.vanishing_at(0), s(8));
    assert_eq!(table.vanishing_inverse_at(0), s(8).inverse().unwrap());
    let copy = table.clone();
    assert_eq!(copy.vanishing_at(5), table.vanishing_at(5));
}

#[test]
fn the_table_takes_the_domain_that_holds_the_size() {
    let table = PrecomputedLagrange::new(5).unwrap();
    assert_eq!(table.size(), 8);
    assert_eq!(table.domain().size(), 8);
    assert!(matches!(PrecomputedLagrange::new((1 << 28) + 1), Err(KZGError::InvalidDomain)));
}

#[test]
fn vanishing_evaluations_by_themselves() {
    let w = EvaluationDomain::new(4).unwrap().group_gen();
    let (evals, inv) = PrecomputedLagrange::compute_vanishing_evaluations(4, &w);
    assert_eq!(evals.len(), 4);
    assert_eq!(inv.len(), 4);
    // 4, 4 w^3, 4 w^2, 4 w
    assert_eq!(evals, vec![s(4), s(4).times(&w.pow(3)), s(4).times(&w.pow(2)), s(4).times(&w)]);
    for i in 0..4 {
        assert_eq!(evals[i].times(&inv[i]), Scalar::one());
    }
}

#[test]
fn barycentric_coefficients_of_an_index_are_a_unit_vector() {
    let table = PrecomputedLagrange::new(8).unwrap();
    for i in 0..8u64 {
        let coefficients = table.compute_barycentric_coefficients(s(i));
        assert_eq!(coefficients.len(), 8);
        for j in 0..8 {
            let expected = if j as u64 == i { Scalar::one() } else { Scalar::zero() };
            assert_eq!(coefficients[j], expected);
        }
    }
}

#[test]
fn barycentric_coefficients_outside_the_domain() {
    let table = PrecomputedLagrange::new(4).unwrap();
    let w = table.domain().group_gen();
    let z = s(9);
    let coefficients = table.compute_barycentric_coefficients(z);
    // t = (9^4 - 1) / 4 = 1640
    let t = s(1640);
    for i in 0..4 {
        let x = w.pow(i as u64);
        assert_eq!(coefficients[i], t.times(&x).divided_by(&z.minus(&x)));
    }
    // the coefficients sum to one, and weigh the domain points to the point
    let sum = coefficients.iter().fold(Scalar::zero(), |a, b| a.plus(b));
    assert_eq!(sum, Scalar::one());
    let weighed =
        (0..4).fold(Scalar::zero(), |a, i| a.plus(&coefficients[i].times(&w.pow(i as u64))));
    assert_eq!(weighed, z);
    // the point four is the first one that is no index
    let at_size = table.compute_barycentric_coefficients(s(4));
    assert_eq!(at_size[0], s(255).divided_by(&s(4)).divided_by(&s(3)));
}

#[test]
fn evaluation() {
    let table = PrecomputedLagrange::new(4).unwrap();
    let domain = *table.domain();
    // f = 2 + 5 X
    let values: Vec<Scalar> = (0..4).map(|i| s(2).plus(&s(5).times(&domain.element(i)))).collect();
    let data = LagrangeBasis::from_vec_and_domain(values.clone(), domain);
    for i in 0..4 {
        assert_eq!(data.evaluate(&table, s(i as u64)), values[i]);
    }
    assert_eq!(data.evaluate(&table, s(9)), s(47));
    assert_eq!(data.evaluate(&table, s(4)), s(22));
    // shorter data is zero on the rest of the domain
    let short = LagrangeBasis::from_vec_and_domain(vec![s(3), s(8)], domain);
    assert_eq!(short.evaluate(&table, s(1)), s(8));
    assert_eq!(short.evaluate(&table, s(2)), s(0));
    assert_eq!(short.evaluate(&table, s(3)), s(0));
    let padded = LagrangeBasis::from_vec_and_domain(vec![s(3), s(8), s(0), s(0)], domain);
    assert_eq!(short.evaluate(&table, s(9)), padded.evaluate(&table, s(9)));
    assert_ne!(short.evaluate(&table, s(9)), s(0));
}

#[test]
fn division_inside_the_domain() {
    let table = PrecomputedLagrange::new(4).unwrap();
    let domain = *table.domain();
    let w = domain.group_gen();
    // f = 1 + 2 X + 3 X^2, and (f - f(w^k)) / (X - w^k) = 3 X + 2 + 3 w^k
    let f = |x: &Scalar| s(1).plus(&s(2).times(x)).plus(&s(3).times(&x.times(x)));
    let values: Vec<Scalar> = (0..4).map(|i| f(&domain.element(i))).collect();
    let data = LagrangeBasis::from_vec_and_domain(values, domain);
    for k in 0..4 {
        let q = data.divide_by_vanishing(&table, k);
        assert_eq!(q.len(), 4);
        let at = w.pow(k as u64);
        for i in 0..4 {
            let x = w.pow(i as u64);
            assert_eq!(q[i], s(3).times(&x).plus(&s(2)).plus(&s(3).times(&at)));
        }
    }
}

#[test]
fn division_of_short_data() {
    let table = PrecomputedLagrange::new(4).unwrap();
    let domain = *table.domain();
    let w = domain.group_gen();
    let short = LagrangeBasis::from_vec_and_domain(vec![s(3), s(8)], domain);
    let padded = LagrangeBasis::from_vec_and_domain(vec![s(3), s(8), s(0), s(0)], domain);
    for k in 0..4 {
        let q = short.divide_by_vanishing(&table, k);
        assert_eq!(q, padded.divide_by_vanishing(&table, k));
        let y = padded.evaluate(&table, s(k as u64));
        for i in 0..4 {
            if i != k {
                let divisor = w.pow(i as u64).minus(&w.pow(k as u64));
                assert_eq!(q[i].times(&divisor), padded.index(i).minus(&y));
            }
        }
    }
}

#[test]
fn division_outside_the_domain() {
    let table = PrecomputedLagrange::new(4).unwrap();
    let domain = *table.domain();
    let w = domain.group_gen();
    let f = |x: &Scalar| s(1).plus(&s(2).times(x)).plus(&s(3).times(&x.times(x)));
    let values: Vec<Scalar> = (0..4).map(|i| f(&domain.element(i))).collect();
    let data = LagrangeBasis::from_vec_and_domain(values, domain);
    let z = s(10);
    let q = data.divide_by_vanishing_outside_domain(&table, z);
    assert_eq!(q.len(), 4);
    for i in 0..4 {
        let x = w.pow(i as u64);
        // (f - f(10)) / (X - 10) = 3 X + 32
        assert_eq!(q[i], s(3).times(&x).plus(&s(32)));
    }
}

#[test]
fn the_dataset() {
    let mut data = LagrangeBasis::from_vec(vec![s(1), s(2), s(3)]);
    assert_eq!(data.len(), 3);
    assert_eq!(data.domain().size(), 4);
    assert_eq!(data.get(0), Some(&s(1)));
    assert_eq!(data.get(2), Some(&s(3)));
    assert_eq!(data.get(3), None);
    assert_eq!(data.index(1), &s(2));
    assert_eq!(data.get_all(), vec![(0, &s(1)), (1, &s(2)), (2, &s(3))]);
    data.set_evaluation(1, s(20));
    assert_eq!(data.elements_ref(), &vec![s(1), s(20), s(3)]);
    assert_eq!(data.len(), 3);
    let copy = data.clone();
    assert_eq!(copy.elements_ref(), data.elements_ref());
    assert_eq!(LagrangeBasis::bytes_to_item(&[1, 1]), s(257));
    assert_eq!(LagrangeBasis::item_from_index(12), s(12));
    let empty = LagrangeBasis::from_vec(vec![]);
    assert_eq!(empty.len(), 0);
    assert_eq!(empty.get_all(), vec![]);
    assert_eq!(empty.interpolate(), vec![s(0)]);
}

#[test]
fn interpolation() {
    let domain = EvaluationDomain::new(4).unwrap();
    let values: Vec<Scalar> =
        (0..4).map(|i| s(1).plus(&s(2).times(&domain.element(i)))).collect();
    let data = LagrangeBasis::from_vec(values);
    assert_eq!(data.interpolate(), vec![s(1), s(2), s(0), s(0)]);
}

// the values at `s` of the Lagrange polynomials of a domain
fn lagrange_values(domain: &EvaluationDomain, secret: &Scalar) -> Vec<Scalar> {
    let n = domain.size();
    let t = secret.pow(n as u64).minus(&Scalar::one()).divided_by(&s(n as u64));
    (0..n)
        .map(|i| {
            let x = domain.element(i);
            t.times(&x).divided_by(&secret.minus(&x))
        })
        .collect()
}

#[test]
fn the_opening_identity_on_a_domain_of_eight() {
    let table = PrecomputedLagrange::new(8).unwrap();
    let domain = *table.domain();
    let w = domain.group_gen();
    let secret = s(0xfeed_beef);
    let srs = lagrange_values(&domain, &secret);
    // the two properties of a reference string's values
    let sum = srs.iter().fold(Scalar::zero(), |a, b| a.plus(b));
    assert_eq!(sum, Scalar::one());
    for i in 0..8 {
        for j in 0..8 {
            let left = srs[i].times(&secret.minus(&w.pow(i as u64))).times(&w.pow(j as u64));
            let right = srs[j].times(&secret.minus(&w.pow(j as u64))).times(&w.pow(i as u64));
            assert_eq!(left, right);
        }
    }
    // the identity, for full and for short data
    for len in [8usize, 5, 1] {
        let values: Vec<Scalar> = (0..len).map(|i| s(3 + 11 * (i as u64) * (i as u64))).collect();
        let data = LagrangeBasis::from_vec_and_domain(values.clone(), domain);
        let committed = vector_commit::utils::inner_product(&srs, &values);
        for k in 0..8 {
            let q = data.divide_by_vanishing(&table, k);
            let opened = vector_commit::utils::inner_product(&srs, &q);
            let y = if k < len { values[k] } else { Scalar::zero() };
            assert_eq!(opened.times(&secret.minus(&w.pow(k as u64))), committed.minus(&y));
        }
    }
}

#[test]
fn a_key_holds_the_lagrange_values_in_the_exponent() {
    let secret = s(0xfeed_beef);
    let key = KZG::setup(8, &KZGRandomPointGenerator::new(secret, 8)).unwrap();
    let srs = lagrange_values(key.precompute().domain(), &secret);
    for i in 0..8 {
        assert_eq!(key.lagrange_commitments()[i], G1Point::generator_times(&srs[i]));
    }
}

#[test]
fn transforms_are_the_sums_over_the_powers_of_the_generator() {
    let domain = EvaluationDomain::new(8).unwrap();
    let w = domain.group_gen();
    let w_inv = w.pow(7);
    let eighth = s(8).inverse().unwrap();
    for input in [
        vec![s(3), s(1), s(4), s(1), s(5), s(9), s(2), s(6)],
        vec![s(7), s(0), s(11)],
        vec![s(1), s(2), s(3), s(4), s(5), s(6), s(7), s(8), s(9), s(10)],
    ] {
        let mut resized = input.clone();
        resized.resize(8, Scalar::zero());
        let there = domain.fft(&input);
        let back = domain.ifft(&input);
        for i in 0..8u64 {
            let sum = (0..8u64).fold(Scalar::zero(), |a, j| {
                a.plus(&resized[j as usize].times(&w.pow(i * j)))
            });
            assert_eq!(there[i as usize], sum);
            let sum = (0..8u64).fold(Scalar::zero(), |a, j| {
                a.plus(&resized[j as usize].times(&w_inv.pow(i * j)))
            });
            assert_eq!(back[i as usize], eighth.times(&sum));
        }
    }
}
