use vector_commit::curve::{G1Point, G2Point, PairingOutput};
use vector_commit::field::Scalar;
use vector_commit::kzg::{KZGKey, KZGProof, KZGRandomPointGenerator, KZG};
use vector_commit::lagrange_basis::LagrangeBasis;
use vector_commit::transcript::Transcript;
use vector_commit::{
    HasPrecompute, KZGError, PointGenerator, PointGeneratorError, SetupError, VCCommitment,
    VCData, VCUniversalParams, VectorCommitment,
};

const DATA_SIZE: usize = 8;
const MAX_CRS: usize = 16;

fn gen_data(num: usize) -> Vec<Scalar> {
    let mut data: Vec<Scalar> = vec![];
    for _i in 0..num {
        data.push(Scalar::random());
    }
    data
}

fn fixed_data(num: usize) -> Vec<Scalar> {
    (0..num).map(|i| Scalar::from_u64(1000 + 37 * (i as u64) * (i as u64))).collect()
}

fn setup_with(data: Vec<Scalar>, max_degree: usize, point_gen: &KZGRandomPointGenerator) -> (LagrangeBasis, KZGKey) {
    let crs = KZG::setup(max_degree, point_gen).unwrap();
    let prep = LagrangeBasis::from_vec_and_domain(data, *crs.precompute().domain());
    (prep, crs)
}

fn setup(n: usize, max_degree: usize) -> (LagrangeBasis, KZGKey) {
    let data = gen_data(n);
    let point_gen = KZGRandomPointGenerator::default();
    setup_with(data, max_degree, &point_gen)
}

fn fixed_generator() -> KZGRandomPointGenerator {
    KZGRandomPointGenerator::new(Scalar::from_u64(0x1234_5678_9abc_def1), 64)
}

#[test]
fn test_single_proof() {
    let (data, crs) = setup(DATA_SIZE, MAX_CRS);
    let commit = KZG::commit(&crs, &data).unwrap();

    for i in 0..DATA_SIZE {
        let proof = KZG::prove(&crs, &commit, i, &data).unwrap();
        assert!(KZG::verify(&crs, &commit, i, &proof).unwrap());
    }

    for i in DATA_SIZE..MAX_CRS {
        let proof = KZG::prove(&crs, &commit, i, &data).unwrap();
        assert!(KZG::verify(&crs, &commit, i, &proof).unwrap());
        assert!(proof.y == Scalar::zero());
    }

    let outside_index = MAX_CRS + 1;
    let outside_proof = KZG::prove(&crs, &commit, outside_index, &data).unwrap();
    assert!(KZG::verify(&crs, &commit, outside_index, &outside_proof).unwrap());
}

#[test]
fn concrete_scenario_with_a_fixed_generator() {
    let (data, crs) = setup_with(fixed_data(8), 16, &fixed_generator());
    assert_eq!(crs.max_size(), 16);
    let commit = KZG::commit(&crs, &data).unwrap();

    let proof = KZG::prove(&crs, &commit, 0, &data).unwrap();
    assert_eq!(proof.y, Scalar::from_u64(1000));
    assert!(KZG::verify(&crs, &commit, 0, &proof).unwrap());

    let proof = KZG::prove(&crs, &commit, 10, &data).unwrap();
    assert_eq!(proof.y, Scalar::zero());
    assert!(KZG::verify(&crs, &commit, 10, &proof).unwrap());

    // beyond the key's size the point is a field element outside the domain,
    // and the opening is to the polynomial's value there
    let proof = KZG::prove(&crs, &commit, 17, &data).unwrap();
    let y = data.evaluate(crs.precompute(), Scalar::from_u64(17));
    assert_eq!(proof.y, y);
    assert!(KZG::verify(&crs, &commit, 17, &proof).unwrap());
}

#[test]
fn prove_agrees_with_prove_point() {
    let (data, crs) = setup_with(fixed_data(8), 16, &fixed_generator());
    let commit = KZG::commit(&crs, &data).unwrap();
    for i in [0usize, 3, 7, 12, 15, 16, 40] {
        let by_index = KZG::prove(&crs, &commit, i, &data).unwrap();
        let by_point = KZG::prove_point(&crs, &commit, Scalar::from_u64(i as u64), &data, None).unwrap();
        assert_eq!(by_index, by_point);
        let verdict = KZG::verify_point(&crs, &commit, Scalar::from_u64(i as u64), &by_point, None);
        assert_eq!(verdict, Ok(true));
    }
}

#[test]
fn full_length_data_verifies_at_every_index() {
    let (data, crs) = setup_with(fixed_data(8), 8, &fixed_generator());
    let commit = KZG::commit(&crs, &data).unwrap();
    for i in 0..8 {
        let proof = KZG::prove(&crs, &commit, i, &data).unwrap();
        assert_eq!(proof.y, Scalar::from_u64(1000 + 37 * (i as u64) * (i as u64)));
        assert!(KZG::verify(&crs, &commit, i, &proof).unwrap());
    }
}

#[test]
fn a_changed_evaluation_does_not_verify() {
    let (data, crs) = setup_with(fixed_data(8), 16, &fixed_generator());
    let commit = KZG::commit(&crs, &data).unwrap();
    for i in [0usize, 5, 9, 17] {
        let proof = KZG::prove(&crs, &commit, i, &data).unwrap();
        let forged = KZGProof { proof: proof.proof, y: proof.y.plus(&Scalar::one()) };
        assert_eq!(KZG::verify(&crs, &commit, i, &forged), Ok(false));
    }
}

#[test]
fn a_proof_for_another_index_does_not_verify() {
    let (data, crs) = setup_with(fixed_data(8), 16, &fixed_generator());
    let commit = KZG::commit(&crs, &data).unwrap();
    let proof = KZG::prove(&crs, &commit, 2, &data).unwrap();
    assert_eq!(KZG::verify(&crs, &commit, 3, &proof), Ok(false));
}

#[test]
fn commit_and_prove_are_deterministic() {
    let (data, crs) = setup_with(fixed_data(8), 16, &fixed_generator());
    let (data2, crs2) = setup_with(fixed_data(8), 16, &fixed_generator());
    let first = KZG::commit(&crs, &data).unwrap();
    let second = KZG::commit(&crs2, &data2).unwrap();
    assert_eq!(first.to_bytes(), second.to_bytes());
    assert_eq!(KZG::commit(&crs, &data).unwrap(), first);
    for point in [Scalar::from_u64(3), Scalar::from_u64(11), Scalar::from_u64(99)] {
        let a = KZG::prove_point(&crs, &first, point, &data, None).unwrap();
        let b = KZG::prove_point(&crs2, &second, point, &data2, None).unwrap();
        assert_eq!(a.proof.to_bytes(), b.proof.to_bytes());
        assert_eq!(a.y, b.y);
    }
}

#[test]
fn commit_is_the_inner_product_with_the_reference_string() {
    let (data, crs) = setup_with(fixed_data(3), 4, &fixed_generator());
    let commit = KZG::commit(&crs, &data).unwrap();
    let l = crs.lagrange_commitments();
    let d = data.elements_ref();
    let expected = G1Point::zero()
        .plus(&l[0].times(&d[0]))
        .plus(&l[1].times(&d[1]))
        .plus(&l[2].times(&d[2]));
    assert_eq!(commit, expected);
}

#[test]
fn commit_of_a_polynomial_is_its_value_at_the_secret() {
    // the constant polynomial 5 has the value 5 on the whole domain
    let gen = fixed_generator();
    let data = vec![Scalar::from_u64(5); 4];
    let (data, crs) = setup_with(data, 4, &gen);
    let commit = KZG::commit(&crs, &data).unwrap();
    assert_eq!(commit, G1Point::generator_times(&Scalar::from_u64(5)));
    // the polynomial X has the value w^i at the i-th domain point
    let domain = *crs.precompute().domain();
    let values: Vec<Scalar> = (0..4).map(|i| domain.element(i)).collect();
    let data = LagrangeBasis::from_vec_and_domain(values, domain);
    let commit = KZG::commit(&crs, &data).unwrap();
    assert_eq!(commit, G1Point::generator_times(&gen.secret().unwrap()));
}

#[test]
fn setup_rounds_up_to_a_domain() {
    let crs = KZG::setup(10, &fixed_generator()).unwrap();
    assert_eq!(crs.max_size(), 16);
    assert_eq!(crs.lagrange_commitments().len(), 16);
    assert_eq!(crs.precompute().size(), 16);
    assert_eq!(*crs.g2(), G2Point::generator_times(&Scalar::from_u64(0x1234_5678_9abc_def1)));
}

#[test]
fn setup_fails_beyond_the_generators_bound() {
    let r = KZG::setup(65, &fixed_generator());
    assert!(matches!(r, Err(SetupError::Generator(PointGeneratorError::OutOfBounds))));
    let r = KZG::setup(64, &fixed_generator());
    assert!(r.is_ok());
}

#[test]
fn setup_fails_without_a_domain() {
    let gen = KZGRandomPointGenerator::new(Scalar::zero(), usize::MAX);
    let r = KZG::setup((1 << 28) + 1, &gen);
    assert!(matches!(r, Err(SetupError::Scheme(KZGError::InvalidDomain))));
}

#[test]
fn commit_fails_for_too_much_data() {
    let crs = KZG::setup(4, &fixed_generator()).unwrap();
    let data = LagrangeBasis::from_vec(fixed_data(5));
    assert_eq!(KZG::commit(&crs, &data), Err(KZGError::DefaultError));
    let commit = G1Point::zero();
    assert_eq!(KZG::prove(&crs, &commit, 0, &data), Err(KZGError::DefaultError));
    let data = LagrangeBasis::from_vec(fixed_data(4));
    assert!(KZG::commit(&crs, &data).is_ok());
}

#[test]
fn prove_point_fails_at_a_domain_point_given_as_a_field_element() {
    let (data, crs) = setup_with(fixed_data(8), 16, &fixed_generator());
    let commit = KZG::commit(&crs, &data).unwrap();
    let point = crs.precompute().domain().element(3);
    assert_eq!(KZG::prove_point(&crs, &commit, point, &data, None), Err(KZGError::DefaultError));
    // the same point by its index is fine
    assert!(KZG::prove_point(&crs, &commit, Scalar::from_u64(3), &data, None).is_ok());
}

#[test]
fn batch_operations_are_not_implemented() {
    let (data, crs) = setup_with(fixed_data(4), 4, &fixed_generator());
    let commit = KZG::commit(&crs, &data).unwrap();
    assert_eq!(KZG::prove_batch(&crs, &commit, vec![0, 1], &data), Err(KZGError::NotImplemented));
    assert_eq!(KZG::verify_batch(&crs, &commit, &vec![commit]), Err(KZGError::NotImplemented));
}

#[test]
fn key_from_a_finished_reference_string() {
    let crs = KZG::setup(8, &fixed_generator()).unwrap();
    let copy = KZGKey::from_lagrange_vec(crs.lagrange_commitments().clone(), *crs.g2()).unwrap();
    let data = LagrangeBasis::from_vec(fixed_data(8));
    let commit = KZG::commit(&copy, &data).unwrap();
    assert_eq!(commit, KZG::commit(&crs, &data).unwrap());
    let proof = KZG::prove(&copy, &commit, 6, &data).unwrap();
    assert!(KZG::verify(&crs, &commit, 6, &proof).unwrap());
    let mut three = crs.lagrange_commitments().clone();
    three.truncate(3);
    assert!(matches!(KZGKey::from_lagrange_vec(three, *crs.g2()), Err(KZGError::InvalidDomain)));
    assert!(matches!(KZGKey::from_lagrange_vec(vec![], *crs.g2()), Err(KZGError::InvalidDomain)));
}

#[test]
fn generator_hands_out_the_powers_of_its_secret() {
    let gen = KZGRandomPointGenerator::new(Scalar::from_u64(3), 5);
    let points = gen.gen(4).unwrap();
    assert_eq!(points.len(), 4);
    assert_eq!(points[0], G1Point::generator());
    assert_eq!(points[1], G1Point::generator_times(&Scalar::from_u64(3)));
    assert_eq!(points[2], G1Point::generator_times(&Scalar::from_u64(9)));
    assert_eq!(points[3], G1Point::generator_times(&Scalar::from_u64(27)));
    assert_eq!(gen.gen_at(4), Ok(G1Point::generator_times(&Scalar::from_u64(81))));
    assert_eq!(gen.gen_at(5), Err(PointGeneratorError::OutOfBounds));
    assert_eq!(gen.gen(6), Err(PointGeneratorError::OutOfBounds));
    assert_eq!(gen.gen(0), Ok(vec![]));
    assert_eq!(gen.secret(), Some(Scalar::from_u64(3)));
    let mut gen = gen;
    gen.set_max(6);
    assert!(gen.gen(6).is_ok());
}

#[test]
fn default_generators_differ() {
    let a = KZGRandomPointGenerator::default();
    let b = KZGRandomPointGenerator::default();
    assert_ne!(a.secret(), b.secret());
    assert!(a.gen(1 << 10).is_ok());
}

#[test]
fn commitment_as_a_data_item() {
    assert_eq!(G1Point::zero().to_data_item(), Scalar::zero());
    let g = G1Point::generator();
    // the generator has the coordinate one, and its encoding denotes one
    assert_eq!(g.to_data_item(), Scalar::from_u64(1));
    let p = G1Point::generator_times(&Scalar::from_u64(7));
    assert_eq!(p.to_data_item(), Scalar::from_le_bytes_mod_order(&p.to_bytes()));
    assert_ne!(p.to_data_item(), Scalar::zero());
}

#[test]
fn pairing_is_bilinear_on_the_generators() {
    let a = Scalar::from_u64(6);
    let b = Scalar::from_u64(35);
    let left = PairingOutput::pairing(&G1Point::generator_times(&a), &G2Point::generator_times(&b));
    let right = PairingOutput::pairing(
        &G1Point::generator_times(&a.times(&b)),
        &G2Point::generator(),
    );
    assert!(left.equals(&right));
    assert_eq!(left, right);
    let other = PairingOutput::pairing(&G1Point::generator(), &G2Point::generator());
    assert!(!left.equals(&other));
}

#[test]
fn amortized_proving_on_a_quadratic() {
    // f = 1 + 2 X + 3 X^2 over a domain of 4 points
    let gen = fixed_generator();
    let crs = KZG::setup(4, &gen).unwrap();
    let domain = *crs.precompute().domain();
    let w = domain.group_gen();
    let (one, two, three) = (Scalar::from_u64(1), Scalar::from_u64(2), Scalar::from_u64(3));
    let values: Vec<Scalar> = (0..4)
        .map(|i| {
            let x = domain.element(i);
            one.plus(&two.times(&x)).plus(&three.times(&x.times(&x)))
        })
        .collect();
    let data = LagrangeBasis::from_vec_and_domain(values.clone(), domain);
    let proofs = KZG::prove_all_points(&crs, &data).unwrap();
    assert_eq!(proofs.len(), 4);
    // (f - f(w^k)) / (X - w^k) = 3 X + 2 + 3 w^k, committed at the secret
    let s = gen.secret().unwrap();
    for k in 0..4 {
        let quotient = three.times(&s).plus(&two).plus(&three.times(&w.pow(k as u64)));
        assert_eq!(proofs[k].proof, G1Point::generator_times(&quotient));
        assert_eq!(proofs[k].y, values[k]);
    }
    assert_eq!(
        proofs[0].proof,
        G1Point::generator_times(&three.times(&s).plus(&Scalar::from_u64(5)))
    );
}

#[test]
fn amortized_proving_of_the_identity_polynomial() {
    // f = X: every quotient is the constant one
    let crs = KZG::setup(8, &KZGRandomPointGenerator::default()).unwrap();
    let domain = *crs.precompute().domain();
    let w = domain.group_gen();
    let values: Vec<Scalar> = (0..8u64).map(|i| w.pow(i)).collect();
    let data = LagrangeBasis::from_vec_and_domain(values, domain);
    let proofs = KZG::prove_all_points(&crs, &data).unwrap();
    assert_eq!(proofs.len(), 8);
    for i in 0..8 {
        assert_eq!(proofs[i].proof, G1Point::generator());
        assert_eq!(proofs[i].y, w.pow(i as u64));
    }
}

#[test]
fn amortized_proofs_are_the_single_proofs() {
    for (len, size) in [(8usize, 8usize), (8, 16), (5, 8), (1, 4), (2, 2)] {
        let (data, crs) = setup_with(fixed_data(len), size, &fixed_generator());
        let commit = KZG::commit(&crs, &data).unwrap();
        let all = KZG::prove_all_points(&crs, &data).unwrap();
        assert_eq!(all.len(), size);
        for i in 0..size {
            let single = KZG::prove(&crs, &commit, i, &data).unwrap();
            assert_eq!(all[i], single);
            assert_eq!(
                all[i],
                KZG::prove_point(&crs, &commit, Scalar::from_u64(i as u64), &data, None).unwrap()
            );
            assert_eq!(KZG::verify(&crs, &commit, i, &all[i]), Ok(true));
            let expected = if i < len { data.elements_ref()[i] } else { Scalar::zero() };
            assert_eq!(all[i].y, expected);
        }
    }
}

#[test]
fn amortized_proving_of_random_data() {
    let (data, crs) = setup(DATA_SIZE, MAX_CRS);
    let commit = KZG::commit(&crs, &data).unwrap();
    let all = KZG::prove_all_points(&crs, &data).unwrap();
    assert_eq!(all.len(), MAX_CRS);
    for i in 0..MAX_CRS {
        assert_eq!(all[i], KZG::prove(&crs, &commit, i, &data).unwrap());
        assert!(KZG::verify(&crs, &commit, i, &all[i]).unwrap());
    }
}

#[test]
fn amortized_proving_goes_by_the_keys_domain() {
    // the data's own domain has 4 points, the key's has 8
    let crs = KZG::setup(8, &fixed_generator()).unwrap();
    let data = LagrangeBasis::from_vec(fixed_data(3));
    assert_eq!(data.domain().size(), 4);
    let commit = KZG::commit(&crs, &data).unwrap();
    let all = KZG::prove_all_points(&crs, &data).unwrap();
    assert_eq!(all.len(), 8);
    for i in 0..8 {
        assert_eq!(all[i], KZG::prove(&crs, &commit, i, &data).unwrap());
    }
}

#[test]
fn key_from_an_encoded_reference_string() {
    let crs = KZG::setup(4, &fixed_generator()).unwrap();
    let points: Vec<Vec<u8>> = crs.lagrange_commitments().iter().map(|p| p.to_bytes()).collect();
    let g2 = crs.g2().to_bytes();
    let key = KZGKey::from_encoded(&points, &g2).unwrap();
    assert_eq!(key.lagrange_commitments(), crs.lagrange_commitments());
    assert_eq!(key.g2(), crs.g2());
    assert_eq!(key.max_size(), 4);

    let mut broken = points.clone();
    broken[2] = vec![0xff; 32];
    let r = KZGKey::from_encoded(&broken, &g2);
    assert!(matches!(r, Err(SetupError::Generator(PointGeneratorError::InvalidPoint))));
    let r = KZGKey::from_encoded(&points, &[1, 2, 3]);
    assert!(matches!(r, Err(SetupError::Generator(PointGeneratorError::InvalidPoint))));
    let r = KZGKey::from_encoded(&points[0..3].to_vec(), &g2);
    assert!(matches!(r, Err(SetupError::Scheme(KZGError::InvalidDomain))));
}

#[test]
fn amortized_proving_of_constant_data() {
    let crs = KZG::setup(4, &fixed_generator()).unwrap();
    for value in [Scalar::from_u64(9), Scalar::zero()] {
        let data = LagrangeBasis::from_vec(vec![value; 4]);
        let commit = KZG::commit(&crs, &data).unwrap();
        let all = KZG::prove_all_points(&crs, &data).unwrap();
        assert_eq!(all.len(), 4);
        for i in 0..4 {
            assert_eq!(all[i].proof, G1Point::zero());
            assert_eq!(all[i].y, value);
            assert_eq!(all[i], KZG::prove(&crs, &commit, i, &data).unwrap());
            assert_eq!(KZG::verify(&crs, &commit, i, &all[i]), Ok(true));
        }
    }
}

#[test]
fn amortized_proving_fails_for_too_much_data() {
    let crs = KZG::setup(2, &fixed_generator()).unwrap();
    let data = LagrangeBasis::from_vec(fixed_data(8));
    assert_eq!(KZG::prove_all_points(&crs, &data), Err(KZGError::DefaultError));
}

#[test]
fn error_messages() {
    assert_eq!(KZGError::DefaultError.message(), "An unspecified error occurred");
    assert_eq!(KZGError::InvalidDomain.message(), "Cannot create the requested domain size");
    assert_eq!(
        KZGError::NotImplemented.message(),
        "The operation is not implemented by this scheme"
    );
    assert_eq!(
        PointGeneratorError::OutOfBounds.message(),
        "Attempted to create generator outside of max allowed"
    );
    assert_eq!(
        PointGeneratorError::InvalidPoint.message(),
        "Attempt to serialize bytes into a non-exsistent point"
    );
}

#[test]
fn the_scheme_ignores_the_transcript() {
    let (data, crs) = setup_with(fixed_data(8), 8, &fixed_generator());
    let commit = KZG::commit(&crs, &data).unwrap();
    let mut transcript = Transcript::new();
    transcript.append_point(&commit);
    let point = Scalar::from_u64(5);
    let with = KZG::prove_point(&crs, &commit, point, &data, Some(transcript.clone())).unwrap();
    let without = KZG::prove_point(&crs, &commit, point, &data, None).unwrap();
    assert_eq!(with, without);
    assert_eq!(KZG::verify_point(&crs, &commit, point, &with, Some(transcript)), Ok(true));
}

#[test]
fn a_transcript_accumulates_and_challenges() {
    let mut transcript = Transcript::new();
    assert_eq!(transcript.bytes(), &Vec::<u8>::new());
    assert_eq!(transcript.challenge(), Scalar::zero());
    transcript.append(&[1, 2]);
    transcript.append(&[]);
    transcript.append(&[3]);
    assert_eq!(transcript.bytes(), &vec![1, 2, 3]);
    assert_eq!(transcript.challenge(), Scalar::from_u64(1 + 2 * 256 + 3 * 65536));
    let p = G1Point::generator_times(&Scalar::from_u64(7));
    transcript.append_point(&p);
    assert_eq!(transcript.bytes().len(), 35);
    assert_eq!(&transcript.bytes()[3..], &p.to_bytes()[..]);
    let mut other = Transcript::new();
    other.append(&[1, 2, 3]);
    assert_ne!(transcript.challenge(), other.challenge());
    assert_eq!(transcript.challenge(), transcript.clone().challenge());
}
