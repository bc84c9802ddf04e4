use vector_commit::algebra::VectorSpace;
use vector_commit::curve::G1Point;
use vector_commit::field::Scalar;
use vector_commit::kzg::polynomial_degree;
use vector_commit::utils::{
    copy_of, elementwise_mul, inner_product, powers_of, serialize, split, to_usize,
    vec_add_and_distribute,
};

fn s(x: u64) -> Scalar {
    Scalar::from_u64(x)
}

fn g(x: u64) -> G1Point {
    G1Point::generator_times(&s(x))
}

#[test]
fn inner_product_of_scalars() {
    let a = [s(1), s(2), s(3)];
    let b = [s(4), s(5), s(6)];
    assert_eq!(inner_product(&a, &b), s(32));
    // the second vector decides how far the sum goes
    assert_eq!(inner_product(&a, &b[0..2]), s(14));
    let none: [Scalar; 0] = [];
    assert_eq!(inner_product(&a, &none), s(0));
}

#[test]
fn inner_product_of_points_with_scalars() {
    let a = [g(1), g(2), g(3)];
    let b = [s(4), s(5), s(6)];
    assert_eq!(inner_product(&a, &b), g(32));
    let none: [Scalar; 0] = [];
    assert_eq!(inner_product(&a, &none), G1Point::zero());
    assert_eq!(inner_product(&a, &[s(0), s(0)]), G1Point::zero());
}

#[test]
fn add_and_distribute() {
    let a = [s(1), s(2), s(3)];
    let b = [s(10), s(20), s(30)];
    assert_eq!(vec_add_and_distribute(&a, &b, &s(2)), vec![s(21), s(42), s(63)]);
    let p = [g(1), g(2)];
    let q = [g(3), g(4)];
    assert_eq!(vec_add_and_distribute(&p, &q, &s(5)), vec![g(16), g(22)]);
    let none: [Scalar; 0] = [];
    assert_eq!(vec_add_and_distribute(&none, &none, &s(2)), vec![]);
}

#[test]
fn elementwise_products() {
    let p = [g(1), g(2), g(3)];
    assert_eq!(elementwise_mul(&p, &[s(2), s(3), s(4)]), vec![g(2), g(6), g(12)]);
    assert_eq!(elementwise_mul(&p, &[s(2)]), vec![g(2)]);
    assert_eq!(elementwise_mul(&p[0..1], &[s(2), s(3)]), vec![g(2)]);
    assert_eq!(elementwise_mul(&[s(2), s(3)], &[s(5), s(7)]), vec![s(10), s(21)]);
}

#[test]
fn halves() {
    assert_eq!(split(&[1, 2, 3, 4]), (vec![1, 2], vec![3, 4]));
    assert_eq!(split(&[1, 2, 3]), (vec![1], vec![2, 3]));
    assert_eq!(split(&[1]), (vec![], vec![1]));
    let none: [u8; 0] = [];
    assert_eq!(split(&none), (vec![], vec![]));
}

#[test]
fn powers_of_a_scalar() {
    assert_eq!(powers_of(s(3), 4), vec![s(1), s(3), s(9), s(27)]);
    assert_eq!(powers_of(s(3), 1), vec![s(1)]);
    assert_eq!(powers_of(s(3), 0), vec![s(1)]);
    assert_eq!(powers_of(s(0), 3), vec![s(1), s(0), s(0)]);
}

#[test]
fn small_helpers() {
    assert_eq!(to_usize(&s(0)), 0);
    assert_eq!(to_usize(&s(123_456)), 123_456);
    assert_eq!(copy_of(&[4, 5, 6]), vec![4, 5, 6]);
    assert_eq!(serialize(&g(5)), g(5).to_bytes());
    assert_eq!(serialize(&g(5)).len(), 32);
}

#[test]
fn degrees() {
    assert_eq!(polynomial_degree(&[]), 0);
    assert_eq!(polynomial_degree(&[s(0), s(0)]), 0);
    assert_eq!(polynomial_degree(&[s(5)]), 0);
    assert_eq!(polynomial_degree(&[s(5), s(0), s(2), s(0)]), 2);
    assert_eq!(polynomial_degree(&[s(0), s(0), s(0), s(1)]), 3);
}

#[test]
fn the_linear_structure() {
    assert_eq!(<Scalar as VectorSpace<Scalar>>::zero_value(), s(0));
    assert_eq!(<G1Point as VectorSpace<Scalar>>::zero_value(), G1Point::zero());
    assert_eq!(VectorSpace::<Scalar>::sum_with(&s(2), &s(3)), s(5));
    assert_eq!(s(2).scaled_by(&s(3)), s(6));
    assert_eq!(VectorSpace::<Scalar>::sum_with(&g(2), &g(3)), g(5));
    assert_eq!(g(2).scaled_by(&s(3)), g(6));
}
