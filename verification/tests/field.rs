use vector_commit::curve::{G1Point, G2Point};
use vector_commit::field::{batch_inversion, Scalar};

// the field order minus one, as little-endian bytes
fn minus_one() -> Scalar {
    Scalar::zero().minus(&Scalar::one())
}

#[test]
fn small_values() {
    assert_eq!(Scalar::zero().limbs(), (0, 0, 0, 0));
    assert_eq!(Scalar::one().limbs(), (1, 0, 0, 0));
    assert_eq!(Scalar::from_u64(u64::MAX).limbs(), (u64::MAX, 0, 0, 0));
    assert!(Scalar::zero().is_zero());
    assert!(!Scalar::one().is_zero());
    assert_eq!(Scalar::from_u64(77).to_u64(), Some(77));
}

#[test]
fn the_field_order() {
    // 21888242871839275222246405745257275088548364400416034343698204186575808495617 - 1
    assert_eq!(
        minus_one().limbs(),
        (0x43e1f593f0000000, 0x2833e84879b97091, 0xb85045b68181585d, 0x30644e72e131a029)
    );
    assert_eq!(minus_one().plus(&Scalar::one()), Scalar::zero());
    assert_eq!(minus_one().to_u64(), None);
    assert!(!minus_one().is_less_than(u64::MAX));
}

#[test]
fn addition_subtraction_multiplication() {
    let a = Scalar::from_u64(1 << 63);
    assert_eq!(a.plus(&a).limbs(), (0, 1, 0, 0));
    assert_eq!(a.times(&a).limbs(), (0, 1 << 62, 0, 0));
    assert_eq!(Scalar::from_u64(5).minus(&Scalar::from_u64(7)), minus_one().minus(&Scalar::one()));
    assert_eq!(Scalar::from_u64(5).negated().plus(&Scalar::from_u64(5)), Scalar::zero());
    assert_eq!(Scalar::zero().negated(), Scalar::zero());
    assert_eq!(minus_one().times(&minus_one()), Scalar::one());
    assert_eq!(Scalar::from_u64(6).times(&Scalar::from_u64(7)), Scalar::from_u64(42));
    assert_eq!(Scalar::from_u64(6).plus(&Scalar::from_u64(7)), Scalar::from_u64(13));
    assert_eq!(Scalar::from_u64(7).minus(&Scalar::from_u64(6)), Scalar::from_u64(1));
}

#[test]
fn powers() {
    assert_eq!(Scalar::from_u64(3).pow(0), Scalar::one());
    assert_eq!(Scalar::zero().pow(0), Scalar::one());
    assert_eq!(Scalar::from_u64(3).pow(1), Scalar::from_u64(3));
    assert_eq!(Scalar::from_u64(3).pow(4), Scalar::from_u64(81));
    assert_eq!(Scalar::from_u64(2).pow(64).limbs(), (0, 1, 0, 0));
    assert_eq!(minus_one().pow(2), Scalar::one());
    assert_eq!(minus_one().pow(3), minus_one());
}

#[test]
fn inverses_and_division() {
    assert_eq!(Scalar::zero().inverse(), None);
    assert_eq!(Scalar::one().inverse(), Some(Scalar::one()));
    assert_eq!(minus_one().inverse(), Some(minus_one()));
    let two = Scalar::from_u64(2);
    let half = two.inverse().unwrap();
    assert_eq!(half.times(&two), Scalar::one());
    assert_ne!(half, two);
    // (r + 1) / 2
    assert_eq!(
        half.limbs(),
        (0xa1f0fac9f8000001, 0x9419f4243cdcb848, 0xdc2822db40c0ac2e, 0x183227397098d014)
    );
    assert_eq!(Scalar::from_u64(42).divided_by(&Scalar::from_u64(7)), Scalar::from_u64(6));
    assert_eq!(Scalar::from_u64(1).divided_by(&two), half);
}

#[test]
fn batch_inversion_keeps_zeros() {
    let mut v = vec![Scalar::from_u64(2), Scalar::zero(), Scalar::from_u64(3), Scalar::one()];
    batch_inversion(&mut v);
    assert_eq!(v[0], Scalar::from_u64(2).inverse().unwrap());
    assert_eq!(v[1], Scalar::zero());
    assert_eq!(v[2], Scalar::from_u64(3).inverse().unwrap());
    assert_eq!(v[3], Scalar::one());
    let mut empty: Vec<Scalar> = vec![];
    batch_inversion(&mut empty);
    assert!(empty.is_empty());
    let mut zeros = vec![Scalar::zero(); 3];
    batch_inversion(&mut zeros);
    assert_eq!(zeros, vec![Scalar::zero(); 3]);
}

#[test]
fn bytes_are_read_little_endian_and_reduced() {
    assert_eq!(Scalar::from_le_bytes_mod_order(&[]), Scalar::zero());
    assert_eq!(Scalar::from_le_bytes_mod_order(&[7]), Scalar::from_u64(7));
    assert_eq!(Scalar::from_le_bytes_mod_order(&[0, 1]), Scalar::from_u64(256));
    let mut r = [0u8; 32];
    let (l0, l1, l2, l3) = minus_one().limbs();
    r[0..8].copy_from_slice(&l0.to_le_bytes());
    r[8..16].copy_from_slice(&l1.to_le_bytes());
    r[16..24].copy_from_slice(&l2.to_le_bytes());
    r[24..32].copy_from_slice(&l3.to_le_bytes());
    assert_eq!(Scalar::from_le_bytes_mod_order(&r), minus_one());
    r[0] += 1;
    assert_eq!(Scalar::from_le_bytes_mod_order(&r), Scalar::zero());
    r[0] += 5;
    assert_eq!(Scalar::from_le_bytes_mod_order(&r), Scalar::from_u64(5));
    // 2^256 mod r, from 33 bytes
    let mut big = [0u8; 33];
    big[32] = 1;
    assert_eq!(Scalar::from_le_bytes_mod_order(&big), Scalar::from_u64(2).pow(256));
}

#[test]
fn comparisons() {
    assert!(Scalar::from_u64(3).is_less_than(4));
    assert!(!Scalar::from_u64(4).is_less_than(4));
    assert!(!Scalar::from_u64(0).is_less_than(0));
    assert!(Scalar::from_u64(3).equals(&Scalar::from_u64(3)));
    assert!(!Scalar::from_u64(3).equals(&Scalar::from_u64(4)));
    assert!(!Scalar::from_u64(2).pow(64).is_less_than(u64::MAX));
}

#[test]
fn random_scalars_are_reduced_and_differ() {
    let a = Scalar::random();
    let b = Scalar::random();
    assert_ne!(a, b);
    assert_eq!(a.plus(&Scalar::zero()), a);
    assert_eq!(a.times(&a.inverse().unwrap()), Scalar::one());
}

#[test]
fn the_first_group() {
    let g = G1Point::generator();
    let mut one = vec![0u8; 32];
    one[0] = 1;
    assert_eq!(g.to_bytes(), one);
    let mut identity = vec![0u8; 32];
    identity[31] = 0x40;
    assert_eq!(G1Point::zero().to_bytes(), identity);
    assert!(G1Point::zero().is_zero());
    assert!(!g.is_zero());
    assert_eq!(G1Point::generator_times(&Scalar::zero()), G1Point::zero());
    assert_eq!(G1Point::generator_times(&Scalar::one()), g);

    let two = G1Point::generator_times(&Scalar::from_u64(2));
    let five = G1Point::generator_times(&Scalar::from_u64(5));
    assert_eq!(g.plus(&g), two);
    assert_ne!(two, g);
    assert_eq!(two.plus(&G1Point::zero()), two);
    assert_eq!(five.minus(&two), G1Point::generator_times(&Scalar::from_u64(3)));
    assert_eq!(two.minus(&two), G1Point::zero());
    assert_eq!(two.times(&Scalar::from_u64(5)), five.times(&Scalar::from_u64(2)));
    assert_eq!(two.times(&Scalar::zero()), G1Point::zero());
    assert!(two.equals(&g.plus(&g)));
    assert!(!two.equals(&five));
    // the group has the order of the field
    let minus_g = G1Point::generator_times(&minus_one());
    assert_eq!(minus_g.plus(&g), G1Point::zero());
}

#[test]
fn points_from_bytes() {
    let p = G1Point::generator_times(&Scalar::from_u64(11));
    assert_eq!(G1Point::from_bytes(&p.to_bytes()), Some(p));
    assert_eq!(G1Point::from_bytes(&G1Point::zero().to_bytes()), Some(G1Point::zero()));
    assert_eq!(G1Point::from_bytes(&[0xff; 32]), None);
    assert_eq!(G1Point::from_bytes(&[1, 2, 3]), None);
    // the infinity flag makes the rest of the coordinate irrelevant
    let mut odd = G1Point::zero().to_bytes();
    odd.push(9);
    assert_eq!(G1Point::from_bytes(&odd), Some(G1Point::zero()));

    let q = G2Point::generator_times(&Scalar::from_u64(11));
    assert_eq!(q.to_bytes().len(), 64);
    assert_eq!(G2Point::from_bytes(&q.to_bytes()), Some(q));
    assert_eq!(G2Point::from_bytes(&[0xff; 64]), None);
}

#[test]
fn the_second_group() {
    let h = G2Point::generator();
    let three = G2Point::generator_times(&Scalar::from_u64(3));
    let two = G2Point::generator_times(&Scalar::from_u64(2));
    assert_eq!(three.minus(&two), h);
    assert_ne!(three.minus(&h), h);
    assert!(three.minus(&h).equals(&two));
    assert!(!three.equals(&two));
}
