use dmkg::bls::{evaluation_generator, point_from_bytes, scalar_from_limbs, Bls12381};
use dmkg::curve::{Curve, Point, Scalar};
use dmkg::hash::hash_to_group;
use dmkg::dkg::errors::VssError;
use dmkg::jubjub::Jubjub;
use dmkg::pairing::G2Point;
use ark_bls12_381::{Fr, G1Affine, G2Affine};
use ark_ec::{AffineCurve, ProjectiveCurve};
use ark_ff::{Field, One, PrimeField};
use ark_poly::{EvaluationDomain, Radix2EvaluationDomain};
use ark_serialize::CanonicalSerialize;
use rand_chacha::rand_core::SeedableRng;
use rand_chacha::ChaCha20Rng;

fn field_laws<C: Curve + std::fmt::Debug>() {
    let rng = &mut ChaCha20Rng::from_seed([9u8; 32]);
    let two: Scalar<C> = Scalar::from_u64(2);
    let three = Scalar::from_u64(3);
    assert_eq!(two.add(&three), Scalar::from_u64(5));
    assert_eq!(three.sub(&two), Scalar::one());
    assert_eq!(two.sub(&three), Scalar::one().neg());
    assert_eq!(two.mul(&three), Scalar::from_u64(6));
    assert_eq!(two.pow(10), Scalar::from_u64(1024));
    assert_eq!(two.mul(&two.inverse().unwrap()), Scalar::one());
    assert!(Scalar::<C>::zero().inverse().is_none());
    let (a, b): (Scalar<C>, Scalar<C>) = (Scalar::random(rng), Scalar::random(rng));
    assert_ne!(a, b);
    let p: Point<C> = Point::random(rng);
    let q: Point<C> = Point::random(rng);
    assert_ne!(p, q);
    assert_eq!(p.mul(&a).add(&p.mul(&b)), p.mul(&a.add(&b)));
    assert_eq!(p.mul(&a).mul(&b), p.mul(&a.mul(&b)));
    assert_eq!(p.add(&q).sub(&q), p);
    assert_eq!(p.sub(&p), Point::zero());
    assert!(p.mul(&Scalar::zero()).is_zero());
    assert_eq!(Point::msm(&vec![p, q], &vec![a, b]), p.mul(&a).add(&q.mul(&b)));
    assert_eq!(p.to_bytes().len(), C::encoded_size());
    assert_eq!(a.to_bytes().len(), 32);
}

#[test]
fn bls_group_arithmetic() {
    field_laws::<Bls12381>();
    assert_eq!(Bls12381::encoded_size(), 48);
}

#[test]
fn jubjub_group_arithmetic() {
    field_laws::<Jubjub>();
    assert_eq!(Jubjub::encoded_size(), 32);
}

#[test]
fn encodings_are_canonical() {
    let g = G1Affine::prime_subgroup_generator();
    let mut bytes = vec![];
    g.serialize(&mut bytes).unwrap();
    let p = point_from_bytes(&bytes).unwrap();
    assert_eq!(p.to_bytes(), bytes);
    // Five times the generator.
    let mut five = vec![];
    g.mul(Fr::from(5u64)).into_affine().serialize(&mut five).unwrap();
    assert_eq!(p.mul(&Scalar::from_u64(5)).to_bytes(), five);
    assert!(point_from_bytes(&vec![7; 48]).is_none());
    assert!(point_from_bytes(&vec![]).is_none());
    let x = -Fr::one();
    let mut written = vec![];
    x.serialize(&mut written).unwrap();
    let s: Scalar<Bls12381> = Scalar::one().neg();
    assert_eq!(s.to_bytes(), written);
}

#[test]
fn scalars_from_limbs() {
    let x = Fr::from(77u64).inverse().unwrap();
    let s = scalar_from_limbs(x.into_repr().0).unwrap();
    assert_eq!(s.mul(&Scalar::from_u64(77)), Scalar::one());
    assert_eq!(s.to_limbs(), x.into_repr().0);
    assert!(scalar_from_limbs([u64::MAX; 4]).is_none());
}

#[test]
fn domain_generators() {
    for size in [1usize, 2, 3, 8, 10] {
        let domain = Radix2EvaluationDomain::<Fr>::new(size).unwrap();
        let g = evaluation_generator(size).unwrap();
        assert_eq!(g.to_limbs(), domain.group_gen.into_repr().0);
    }
    assert!(evaluation_generator(1 << 33).is_none());
}

#[test]
fn pairings_compare_products() {
    let g1 = point_from_bytes(&encode_g1(1)).unwrap();
    let h = G2Point::from_bytes(&encode_g2(1)).unwrap();
    let six_h = G2Point::zero().add(&h.mul(&Scalar::from_u64(6)));
    let two_h = G2Point::from_bytes(&encode_g2(2)).unwrap();
    let three_g: Point<Bls12381> = g1.mul(&Scalar::from_u64(3));
    // e(3 g, 2 h) = e(g, 6 h), but not e(g, 2 h).
    assert!(two_h.pairs_alike(&three_g, &six_h, &g1));
    assert!(!two_h.pairs_alike(&three_g, &two_h, &g1));
    let seven_h = six_h.add(&h);
    assert!(h.pairs_alike(&g1.mul(&Scalar::from_u64(7)), &seven_h, &g1));
    assert!(G2Point::from_bytes(&vec![1; 96]).is_none());
}

fn encode_g1(k: u64) -> Vec<u8> {
    let mut bytes = vec![];
    let p = G1Affine::prime_subgroup_generator().mul(Fr::from(k)).into_affine();
    p.serialize(&mut bytes).unwrap();
    bytes
}

fn encode_g2(k: u64) -> Vec<u8> {
    let mut bytes = vec![];
    let p = G2Affine::prime_subgroup_generator().mul(Fr::from(k)).into_affine();
    p.serialize(&mut bytes).unwrap();
    bytes
}

#[test]
fn hashing_to_the_group() {
    let a: Point<Bls12381> = hash_to_group(b"DMKGPEDR", b"pedersen-g1").unwrap();
    let b: Point<Bls12381> = hash_to_group(b"DMKGPEDR", b"pedersen-g2").unwrap();
    let c: Point<Bls12381> = hash_to_group(b"DMKGENCR", b"pedersen-g1").unwrap();
    assert_ne!(a, b);
    assert_ne!(a, c);
    assert_eq!(a, hash_to_group(b"DMKGPEDR", b"pedersen-g1").unwrap());
    let bad: Result<Point<Jubjub>, VssError> = hash_to_group(b"short", b"x");
    assert_eq!(bad.err(), Some(VssError::Malformed("hash-to-curve failed")));
}
