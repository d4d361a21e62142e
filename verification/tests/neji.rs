use dmkg::bls::Bls12381;
use dmkg::curve::{Point, Scalar};
use dmkg::dkg::encryption::{ElGamalBase, ElGamalKeypair};
use dmkg::dkg::errors::VssError;
use dmkg::dkg::neji::{
    draw_blind, encrypt_share, resolve_disputation, resolve_with_blind, run_complaint_phase,
    Complaint, DisqualificationReason, FeldmanDistribution, NejiGenerators, ShamirPolynomial,
    Verdict,
};
use rand_chacha::rand_core::SeedableRng;
use rand_chacha::ChaCha20Rng;
use std::collections::{BTreeMap, BTreeSet};

type Gens = NejiGenerators<Bls12381>;
type Feldman = FeldmanDistribution<Bls12381>;
type Shamir = ShamirPolynomial<Bls12381>;
type Fr = Scalar<Bls12381>;

#[test]
fn neji_test_generators_distinct() {
    let g = Gens::setup().unwrap();
    assert_ne!(g.g, g.h);
    assert_eq!(g.g, Gens::setup().unwrap().g);
}

#[test]
fn test_honest_shares_verify_in_exponent() {
    let rng = &mut ChaCha20Rng::from_entropy();
    let gens = Gens::setup().unwrap();
    let (dist, _s) = Feldman::deal(&gens, 3, 8, rng).unwrap();
    for (i, s) in dist.shares.iter().enumerate() {
        let m = gens.g.mul(s);
        assert!(Feldman::verify_in_exponent(&dist.commitments, i + 1, &m));
    }
}

#[test]
fn neji_test_tampered_share_fails() {
    let rng = &mut ChaCha20Rng::from_entropy();
    let gens = Gens::setup().unwrap();
    let (dist, _s) = Feldman::deal(&gens, 3, 8, rng).unwrap();
    let bad = gens.g.mul(&dist.shares[2].add(&Fr::random(rng)));
    assert!(!Feldman::verify_in_exponent(&dist.commitments, 3, &bad));
}

#[test]
fn test_secret_reconstructs_at_zero() {
    // g^{f(0)} from t+1 shares-in-exponent equals the secret commitment g^s.
    let rng = &mut ChaCha20Rng::from_entropy();
    let gens = Gens::setup().unwrap();
    let degree = 4;
    let n = 9;
    let (dist, secrets) = Feldman::deal(&gens, degree, n, rng).unwrap();

    let indices: Vec<Fr> = (0..=degree).map(|i| Fr::from_u64((i + 1) as u64)).collect();
    let lambdas = Shamir::lambda_at_zero(&indices).unwrap();
    let mut acc = Point::zero();
    for (i, lambda) in lambdas.iter().enumerate() {
        let m = gens.g.mul(&dist.shares[i]);
        acc = acc.add(&m.mul(lambda));
    }
    assert_eq!(acc, gens.g.mul(&secrets.secret));
    // And that equals the published F_0 = g^{a_0}.
    assert_eq!(acc, dist.commitments[0]);
}

#[test]
fn test_disputation_catches_cheating_dealer() {
    let rng = &mut ChaCha20Rng::from_entropy();
    let gens = Gens::setup().unwrap();
    let (dist, _s) = Feldman::deal(&gens, 3, 8, rng).unwrap();
    // The dealer opens an inconsistent share for receiver 3.
    let bad_opening = dist.shares[2].add(&Fr::random(rng));
    assert_eq!(
        resolve_disputation(&gens, &dist.commitments, 3, bad_opening, 5, rng),
        Verdict::DealerDishonest
    );
    // An honest opening clears the dealer (the complainer lied).
    assert_eq!(
        resolve_disputation(&gens, &dist.commitments, 3, dist.shares[2], 5, rng),
        Verdict::ComplainerDishonest
    );
}

#[test]
fn test_complaint_phase_disqualifies_cheater() {
    let rng = &mut ChaCha20Rng::from_entropy();
    let gens = Gens::setup().unwrap();
    let degree = 2;
    let n = 5;
    let all: BTreeSet<usize> = (0..n).collect();
    let mut commitments = BTreeMap::new();
    let mut openings = BTreeMap::new();
    for d in 0..n {
        let (dist, _s) = Feldman::deal(&gens, degree, n, rng).unwrap();
        commitments.insert(d, dist.commitments.clone());
        // Dealer 1 opens a corrupted share to receiver 1.
        let mut shares = dist.shares.clone();
        if d == 1 {
            shares[0] = shares[0].add(&Fr::random(rng));
        }
        openings.insert(d, shares);
    }
    let complaints = vec![Complaint { dealer: 1, complainer: 1 }];
    let outcome = run_complaint_phase(
        &gens,
        degree,
        &all,
        &commitments,
        &openings,
        &complaints,
        3,
        rng,
    )
    .unwrap();
    assert!(!outcome.qual.contains(&1));
    assert_eq!(
        outcome.disqualified.get(&1),
        Some(&DisqualificationReason::LostDisputation)
    );
    for h in [0usize, 2, 3, 4] {
        assert!(outcome.qual.contains(&h));
    }
}

#[test]
fn shamir_constant_term_is_the_secret() {
    let rng = &mut ChaCha20Rng::from_entropy();
    let f = Shamir::sample(3, Fr::from_u64(42), rng).unwrap();
    assert_eq!(f.coeffs.len(), 4);
    assert_eq!(f.evaluate(Fr::zero()), Fr::from_u64(42));
    assert_eq!(f.shares(2)[1], f.evaluate(Fr::from_u64(2)));
    assert_eq!(
        Shamir::sample(0, Fr::one(), rng).err(),
        Some(VssError::InsufficientDegree(0))
    );
    assert_eq!(
        Shamir::lambda_at_zero(&[Fr::one(), Fr::one()]).err(),
        Some(VssError::BadIndices)
    );
}

#[test]
fn blind_is_never_zero_and_cancels() {
    let rng = &mut ChaCha20Rng::from_entropy();
    let gens = Gens::setup().unwrap();
    let (dist, _s) = Feldman::deal(&gens, 2, 4, rng).unwrap();
    for neutral in 0..4 {
        let r: Fr = draw_blind(neutral, rng);
        assert!(!r.is_zero());
        assert_eq!(
            resolve_with_blind(&gens, &dist.commitments, 2, dist.shares[1], r),
            Verdict::ComplainerDishonest
        );
        assert_eq!(
            resolve_with_blind(&gens, &dist.commitments, 2, dist.shares[2], r),
            Verdict::DealerDishonest
        );
    }
}

#[test]
fn encrypted_feldman_share_decrypts_to_group_element() {
    let rng = &mut ChaCha20Rng::from_entropy();
    let gens = Gens::setup().unwrap();
    let base: ElGamalBase<Bls12381> = ElGamalBase::setup().unwrap();
    let kp = ElGamalKeypair::generate(&base, rng);
    let ct = encrypt_share(&gens, &base, &kp.pk, Fr::from_u64(9), rng);
    assert_eq!(ct.decrypt(&kp.sk), gens.g.mul(&Fr::from_u64(9)));
}

#[test]
fn feldman_complaints_too_many_or_missing() {
    let rng = &mut ChaCha20Rng::from_entropy();
    let gens = Gens::setup().unwrap();
    let (dist, _s) = Feldman::deal(&gens, 2, 5, rng).unwrap();
    let all: BTreeSet<usize> = (0..2).collect();
    let mut commitments = BTreeMap::new();
    let mut openings = BTreeMap::new();
    commitments.insert(0usize, dist.commitments.clone());
    openings.insert(0usize, dist.shares.clone());
    let two = vec![
        Complaint { dealer: 0, complainer: 1 },
        Complaint { dealer: 0, complainer: 2 },
    ];
    let outcome =
        run_complaint_phase(&gens, 2, &all, &commitments, &openings, &two, 3, rng).unwrap();
    assert_eq!(
        outcome.disqualified.get(&0),
        Some(&DisqualificationReason::TooManyComplaints)
    );
    let one = vec![Complaint { dealer: 1, complainer: 1 }];
    let err = run_complaint_phase(&gens, 2, &all, &commitments, &openings, &one, 3, rng).err();
    assert_eq!(err, Some(VssError::Malformed("missing dealer commitments")));
}
