use dmkg::bls::Bls12381;
use dmkg::curve::Scalar;
use dmkg::dkg::complaint::{
    resolve_disputation, resolve_with_blinds, run_complaint_phase, Complaint,
    DisqualificationReason, NeutralBlind, Verdict,
};
use dmkg::dkg::errors::VssError;
use dmkg::dkg::pedersen::{PedersenDistribution, PedersenGenerators};
use rand_chacha::rand_core::SeedableRng;
use rand_chacha::ChaCha20Rng;
use std::collections::{BTreeMap, BTreeSet};

type Gens = PedersenGenerators<Bls12381>;
type Pedersen = PedersenDistribution<Bls12381>;

const DEGREE: usize = 3;
const N: usize = 8;
const NEUTRALS: usize = 5;

// (i) A cheating dealer that opens an invalid share loses the disputation.
#[test]
fn test_cheating_dealer_caught() {
    let rng = &mut ChaCha20Rng::from_entropy();
    let gens = Gens::setup().unwrap();
    let (mut dist, _s) = Pedersen::deal(&gens, DEGREE, N, rng).unwrap();
    // Dealer's opening for receiver 3 does not match its commitments.
    dist.shares[2].sf = dist.shares[2].sf.add(&Scalar::random(rng));
    let verdict = resolve_disputation(&gens, &dist.commitments, 3, &dist.shares[2], NEUTRALS, rng);
    assert_eq!(verdict, Verdict::DealerDishonest);
}

// (ii) A lying complainer is caught: the honest dealer opens a valid share.
#[test]
fn test_lying_complainer_caught() {
    let rng = &mut ChaCha20Rng::from_entropy();
    let gens = Gens::setup().unwrap();
    let (dist, _s) = Pedersen::deal(&gens, DEGREE, N, rng).unwrap();
    let verdict = resolve_disputation(&gens, &dist.commitments, 3, &dist.shares[2], NEUTRALS, rng);
    assert_eq!(verdict, Verdict::ComplainerDishonest);
}

// (iii) A Qagg member is auto-disqualified without any disputation.
#[test]
fn test_qagg_auto_disqualified() {
    let rng = &mut ChaCha20Rng::from_entropy();
    let gens = Gens::setup().unwrap();
    let (dist, _s) = Pedersen::deal(&gens, DEGREE, N, rng).unwrap();

    let dealers: BTreeSet<usize> = (0..4).collect();
    let mut qagg = BTreeSet::new();
    qagg.insert(2usize);

    let mut commitments = BTreeMap::new();
    let mut openings = BTreeMap::new();
    for d in dealers.iter() {
        commitments.insert(*d, dist.commitments.clone());
        openings.insert(*d, dist.shares.clone());
    }
    let complaints = vec![Complaint { dealer: 2, complainer: 1 }];

    let outcome = run_complaint_phase(
        &gens,
        DEGREE,
        &dealers,
        &qagg,
        &commitments,
        &openings,
        &complaints,
        NEUTRALS,
        rng,
    )
    .unwrap();

    assert_eq!(outcome.disqualified.get(&2), Some(&DisqualificationReason::InQagg));
    assert!(!outcome.qual.contains(&2));
    for d in [0usize, 1, 3] {
        assert!(outcome.qual.contains(&d));
    }
}

// (iv) An honest dealer / honest pair: no complaint resolves against the dealer.
#[test]
fn test_honest_pair_cleared() {
    let rng = &mut ChaCha20Rng::from_entropy();
    let gens = Gens::setup().unwrap();
    let (dist, _s) = Pedersen::deal(&gens, DEGREE, N, rng).unwrap();

    let dealers: BTreeSet<usize> = (0..4).collect();
    let qagg = BTreeSet::new();
    let mut commitments = BTreeMap::new();
    let mut openings = BTreeMap::new();
    for d in dealers.iter() {
        commitments.insert(*d, dist.commitments.clone());
        openings.insert(*d, dist.shares.clone());
    }

    let complaints = vec![Complaint { dealer: 1, complainer: 3 }];
    let outcome = run_complaint_phase(
        &gens,
        DEGREE,
        &dealers,
        &qagg,
        &commitments,
        &openings,
        &complaints,
        NEUTRALS,
        rng,
    )
    .unwrap();
    assert!(outcome.qual.contains(&1));
    assert!(outcome.disqualified.is_empty());

    let outcome2 = run_complaint_phase(
        &gens,
        DEGREE,
        &dealers,
        &qagg,
        &commitments,
        &openings,
        &[],
        NEUTRALS,
        rng,
    )
    .unwrap();
    assert_eq!(outcome2.qual, dealers);
}

// More accusers than t-1 disqualify a dealer.
#[test]
fn test_too_many_complaints_disqualifies() {
    let rng = &mut ChaCha20Rng::from_entropy();
    let gens = Gens::setup().unwrap();
    let (dist, _s) = Pedersen::deal(&gens, DEGREE, N, rng).unwrap();

    let dealers: BTreeSet<usize> = (0..4).collect();
    let qagg = BTreeSet::new();
    let mut commitments = BTreeMap::new();
    let mut openings = BTreeMap::new();
    for d in dealers.iter() {
        commitments.insert(*d, dist.commitments.clone());
        openings.insert(*d, dist.shares.clone());
    }
    let complaints = vec![
        Complaint { dealer: 0, complainer: 1 },
        Complaint { dealer: 0, complainer: 2 },
        Complaint { dealer: 0, complainer: 3 },
    ];
    let outcome = run_complaint_phase(
        &gens,
        DEGREE,
        &dealers,
        &qagg,
        &commitments,
        &openings,
        &complaints,
        NEUTRALS,
        rng,
    )
    .unwrap();
    assert_eq!(
        outcome.disqualified.get(&0),
        Some(&DisqualificationReason::TooManyComplaints)
    );
}

#[test]
fn repeated_accusers_count_once() {
    let rng = &mut ChaCha20Rng::from_entropy();
    let gens = Gens::setup().unwrap();
    let (dist, _s) = Pedersen::deal(&gens, DEGREE, N, rng).unwrap();
    let dealers: BTreeSet<usize> = (0..2).collect();
    let mut commitments = BTreeMap::new();
    let mut openings = BTreeMap::new();
    for d in dealers.iter() {
        commitments.insert(*d, dist.commitments.clone());
        openings.insert(*d, dist.shares.clone());
    }
    let c = Complaint { dealer: 0, complainer: 1 };
    let complaints = vec![c, c, c, c];
    let outcome = run_complaint_phase(
        &gens,
        DEGREE,
        &dealers,
        &BTreeSet::new(),
        &commitments,
        &openings,
        &complaints,
        NEUTRALS,
        rng,
    )
    .unwrap();
    assert!(outcome.disqualified.is_empty());
}

fn missing(
    drop_commitments: bool,
    drop_openings: bool,
    complainer: usize,
) -> Result<BTreeSet<usize>, VssError> {
    let rng = &mut ChaCha20Rng::from_entropy();
    let gens = Gens::setup().unwrap();
    let (dist, _s) = Pedersen::deal(&gens, DEGREE, N, rng).unwrap();
    let dealers: BTreeSet<usize> = (0..2).collect();
    let mut commitments = BTreeMap::new();
    let mut openings = BTreeMap::new();
    if !drop_commitments {
        commitments.insert(1usize, dist.commitments.clone());
    }
    if !drop_openings {
        openings.insert(1usize, dist.shares.clone());
    }
    run_complaint_phase(
        &gens,
        DEGREE,
        &dealers,
        &BTreeSet::new(),
        &commitments,
        &openings,
        &[Complaint { dealer: 1, complainer }],
        NEUTRALS,
        rng,
    )
    .map(|outcome| outcome.qual)
}

#[test]
fn missing_data_fails_the_phase() {
    assert_eq!(missing(false, false, 8), Ok((0..2).collect()));
    assert_eq!(missing(true, false, 8), Err(VssError::Malformed("missing dealer commitments")));
    assert_eq!(missing(false, true, 8), Err(VssError::Malformed("missing dealer openings")));
    assert_eq!(
        missing(false, false, 9),
        Err(VssError::Malformed("missing opening for complainer"))
    );
}

#[test]
fn blinds_do_not_change_the_verdict() {
    let rng = &mut ChaCha20Rng::from_entropy();
    let gens = Gens::setup().unwrap();
    let (dist, _s) = Pedersen::deal(&gens, DEGREE, N, rng).unwrap();
    let mut bad = dist.shares[0];
    bad.sg_prime = bad.sg_prime.add(&Scalar::one());
    for count in 0..3u64 {
        let blinds: Vec<NeutralBlind<Bls12381>> = (0..count)
            .map(|k| {
                NeutralBlind::commit_to(
                    &gens,
                    Scalar::from_u64(k),
                    Scalar::from_u64(k + 1),
                    Scalar::from_u64(k + 2),
                    Scalar::from_u64(k + 3),
                )
            })
            .collect();
        assert_eq!(
            resolve_with_blinds(&gens, &dist.commitments, 1, &dist.shares[0], &blinds),
            Verdict::ComplainerDishonest
        );
        assert_eq!(
            resolve_with_blinds(&gens, &dist.commitments, 1, &bad, &blinds),
            Verdict::DealerDishonest
        );
    }
}
