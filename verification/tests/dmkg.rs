use dmkg::bls::Bls12381;
use dmkg::curve::{Point, Scalar};
use dmkg::dkg::complaint::{run_complaint_phase, Complaint};
use dmkg::dkg::dmkg::{
    aggregate_public_key, deal, reconstruct_pk_components, DMKGContribution, DMKGDealer,
    ParticipantState, ZDealing,
};
use dmkg::dkg::encryption::{ElGamalBase, ElGamalKeypair};
use dmkg::dkg::errors::{DKGError, VssError};
use dmkg::dkg::pedersen::{PedersenDistribution, PedersenGenerators};
use rand_chacha::rand_core::SeedableRng;
use rand_chacha::ChaCha20Rng;
use std::collections::{BTreeMap, BTreeSet};

type Fr = Scalar<Bls12381>;
type G1 = Point<Bls12381>;

// Full end-to-end run: honest nodes agree on pk, a tampered dealer is excluded via Qagg, and pk is
// reconstructable from t+1 receivers' shares. The layer for `z` publishes `g1^z`.
fn run_end_to_end(n: usize, degree: usize, tampered: &[usize]) {
    let rng = &mut ChaCha20Rng::from_entropy();
    let generators = PedersenGenerators::<Bls12381>::setup().unwrap();
    let base = ElGamalBase::<Bls12381>::setup().unwrap();

    let elgamal: Vec<ElGamalKeypair<Bls12381>> =
        (0..n).map(|_| ElGamalKeypair::generate(&base, rng)).collect();
    let receiver_pks: Vec<G1> = elgamal.iter().map(|k| k.pk).collect();

    // ---- Distribution ----
    let mut contributions: BTreeMap<usize, DMKGContribution<Bls12381, G1>> = BTreeMap::new();
    let mut distributions: BTreeMap<usize, PedersenDistribution<Bls12381>> = BTreeMap::new();
    let mut z_secrets: Vec<Fr> = vec![];
    for i in 0..n {
        let mut dealer = DMKGDealer {
            dealer_id: i,
            degree,
            state: ParticipantState::Dealer,
            elgamal: elgamal[i],
        };
        let z_i = Fr::random(rng);
        let z = ZDealing { z_i, dkg_share: generators.g1.mul(&z_i) };
        let (mut contribution, _secrets, distribution) =
            deal(&mut dealer, z, &generators, &base, &receiver_pks, rng).unwrap();
        assert_eq!(dealer.state, ParticipantState::DealerShared);
        if tampered.contains(&i) {
            // Corrupt the z-layer commitment so the dealer is reported in Qagg.
            contribution.dkg_share = Point::random(rng);
        }
        z_secrets.push(z_i);
        contributions.insert(i, contribution);
        distributions.insert(i, distribution);
    }

    // ---- z verification builds Qagg ----
    let mut qagg: BTreeSet<usize> = BTreeSet::new();
    for i in 0..n {
        if contributions[&i].dkg_share != generators.g1.mul(&z_secrets[i]) {
            qagg.insert(i);
        }
    }
    for &t in tampered {
        assert!(qagg.contains(&t), "tampered dealer must be in Qagg");
    }

    // ---- Pedersen verification: receivers decrypt + check, file complaints ----
    let mut complaints: Vec<Complaint> = vec![];
    for (&dealer_id, contribution) in contributions.iter() {
        for (j, ct) in contribution.encrypted_shares.iter().enumerate() {
            let recovered = ct.decrypt(&elgamal[j].sk);
            if recovered.verify(&contribution.commitments, j + 1).is_err() {
                complaints.push(Complaint { dealer: dealer_id, complainer: j + 1 });
            }
        }
    }

    // ---- Complaint phase -> QUAL ----
    let all_dealers: BTreeSet<usize> = (0..n).collect();
    let mut pedersen_commitments = BTreeMap::new();
    let mut pedersen_openings = BTreeMap::new();
    for (&id, contribution) in contributions.iter() {
        pedersen_commitments.insert(id, contribution.commitments.clone());
        pedersen_openings.insert(id, distributions[&id].shares.clone());
    }
    for &t in tampered {
        // Ensure there is at least one accusation so the phase examines it.
        complaints.push(Complaint { dealer: t, complainer: 1 });
    }
    let neutral_count = n.saturating_sub(2).max(1);
    let outcome = run_complaint_phase(
        &generators,
        degree,
        &all_dealers,
        &qagg,
        &pedersen_commitments,
        &pedersen_openings,
        &complaints,
        neutral_count,
        rng,
    )
    .unwrap();

    for &t in tampered {
        assert!(!outcome.qual.contains(&t), "tampered dealer excluded from QUAL");
    }
    // Honest dealers all survive.
    for i in 0..n {
        if !tampered.contains(&i) {
            assert!(outcome.qual.contains(&i), "honest dealer {} in QUAL", i);
        }
    }

    // ---- Public key: every honest node computes the same pk from public data ----
    let pk = aggregate_public_key(&contributions, &outcome.qual);

    // ---- Reconstruction from t+1 receivers (in the exponent) ----
    let mut receiver_msgs: Vec<(usize, G1, G1)> = vec![];
    for j in 0..n {
        let mut mf = Point::zero();
        let mut mg = Point::zero();
        for id in outcome.qual.iter() {
            let recovered = contributions[id].encrypted_shares[j].decrypt(&elgamal[j].sk);
            mf = mf.add(&recovered.m_sf);
            mg = mg.add(&recovered.m_sg);
        }
        receiver_msgs.push((j + 1, mf, mg));
    }
    // Use exactly t+1 receivers.
    let subset = &receiver_msgs[..degree + 1];
    let (c1_rec, c2_rec) = reconstruct_pk_components(subset).unwrap();
    assert_eq!(c1_rec, pk.c1, "reconstructed c1 matches aggregated pk");
    assert_eq!(c2_rec, pk.c2, "reconstructed c2 matches aggregated pk");
    // Any other t+1 receivers do as well.
    let last = &receiver_msgs[n - degree - 1..];
    let (c1_last, c2_last) = reconstruct_pk_components(last).unwrap();
    assert_eq!(c1_last, pk.c1);
    assert_eq!(c2_last, pk.c2);

    // c3 = g1^{z}, the sum over QUAL; sanity: non-trivial.
    assert!(!pk.c3.is_zero());
    let mut z = Fr::zero();
    for id in outcome.qual.iter() {
        z = z.add(&z_secrets[*id]);
    }
    assert_eq!(pk.c3, generators.g1.mul(&z));
}

#[test]
fn test_dmkg_n4_honest() {
    run_end_to_end(4, 2, &[]);
}

#[test]
fn test_dmkg_n8_one_corrupt() {
    run_end_to_end(8, 3, &[2]);
}

#[test]
fn test_dmkg_n16_two_corrupt() {
    run_end_to_end(16, 7, &[3, 10]);
}

#[test]
fn repeated_receivers_are_rejected() {
    let p: G1 = Point::zero();
    let r = reconstruct_pk_components(&[(1, p, p), (1, p, p)]);
    assert!(matches!(r, Err(DKGError::MSSBadIndices)));
}

#[test]
fn dealing_with_degree_zero_fails() {
    let rng = &mut ChaCha20Rng::from_entropy();
    let generators = PedersenGenerators::<Bls12381>::setup().unwrap();
    let base = ElGamalBase::<Bls12381>::setup().unwrap();
    let mut dealer = DMKGDealer {
        dealer_id: 3,
        degree: 0,
        state: ParticipantState::Dealer,
        elgamal: ElGamalKeypair::generate(&base, rng),
    };
    let z = ZDealing { z_i: Fr::one(), dkg_share: () };
    let r = deal(&mut dealer, z, &generators, &base, &[], rng);
    assert!(matches!(r, Err(DKGError::MSSInsufficientDegree(0))));
}

#[test]
fn absent_contributions_add_nothing() {
    let contributions: BTreeMap<usize, DMKGContribution<Bls12381, ()>> = BTreeMap::new();
    let qual: BTreeSet<usize> = (0..3).collect();
    let pk = aggregate_public_key(&contributions, &qual);
    assert!(pk.c1.is_zero() && pk.c2.is_zero() && pk.c3.is_zero());
}

#[test]
fn errors_describe_themselves() {
    assert_eq!(VssError::ShareCheck(4).message(), "Share check failed for receiver 4");
    assert_eq!(VssError::Malformed("x").message(), "VSS distribution malformed: x");
    assert_eq!(
        VssError::BadIndices.message(),
        "Lagrange recovery received duplicate or insufficient evaluation indices"
    );
    assert_eq!(VssError::InsufficientDegree(0).message(), "Polynomial degree too small: 0");
    assert_eq!(
        DKGError::from(VssError::ShareCheck(4)).message(),
        "Pedersen share check (Eq. 1) failed for receiver 4"
    );
    assert_eq!(
        DKGError::from(VssError::Malformed("y")).message(),
        "Pedersen distribution malformed: y"
    );
    assert_eq!(
        DKGError::from(VssError::BadIndices).message(),
        "MSS recovery received duplicate or insufficient evaluation indices"
    );
    assert_eq!(
        DKGError::from(VssError::InsufficientDegree(1)).message(),
        "MSS polynomial degree too small (need >= 1 to pin two points): 1"
    );
    assert_eq!(
        DKGError::TranscriptDifferentConfig(1, 2, 3, 4).message(),
        "Transcripts have different degree or number of participants: self.degree=1, \
         other.degree=2, self.num_participants=3, self.num_participants=4"
    );
    assert_eq!(
        DKGError::SignatureError("bad".to_string()).message(),
        "Signature error: bad"
    );
    assert_eq!(
        DKGError::FeldmanShareCheckError(2).message(),
        "Feldman share check (g^s = prod C_k^{j^k}) failed for receiver 2"
    );
}

#[test]
fn keys_of_disjoint_sets_add_up() {
    let rng = &mut ChaCha20Rng::from_entropy();
    let mut contributions: BTreeMap<usize, DMKGContribution<Bls12381, ()>> = BTreeMap::new();
    for i in 0..4usize {
        contributions.insert(
            i,
            DMKGContribution {
                dealer_id: i,
                dkg_share: (),
                commitments: vec![],
                encrypted_shares: vec![],
                c1_i: Point::random(rng),
                c2_i: Point::random(rng),
                c3_i: Point::random(rng),
            },
        );
    }
    let key = |ids: &[usize]| aggregate_public_key(&contributions, &ids.iter().copied().collect());
    // Nobody published under 9.
    let (a, b, all) = (key(&[0, 3, 9]), key(&[1]), key(&[0, 1, 3, 9]));
    assert_eq!(all.c1, a.c1.add(&b.c1));
    assert_eq!(all.c2, a.c2.add(&b.c2));
    assert_eq!(all.c3, a.c3.add(&b.c3));
    assert!(key(&[]).c1.is_zero() && key(&[]).c2.is_zero() && key(&[]).c3.is_zero());
}
