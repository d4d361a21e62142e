use dmkg::bench::aggregatable::{
    build_2025_contributions, build_2025_with, pedersen_payload, run_2025, tampered_commitment,
};
use dmkg::bench::btsof::{deal_btsof_z, run_btsof, run_btsof_with};
use dmkg::bench::env::Env;
use dmkg::bench::gurkan::{combined_commitment, conclude_gurkan, gurkan_reconstruct_ok};
use dmkg::bench::kalai::{run_kalai, run_kalai_with};
use dmkg::bench::neji::{deal_neji, run_neji, run_neji_with};
use dmkg::bench::protocol::{parse_args, parse_malicious, Layer, Protocol};
use dmkg::bench::report::{csv_row, ComputeText, NetText, Outcome, CSV_HEADER};
use dmkg::bls::{evaluation_generator, point_from_bytes, Bls12381};
use dmkg::collections::first_out_of_range;
use dmkg::curve::{Point, Scalar};
use dmkg::dkg::dmkg::ZDealing;
use dmkg::dkg::errors::VssError;
use dmkg::dkg::params::{
    bound_exceeded, neutral_count, next_power_of_two, receivers_asked, rejected_dealers,
};
use dmkg::jubjub::Jubjub;
use dmkg::pairing::G2Point;
use ark_bls12_381::{G1Affine, G2Affine};
use ark_ec::AffineCurve;
use ark_serialize::CanonicalSerialize;
use rand_chacha::rand_core::SeedableRng;
use rand_chacha::ChaCha20Rng;
use std::collections::{BTreeMap, BTreeSet};

fn env(n: usize, degree: usize, malice: &[(usize, Layer)], rng: &mut ChaCha20Rng) -> Env<Jubjub> {
    Env::build(n, degree, 1, malice.iter().copied().collect(), rng).unwrap()
}

#[test]
fn environment() {
    let rng = &mut ChaCha20Rng::from_seed([1u8; 32]);
    let e = env(5, 2, &[], rng);
    assert_eq!(e.domain_size, 8);
    assert_eq!(e.g1.receiver_pks.len(), 5);
    assert_eq!(e.jj.elgamal.len(), 5);
    assert_eq!(e.jj.elgamal[3].pk, e.jj.receiver_pks[3]);
    assert_ne!(e.jj.receiver_pks[3], e.jj.receiver_pks[4]);
    for (n, m) in [(0usize, 1usize), (1, 1), (2, 2), (3, 4), (8, 8), (9, 16)] {
        assert_eq!(next_power_of_two(n), m);
    }
    for (n, k) in [(0, 1), (2, 1), (3, 1), (4, 2), (10, 8)] {
        assert_eq!(neutral_count(n), k);
    }
    assert_eq!(receivers_asked(2, 5), 3);
    assert_eq!(receivers_asked(5, 5), 5);
    assert_eq!(receivers_asked(usize::MAX, 5), 5);
    let expected: BTreeSet<usize> = [1, 3].into_iter().collect();
    assert_eq!(rejected_dealers(&vec![true, false, true, false]), expected);
    assert!(!bound_exceeded(2, 4));
    assert!(bound_exceeded(3, 4));
}

#[test]
fn kalai_runs() {
    let rng = &mut ChaCha20Rng::from_entropy();
    let run = run_kalai(&env(4, 2, &[], rng), rng).unwrap();
    assert_eq!(run.outcome.complaints, 0);
    assert_eq!(run.outcome.qual, 4);
    assert!(run.outcome.faulty.is_empty());
    assert_eq!(run.outcome.reconstructed_ok, Some(true));
    // Two times three commitments, four times sixteen points, and the key.
    assert_eq!(run.payload, (6 + 64 + 3) * 32);
    let e = env(5, 2, &[(1, Layer::Z), (3, Layer::Xy)], rng);
    let run = run_kalai(&e, rng).unwrap();
    assert_eq!(run.complaints_z.len(), 1);
    assert_eq!(run.complaints_xy.len(), 1);
    assert_eq!(run.complaints_z[0].dealer, 1);
    assert_eq!(run.complaints_xy[0].complainer, 1);
    assert_eq!(run.outcome.complaints, 2);
    let expected: BTreeSet<usize> = [0, 2, 4].iter().copied().collect();
    assert_eq!(run.qual, expected);
    assert_eq!(run.outcome.reconstructed_ok, Some(true));
    assert_eq!(run.contributions.receive_first(&e.jj, 2), 3);
    // Over a set with a cheating dealer the key does not reconstruct.
    let everybody: BTreeSet<usize> = (0..5).collect();
    assert_eq!(run.contributions.reconstruct_ok(&e.jj, 2, &everybody), Some(false));
    assert_eq!(run.contributions.reconstruct_ok(&e.jj, 2, &BTreeSet::new()), None);
}

#[test]
fn btsof_runs() {
    let rng = &mut ChaCha20Rng::from_entropy();
    let run = run_btsof(&env(4, 2, &[(0, Layer::Z)], rng), rng).unwrap();
    assert_eq!(run.outcome.complaints, 1);
    assert_eq!(run.outcome.qual, 3);
    assert_eq!(run.outcome.reconstructed_ok, Some(true));
    // The carrier of z has four points a receiver instead of eight.
    assert_eq!(run.payload, (6 + 32 + 16 + 3) * 32);
}

#[test]
fn neji_runs() {
    let rng = &mut ChaCha20Rng::from_entropy();
    let run = run_neji(&env(4, 2, &[(2, Layer::Xy)], rng), rng).unwrap();
    assert_eq!(run.outcome.complaints, 1);
    assert_eq!(run.outcome.qual, 3);
    assert!(!run.qual.contains(&2));
    assert_eq!(run.outcome.reconstructed_ok, Some(true));
    assert_eq!(run.payload, (3 + 8 + 2) * 32);
}

#[test]
fn degree_zero_is_refused_by_every_run() {
    let rng = &mut ChaCha20Rng::from_entropy();
    let e = env(2, 0, &[], rng);
    let expected = Some(VssError::InsufficientDegree(0));
    assert_eq!(run_kalai(&e, rng).err(), expected);
    assert_eq!(run_btsof(&e, rng).err(), expected);
    assert_eq!(run_neji(&e, rng).err(), expected);
}

#[test]
fn aggregatable_runs() {
    let rng = &mut ChaCha20Rng::from_entropy();
    let e = env(5, 2, &[(1, Layer::Z), (3, Layer::Xy)], rng);
    let z: Vec<ZDealing<Bls12381, usize>> = (0..5)
        .map(|i| ZDealing { z_i: Scalar::random(rng), dkg_share: i * 10 })
        .collect();
    let mut sum: Scalar<Bls12381> = Scalar::zero();
    for i in [0, 2, 4] {
        sum = sum.add(&z[i].z_i);
    }
    let published = build_2025_contributions(&e, z, rng).unwrap();
    assert_eq!(published.contributions[&4].dkg_share, 40);
    assert_eq!(pedersen_payload(&published.contributions[&0]), (3 + 40 + 3) * 48);
    let qagg: BTreeSet<usize> = [1].iter().copied().collect();
    let run = run_2025(&e, &published, &qagg, rng).unwrap();
    assert_eq!(run.outcome.complaints, 1);
    assert_eq!(run.complaints[0].dealer, 3);
    assert_eq!(run.complaints[0].complainer, 5);
    assert_eq!(run.outcome.faulty, qagg);
    assert_eq!(run.outcome.qual, 3);
    assert_eq!(run.outcome.reconstructed_ok, Some(true));
    assert_eq!(run.pk.c3, e.g1.generators.g1.mul(&sum));
    assert_eq!(run.payload, (3 + 40 + 3) * 48);
    let drawn = Point::random(rng);
    assert_eq!(tampered_commitment(Some(Layer::Z), drawn), Some(drawn));
    assert_eq!(tampered_commitment(Some(Layer::Xy), drawn), None);
    assert_eq!(tampered_commitment(None, drawn), None);
}

#[test]
fn offsets_decide_what_is_detected() {
    let rng = &mut ChaCha20Rng::from_entropy();
    let malice = [(1, Layer::Z), (2, Layer::Xy), (3, Layer::Xy)];
    let e = env(5, 2, &malice, rng);
    // Dealer 3 shifts by nothing, which nobody notices.
    let offsets: BTreeMap<usize, Scalar<Jubjub>> =
        [(1, Scalar::one()), (2, Scalar::from_u64(7)), (3, Scalar::zero())].into_iter().collect();
    let expected: BTreeSet<usize> = [0, 3, 4].into_iter().collect();
    let run = run_kalai_with(&e, &offsets, rng).unwrap();
    let first: Vec<(usize, usize)> =
        run.complaints_xy.iter().map(|c| (c.dealer, c.complainer)).collect();
    assert_eq!(first, vec![(2, 1)]);
    assert_eq!(run.complaints_z.len(), 1);
    assert_eq!(run.qual, expected);
    // The first receiver's share is the polynomial's value and the offset.
    let xy = &run.contributions.xy[2];
    assert_eq!(
        xy.distribution.shares[0].sf,
        xy.secrets.f.evaluate_at(1).add(&Scalar::from_u64(7))
    );
    assert_eq!(xy.distribution.shares[1].sf, xy.secrets.f.evaluate_at(2));
    let run = run_btsof_with(&e, &offsets, rng).unwrap();
    assert_eq!(run.outcome.complaints, 2);
    assert_eq!(run.qual, expected);
    let run = run_neji_with(&e, &offsets, rng).unwrap();
    assert_eq!(run.outcome.complaints, 2);
    assert_eq!(run.qual, expected);
    let offsets: BTreeMap<usize, Scalar<Bls12381>> =
        [(2, Scalar::one()), (3, Scalar::one())].into_iter().collect();
    let z = (0..5).map(|_| ZDealing { z_i: Scalar::random(rng), dkg_share: () }).collect();
    let published = build_2025_with(&e, z, &offsets, rng).unwrap();
    let run = run_2025(&e, &published, &[1].into_iter().collect(), rng).unwrap();
    let all: Vec<(usize, usize)> =
        run.complaints.iter().map(|c| (c.dealer, c.complainer)).collect();
    assert_eq!(all, vec![(2, 4), (3, 5)]);
    assert_eq!(run.outcome.qual, 2);
}

#[test]
fn single_dealings_are_off_by_the_shift() {
    let rng = &mut ChaCha20Rng::from_entropy();
    let e = env(3, 1, &[], rng);
    let five = Scalar::from_u64(5);
    let z = deal_btsof_z(&e.jj, 1, Some(five), rng).unwrap();
    assert_eq!(z.distribution.shares[0].sf, z.secrets.f.evaluate_at(1).add(&five));
    assert_eq!(z.distribution.shares[2].sf, z.secrets.f.evaluate_at(3));
    let c = deal_neji(&e.jj, &e.jj_neji, 1, Some(five), rng).unwrap();
    let value = |j: u64| c.secrets.poly.evaluate(Scalar::from_u64(j));
    assert_eq!(c.distribution.shares[0], value(1).add(&five));
    assert_eq!(c.distribution.shares[1], value(2));
}

fn generators() -> (Point<Bls12381>, G2Point) {
    let (mut a, mut b) = (vec![], vec![]);
    G1Affine::prime_subgroup_generator().serialize(&mut a).unwrap();
    G2Affine::prime_subgroup_generator().serialize(&mut b).unwrap();
    (point_from_bytes(&a).unwrap(), G2Point::from_bytes(&b).unwrap())
}

// The secrets h^F(w^j) of the polynomial 5 + 2 x.
fn line_secret(h: &G2Point, size: usize, j: u64) -> G2Point {
    let w = evaluation_generator(size).unwrap().pow(j);
    let value = Scalar::from_u64(5).add(&Scalar::from_u64(2).mul(&w));
    G2Point::zero().add(&h.mul(&value))
}

#[test]
fn gurkan_reconstructs_by_pairing() {
    let (g, h) = generators();
    let received: Vec<(usize, G2Point)> =
        (0..2).map(|j| (j, line_secret(&h, 4, j as u64))).collect();
    // Commitments 1 and 2 with weights 3 and 1 add up to five.
    let accepted = vec![(3u64, g), (1u64, g.mul(&Scalar::from_u64(2)))];
    assert_eq!(combined_commitment(&accepted), g.mul(&Scalar::from_u64(5)));
    let faulty: BTreeSet<usize> = [3].iter().copied().collect();
    let (outcome, c) =
        conclude_gurkan(1, 4, &g, &h, faulty.clone(), &accepted, &received).unwrap();
    assert_eq!(outcome.reconstructed_ok, Some(true));
    assert_eq!(outcome.qual, 2);
    assert_eq!(outcome.complaints, 0);
    assert_eq!(outcome.faulty, faulty);
    assert_eq!(c, g.mul(&Scalar::from_u64(5)));
    let one = vec![(1u64, g)];
    let (outcome, _) = conclude_gurkan(1, 4, &g, &h, faulty, &one, &received).unwrap();
    assert_eq!(outcome.reconstructed_ok, Some(false));
    let few = conclude_gurkan(2, 4, &g, &h, BTreeSet::new(), &accepted, &received).unwrap();
    assert_eq!(few.0.reconstructed_ok, None);
    assert!(conclude_gurkan(1, 1 << 40, &g, &h, BTreeSet::new(), &accepted, &received).is_none());
    let twice = vec![Scalar::one(), Scalar::one()];
    assert_eq!(gurkan_reconstruct_ok(1, &g, &h, &g, &twice, &vec![h, h]), None);
}

fn args(raw: &[&str]) -> Vec<String> {
    raw.iter().map(|s| s.to_string()).collect()
}

#[test]
fn command_lines() {
    let a = parse_args(&args(&["--protocol", "kalai2022", "--n", "7", "--malicious", "1:z"])).unwrap();
    assert_eq!(a.protocol, Protocol::Kalai2022);
    assert_eq!((a.n, a.threshold, a.latency_ms, a.seed, a.samples), (7, 3, 0, 0, 10));
    assert_eq!(a.malicious_spec, "1:z");
    assert!(a.out.is_none());
    let err = |raw: &[&str]| parse_args(&args(raw)).err().unwrap();
    assert_eq!(err(&[]), "missing required --protocol");
    assert_eq!(err(&["x"]), "unexpected argument 'x'");
    assert_eq!(err(&["--n"]), "missing value for --n");
    assert_eq!(
        err(&["--protocol", "abc"]),
        "unknown protocol 'abc' (expected gurkan|neji|btsof|kalai2022|aggregatable2025)"
    );
    assert_eq!(err(&["--protocol", "neji"]), "missing required --n");
    assert_eq!(err(&["--protocol", "neji", "--n", "q"]), "bad --n");
    assert_eq!(err(&["--protocol", "neji", "--n", "1"]), "--n must be >= 2");
    assert_eq!(
        err(&["--protocol", "neji", "--n", "4", "--threshold", "4"]),
        "--threshold (degree t) must satisfy 1 <= t < n (got t=4, n=4)"
    );
    assert_eq!(
        err(&["--protocol", "neji", "--n", "4", "--latency-ms", "-1"]),
        "bad --latency-ms"
    );
    let last = parse_args(&args(&[
        "--protocol", "neji", "--n", "4", "--n", "6", "--samples", "0", "--seed", "9", "--out", "f",
    ]))
    .unwrap();
    assert_eq!((last.n, last.samples, last.seed), (6, 1, 9));
    assert_eq!(last.out.as_deref(), Some("f"));
}

#[test]
fn protocols_by_label() {
    for label in ["gurkan", "neji", "btsof", "kalai2022", "aggregatable2025"] {
        assert_eq!(Protocol::parse(label).unwrap().label(), label);
    }
}

#[test]
fn malicious_specs() {
    let p = Protocol::Aggregatable2025;
    let m = parse_malicious(" 1:z, 4:xy ,", p).unwrap();
    assert_eq!(m.len(), 2);
    assert!(m[&1] == Layer::Z && m[&4] == Layer::Xy);
    assert!(parse_malicious("none", p).unwrap().is_empty());
    assert!(parse_malicious("  ", p).unwrap().is_empty());
    let err = |s: &str, p: Protocol| parse_malicious(s, p).err().unwrap();
    assert_eq!(err("1", p), "malicious entry '1' must be id:layer");
    assert_eq!(err("a:z", p), "bad id in 'a:z'");
    assert_eq!(err("1:q", p), "unknown layer 'q' (expected z|xy)");
    assert_eq!(
        err("1:xy", Protocol::Gurkan),
        "protocol gurkan has no xy layer; rejected malicious entry '1:xy'"
    );
    assert_eq!(first_out_of_range(&m, 4), Some(4));
    assert_eq!(first_out_of_range(&m, 5), None);
}

#[test]
fn rows_of_the_table() {
    let a = parse_args(&args(&["--protocol", "btsof", "--n", "4"])).unwrap();
    let c = ComputeText {
        deal: "1.0000".to_string(),
        verify: "2.0000".to_string(),
        complaint: "3.0000".to_string(),
        keygen: "4.0000".to_string(),
    };
    let net = NetText {
        pattern: "broadcast".to_string(),
        wall: "5.0000".to_string(),
        messages: 12,
        bytes: 1200,
        rounds: 1,
    };
    let faulty: BTreeSet<usize> = [2, 0].iter().copied().collect();
    let o = Outcome { faulty, complaints: 1, qual: 3, reconstructed_ok: Some(true) };
    assert_eq!(
        csv_row(&a, &c, &o, &net, false),
        "btsof,4,2,\"none\",0,0,10,1.0000,2.0000,3.0000,4.0000,broadcast,5.0000,12,1200,1,\"0 2\",1,3,true,false"
    );
    assert_eq!(CSV_HEADER.split(',').count(), 21);
    let none = Outcome {
        faulty: BTreeSet::new(),
        complaints: 0,
        qual: 0,
        reconstructed_ok: None,
    };
    assert!(csv_row(&a, &c, &none, &net, true).ends_with(",\"\",0,0,na,true"));
    let unused: BTreeMap<usize, Layer> = BTreeMap::new();
    assert_eq!(first_out_of_range(&unused, 0), None);
}

#[test]
fn runs_on_the_pairing_curve() {
    let rng = &mut ChaCha20Rng::from_entropy();
    let malice = [(1, Layer::Xy)].into_iter().collect();
    let e: Env<Bls12381> = Env::build(4, 2, 1, malice, rng).unwrap();
    let run = run_kalai(&e, rng).unwrap();
    assert_eq!(run.outcome.complaints, 1);
    assert_eq!(run.outcome.qual, 3);
    assert_eq!(run.outcome.reconstructed_ok, Some(true));
    assert_eq!(run.payload, (6 + 64 + 3) * 48);
}
