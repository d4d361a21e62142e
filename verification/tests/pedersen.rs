use dmkg::bls::Bls12381;
use dmkg::curve::{Point, Scalar};
use dmkg::dkg::errors::VssError;
use dmkg::dkg::mss::MSSPolynomial;
use dmkg::dkg::pedersen::{PedersenDistribution, PedersenGenerators};
use dmkg::jubjub::Jubjub;
use rand_chacha::rand_core::SeedableRng;
use rand_chacha::ChaCha20Rng;

type Fr = Scalar<Bls12381>;
type Pedersen = PedersenDistribution<Bls12381>;
type Gens = PedersenGenerators<Bls12381>;
type MSS = MSSPolynomial<Bls12381>;

#[test]
fn pedersen_test_generators_distinct() {
    let gens = Gens::setup().unwrap();
    // NUMS generators must be distinct (and non-trivially related).
    assert_ne!(gens.g1, gens.g2);
    assert_ne!(gens.g1, gens.h1);
    assert_ne!(gens.g1, gens.h2);
    assert_ne!(gens.g2, gens.h1);
    assert_ne!(gens.g2, gens.h2);
    assert_ne!(gens.h1, gens.h2);
    // Deterministic derivation.
    let gens2 = Gens::setup().unwrap();
    assert_eq!(gens.g1, gens2.g1);
}

#[test]
fn test_honest_shares_verify() {
    let rng = &mut ChaCha20Rng::from_entropy();
    let gens = Gens::setup().unwrap();
    let (dist, _secrets) = Pedersen::deal(&gens, 3, 8, rng).unwrap();
    dist.verify_all(&gens).unwrap();
}

#[test]
fn test_recovered_secrets_match() {
    // The Pedersen layer should reconstruct (x1,x2,y1,y2) from t+1 shares.
    let rng = &mut ChaCha20Rng::from_entropy();
    let gens = Gens::setup().unwrap();
    let degree = 4;
    let n = 9;
    let (dist, secrets) = Pedersen::deal(&gens, degree, n, rng).unwrap();

    let f_points = dist
        .shares
        .iter()
        .enumerate()
        .take(degree + 1)
        .map(|(i, s)| (MSS::point((i + 1) as i64), s.sf))
        .collect::<Vec<_>>();
    let g_points = dist
        .shares
        .iter()
        .enumerate()
        .take(degree + 1)
        .map(|(i, s)| (MSS::point((i + 1) as i64), s.sg))
        .collect::<Vec<_>>();

    assert_eq!(MSS::recover(MSS::point_minus1(), &f_points).unwrap(), secrets.x1);
    assert_eq!(MSS::recover(MSS::point_minus2(), &f_points).unwrap(), secrets.y1);
    assert_eq!(MSS::recover(MSS::point_minus1(), &g_points).unwrap(), secrets.x2);
    assert_eq!(MSS::recover(MSS::point_minus2(), &g_points).unwrap(), secrets.y2);
}

#[test]
fn pedersen_test_tampered_share_fails() {
    let rng = &mut ChaCha20Rng::from_entropy();
    let gens = Gens::setup().unwrap();
    let (mut dist, _secrets) = Pedersen::deal(&gens, 3, 8, rng).unwrap();

    // Corrupt one component of receiver 3's share (index 2).
    dist.shares[2].sf = dist.shares[2].sf.add(&Fr::random(rng));
    assert_eq!(dist.verify_all(&gens), Err(VssError::ShareCheck(3)));
    // The other receivers still verify individually.
    Pedersen::verify_share(&gens, &dist.commitments, 1, &dist.shares[0]).unwrap();
}

#[test]
fn test_tampered_commitment_fails() {
    let rng = &mut ChaCha20Rng::from_entropy();
    let gens = Gens::setup().unwrap();
    let (mut dist, _secrets) = Pedersen::deal(&gens, 3, 8, rng).unwrap();

    dist.commitments[1] = Point::random(rng);
    assert!(dist.verify_all(&gens).is_err());
}

#[test]
fn degree_zero_is_rejected() {
    let rng = &mut ChaCha20Rng::from_entropy();
    let gens = Gens::setup().unwrap();
    assert_eq!(Pedersen::deal(&gens, 0, 4, rng).err(), Some(VssError::InsufficientDegree(0)));
}

#[test]
fn sharing_works_on_jubjub() {
    let rng = &mut ChaCha20Rng::from_entropy();
    let gens = PedersenGenerators::<Jubjub>::setup().unwrap();
    let (mut dist, secrets) = PedersenDistribution::deal(&gens, 2, 5, rng).unwrap();
    dist.verify_all(&gens).unwrap();
    let points = (0..3)
        .map(|i| (MSSPolynomial::point(i as i64 + 1), dist.shares[i].sg))
        .collect::<Vec<_>>();
    assert_eq!(
        MSSPolynomial::recover(MSSPolynomial::point_minus2(), &points).unwrap(),
        secrets.y2
    );
    dist.shares[4].sg_prime = dist.shares[4].sg_prime.add(&Scalar::one());
    assert_eq!(dist.verify_all(&gens), Err(VssError::ShareCheck(5)));
}

#[test]
fn shifted_share_is_detected() {
    let rng = &mut ChaCha20Rng::from_entropy();
    let gens = Gens::setup().unwrap();
    let (dist, _secrets) = Pedersen::deal(&gens, 2, 4, rng).unwrap();
    let share = dist.shares[1];
    let off = share.shifted(&Fr::one());
    assert_eq!(off.sf, share.sf.add(&Fr::one()));
    assert_eq!(off.sg, share.sg);
    assert_eq!(off.sf_prime, share.sf_prime);
    assert_eq!(off.sg_prime, share.sg_prime);
    assert_eq!(
        Pedersen::verify_share(&gens, &dist.commitments, 2, &off),
        Err(VssError::ShareCheck(2))
    );
    let same = share.shifted(&Fr::zero());
    Pedersen::verify_share(&gens, &dist.commitments, 2, &same).unwrap();
}

#[test]
fn first_bad_share_is_named() {
    let rng = &mut ChaCha20Rng::from_entropy();
    let gens = Gens::setup().unwrap();
    let (mut dist, _secrets) = Pedersen::deal(&gens, 1, 5, rng).unwrap();
    for i in [4usize, 1] {
        dist.shares[i] = dist.shares[i].shifted(&Fr::one());
        assert_eq!(dist.verify_all(&gens), Err(VssError::ShareCheck(i + 1)));
    }
    dist.shares.clear();
    assert_eq!(dist.verify_all(&gens), Ok(()));
}
