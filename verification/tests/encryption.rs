use dmkg::bls::Bls12381;
use dmkg::curve::{Point, Scalar};
use dmkg::dkg::carrier::{Carrier, HalfShare};
use dmkg::dkg::encryption::{
    ElGamalBase, ElGamalCiphertext, ElGamalKeypair, EncryptedPedersenShare,
};
use dmkg::dkg::errors::VssError;
use dmkg::dkg::mss::MSSPolynomial;
use dmkg::dkg::pedersen::{PedersenDistribution, PedersenGenerators, PedersenShare};
use dmkg::jubjub::Jubjub;
use rand_chacha::rand_core::SeedableRng;
use rand_chacha::ChaCha20Rng;

type Base = ElGamalBase<Bls12381>;
type Keypair = ElGamalKeypair<Bls12381>;
type Gens = PedersenGenerators<Bls12381>;
type Pedersen = PedersenDistribution<Bls12381>;
type MSS = MSSPolynomial<Bls12381>;

#[test]
fn test_ciphertext_roundtrip() {
    let rng = &mut ChaCha20Rng::from_entropy();
    let base = Base::setup().unwrap();
    let kp = Keypair::generate(&base, rng);
    let m = Point::random(rng);
    let ct = ElGamalCiphertext::encrypt(&base, &kp.pk, &m, rng);
    assert_eq!(ct.decrypt(&kp.sk), m);
}

#[test]
fn test_wrong_key_fails() {
    let rng = &mut ChaCha20Rng::from_entropy();
    let base = Base::setup().unwrap();
    let kp = Keypair::generate(&base, rng);
    let other = Keypair::generate(&base, rng);
    let m = Point::random(rng);
    let ct = ElGamalCiphertext::encrypt(&base, &kp.pk, &m, rng);
    assert_ne!(ct.decrypt(&other.sk), m);
}

#[test]
fn test_encrypted_share_verifies_against_cm() {
    let rng = &mut ChaCha20Rng::from_entropy();
    let gens = Gens::setup().unwrap();
    let base = Base::setup().unwrap();
    let degree = 3;
    let n = 8;
    let (dist, _secrets) = Pedersen::deal(&gens, degree, n, rng).unwrap();

    // Each receiver has its own ElGamal keypair.
    let keys: Vec<Keypair> = (0..n).map(|_| Keypair::generate(&base, rng)).collect();

    for (i, share) in dist.shares.iter().enumerate() {
        let ct = EncryptedPedersenShare::encrypt(&gens, &base, &keys[i].pk, share, rng);
        let recovered = ct.decrypt(&keys[i].sk);
        // Honest share verifies in the exponent.
        recovered.verify(&dist.commitments, i + 1).unwrap();
    }
}

#[test]
fn test_tampered_ciphertext_fails_verification() {
    let rng = &mut ChaCha20Rng::from_entropy();
    let gens = Gens::setup().unwrap();
    let base = Base::setup().unwrap();
    let (dist, _secrets) = Pedersen::deal(&gens, 3, 8, rng).unwrap();
    let kp = Keypair::generate(&base, rng);

    let mut ct = EncryptedPedersenShare::encrypt(&gens, &base, &kp.pk, &dist.shares[2], rng);
    // Corrupt the ciphertext body of one component.
    ct.sf.c = Point::random(rng);
    let recovered = ct.decrypt(&kp.sk);
    assert!(recovered.verify(&dist.commitments, 3).is_err());
}

#[test]
fn test_reconstruction_in_exponent() {
    // Reconstruct g1^{x1} (= pk component) from t+1 recovered group-element
    // shares via Lagrange-in-exponent at the special point -1.
    let rng = &mut ChaCha20Rng::from_entropy();
    let gens = Gens::setup().unwrap();
    let base = Base::setup().unwrap();
    let degree = 4;
    let n = 9;
    let (dist, secrets) = Pedersen::deal(&gens, degree, n, rng).unwrap();
    let keys: Vec<Keypair> = (0..n).map(|_| Keypair::generate(&base, rng)).collect();

    // Decrypt the first t+1 receivers' `g1^{sf}` messages.
    let mut indices = vec![];
    let mut messages = vec![];
    for i in 0..=degree {
        let ct = EncryptedPedersenShare::encrypt(&gens, &base, &keys[i].pk, &dist.shares[i], rng);
        let recovered = ct.decrypt(&keys[i].sk);
        indices.push(MSS::point((i + 1) as i64));
        messages.push(recovered.m_sf);
    }

    // The weights at -1 recover f(-1) = x1, in the exponent of g1.
    let lambdas = MSS::lambda1(&indices).unwrap();
    let mut acc = Point::zero();
    for (lambda, m) in lambdas.iter().zip(messages.iter()) {
        acc = acc.add(&m.mul(lambda));
    }
    let expected = gens.g1.mul(&secrets.x1);
    assert_eq!(acc, expected);
}

#[test]
fn ciphertext_with_known_nonce() {
    let rng = &mut ChaCha20Rng::from_seed([7u8; 32]);
    let base: ElGamalBase<Jubjub> = ElGamalBase::setup().unwrap();
    let kp = ElGamalKeypair::from_secret(&base, Scalar::from_u64(5));
    assert_eq!(kp.pk, base.g.mul(&Scalar::from_u64(5)));
    let m: Point<Jubjub> = Point::random(rng);
    let nonce = Scalar::from_u64(3);
    let ct = ElGamalCiphertext::encrypt_with(&base, &kp.pk, &m, &nonce);
    assert_eq!(ct.r, base.g.mul(&Scalar::from_u64(3)));
    assert_eq!(ct.c, m.add(&base.g.mul(&Scalar::from_u64(15))));
    assert_eq!(ct.decrypt(&kp.sk), m);
}

#[test]
fn verification_names_the_receiver() {
    let rng = &mut ChaCha20Rng::from_entropy();
    let gens = Gens::setup().unwrap();
    let base = Base::setup().unwrap();
    let (dist, _secrets) = Pedersen::deal(&gens, 2, 4, rng).unwrap();
    let kp = Keypair::generate(&base, rng);
    let ct = EncryptedPedersenShare::encrypt(&gens, &base, &kp.pk, &dist.shares[1], rng);
    let recovered = ct.decrypt(&kp.sk);
    assert_eq!(recovered.verify(&dist.commitments, 2), Ok(()));
    assert_eq!(recovered.verify(&dist.commitments, 3), Err(VssError::ShareCheck(3)));
}

#[test]
fn half_share_opens_to_its_messages() {
    let rng = &mut ChaCha20Rng::from_entropy();
    let gens = Gens::setup().unwrap();
    let base = Base::setup().unwrap();
    let kp = Keypair::generate(&base, rng);
    let share = PedersenShare {
        sf: Scalar::from_u64(11),
        sf_prime: Scalar::from_u64(13),
        sg: Scalar::zero(),
        sg_prime: Scalar::zero(),
    };
    let ct = HalfShare::encrypt(&gens, &base, &kp.pk, &share, rng);
    let opened = ct.open(&kp.sk);
    assert_eq!(opened.m_sf, gens.g1.mul(&Scalar::from_u64(11)));
    assert_eq!(opened.m_sf_prime, gens.h1.mul(&Scalar::from_u64(13)));
    assert!(opened.m_sg.is_zero());
    assert!(opened.m_sg_prime.is_zero());
    assert_eq!(<HalfShare<Bls12381> as Carrier<Bls12381>>::point_count(), 4);
    assert_eq!(<EncryptedPedersenShare<Bls12381> as Carrier<Bls12381>>::point_count(), 8);
}
