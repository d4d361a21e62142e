use dmkg::bls::Bls12381;
use dmkg::curve::Scalar;
use dmkg::dkg::errors::VssError;
use dmkg::dkg::mss::MSSPolynomial;
use rand_chacha::rand_core::SeedableRng;
use rand_chacha::ChaCha20Rng;

type Fr = Scalar<Bls12381>;
type MSS = MSSPolynomial<Bls12381>;

fn rng() -> ChaCha20Rng {
    ChaCha20Rng::from_entropy()
}

#[test]
fn test_pinned_points_roundtrip() {
    let rng = &mut rng();
    let degree = 3;

    // Two secrets per polynomial: f carries (x1, y1), g carries (x2, y2).
    let (x1, y1) = (Fr::random(rng), Fr::random(rng));
    let (x2, y2) = (Fr::random(rng), Fr::random(rng));

    let f = MSS::sample(degree, x1, y1, rng).unwrap();
    let g = MSS::sample(degree, x2, y2, rng).unwrap();

    assert_eq!(f.secret_minus1(), x1);
    assert_eq!(f.secret_minus2(), y1);
    assert_eq!(g.secret_minus1(), x2);
    assert_eq!(g.secret_minus2(), y2);
    assert_eq!(f.coeffs.len(), degree + 1);
}

#[test]
fn test_lagrange_recovery_from_shares() {
    let rng = &mut rng();
    let degree = 4;
    let n = 8;

    let (x1, y1) = (Fr::random(rng), Fr::random(rng));
    let f = MSS::sample(degree, x1, y1, rng).unwrap();

    // Recover from all n shares.
    let all_points = f
        .shares(n)
        .into_iter()
        .enumerate()
        .map(|(idx, value)| (MSS::point((idx + 1) as i64), value))
        .collect::<Vec<_>>();
    assert_eq!(MSS::recover(MSS::point_minus1(), &all_points).unwrap(), x1);
    assert_eq!(MSS::recover(MSS::point_minus2(), &all_points).unwrap(), y1);

    // Recover from an arbitrary subset of exactly t+1 shares.
    let subset = &all_points[..degree + 1];
    assert_eq!(MSS::recover(MSS::point_minus1(), subset).unwrap(), x1);
    assert_eq!(MSS::recover(MSS::point_minus2(), subset).unwrap(), y1);

    // The lambda helpers agree with `recover`.
    let indices = subset.iter().map(|(x, _)| *x).collect::<Vec<_>>();
    let lambda1 = MSS::lambda1(&indices).unwrap();
    let recovered_x1 = lambda1
        .iter()
        .zip(subset.iter())
        .fold(Fr::from_u64(0), |acc, (l, (_, v))| acc.add(&l.mul(v)));
    assert_eq!(recovered_x1, x1);
}

#[test]
fn test_degree_too_small_errors() {
    let rng = &mut rng();
    let (a, b) = (Fr::random(rng), Fr::random(rng));
    assert_eq!(MSS::sample(0, a, b, rng).err(), Some(VssError::InsufficientDegree(0)));
}

#[test]
fn test_duplicate_indices_error() {
    let rng = &mut rng();
    let degree = 2;
    let (a, b) = (Fr::random(rng), Fr::random(rng));
    let f = MSS::sample(degree, a, b, rng).unwrap();
    let v = f.evaluate_at(1);
    // Two identical indices -> zero denominator -> error, no panic.
    let points = [(MSS::point(1), v), (MSS::point(1), v)];
    assert_eq!(MSS::recover(MSS::point_minus1(), &points), Err(VssError::BadIndices));
}

#[test]
fn evaluation_of_known_polynomial() {
    // 3 + 5 x + 7 x^2
    let f = MSS { coeffs: vec![Fr::from_u64(3), Fr::from_u64(5), Fr::from_u64(7)] };
    assert_eq!(f.evaluate_at(2), Fr::from_u64(41));
    assert_eq!(f.secret_minus1(), Fr::from_u64(5));
    assert_eq!(f.secret_minus2(), Fr::from_u64(21));
    assert_eq!(f.shares(2), vec![Fr::from_u64(15), Fr::from_u64(41)]);
    assert_eq!(MSS::point(-3), Fr::from_u64(3).neg());
    assert_eq!(MSS::point(i64::MIN), Fr::from_u64(1 << 63).neg());
}

#[test]
fn pinned_polynomial_solves_its_equations() {
    let f = MSS::pinned(Fr::from_u64(10), Fr::from_u64(20), vec![Fr::from_u64(7)]);
    assert_eq!(f.coeffs.len(), 3);
    assert_eq!(f.coeffs[2], Fr::from_u64(7));
    assert_eq!(f.secret_minus1(), Fr::from_u64(10));
    assert_eq!(f.secret_minus2(), Fr::from_u64(20));
}
