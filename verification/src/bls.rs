//! The first source group of BLS12-381, with the arithmetic of `ark_bls12_381`.
use crate::curve::{dot, limbs_value, Curve, Point, Scalar};
use ark_bls12_381::{Fq, Fr, G1Affine, G1Projective};
use ark_ec::msm::VariableBaseMSM;
use ark_ec::{AffineCurve, ProjectiveCurve};
use ark_ff::{BigInteger256, BigInteger384, Field, PrimeField, UniformRand, Zero};
use ark_poly::{EvaluationDomain, Radix2EvaluationDomain};
use ark_serialize::{CanonicalDeserialize, CanonicalSerialize};
use rand_chacha::rand_core::SeedableRng;
use rand_chacha::ChaCha20Rng;
use vstd::arithmetic::div_mod::lemma_mod_bound;
use vstd::arithmetic::power::pow;
use vstd::prelude::*;

verus! {

/// The order of the BLS12-381 groups, which is the modulus of `ark_bls12_381::Fr`.
pub open spec fn g1_order() -> int {
    0x73eda753299d7d483339d80809a1d80553bda402fffe5bfeffffffff00000001int
}

/// The `k` below the group order for which `k` times `G1Projective::prime_subgroup_generator()`
/// has these affine coordinates, `None` for coordinates that are those of no such multiple. The
/// coordinates are the limbs that `ark_ff` keeps.
pub uninterp spec fn g1_exponent(x: Seq<u64>, y: Seq<u64>, infinity: bool) -> Option<nat>;

/// The affine coordinates that `UniformRand::rand` of `G1Projective` samples from a
/// `ChaCha20Rng` started on `seed`.
pub uninterp spec fn g1_sampled(seed: Seq<u8>) -> (Seq<u64>, Seq<u64>, bool);

/// The bytes that `CanonicalSerialize::serialize` writes for the point with these coordinates.
pub uninterp spec fn g1_serialized(x: Seq<u64>, y: Seq<u64>, infinity: bool) -> Seq<u8>;

/// Affine coordinates, as the limbs that `ark_ff` keeps.
#[derive(Clone, Copy, Debug)]
pub struct G1Coords {
    pub x: [u64; 6],
    pub y: [u64; 6],
    pub infinity: bool,
}

/// The exponent of the point with these coordinates, reduced into range.
pub open spec fn g1_log(c: G1Coords) -> Option<int> {
    match g1_exponent(c.x@, c.y@, c.infinity) {
        Some(k) => Some(k as int % g1_order()),
        None => None,
    }
}

/// `From<u64>` of `ark_bls12_381::Fr`: the field element of that value, read back with
/// `into_repr`.
#[verifier::external_body]
fn fr_from_u64(n: u64) -> (r: [u64; 4])
    ensures
        limbs_value(r@) == n,
{
    Fr::from(n).into_repr().0
}

/// `Add` of `ark_bls12_381::Fr`: addition modulo the field's modulus.
#[verifier::external_body]
fn fr_add(a: &[u64; 4], b: &[u64; 4]) -> (r: [u64; 4])
    requires
        limbs_value(a@) < g1_order(),
        limbs_value(b@) < g1_order(),
    ensures
        limbs_value(r@) == (limbs_value(a@) + limbs_value(b@)) % g1_order(),
{
    let a = Fr::from_repr(BigInteger256(*a)).unwrap();
    let b = Fr::from_repr(BigInteger256(*b)).unwrap();
    (a + b).into_repr().0
}

/// `Sub` of `ark_bls12_381::Fr`: subtraction modulo the field's modulus.
#[verifier::external_body]
fn fr_sub(a: &[u64; 4], b: &[u64; 4]) -> (r: [u64; 4])
    requires
        limbs_value(a@) < g1_order(),
        limbs_value(b@) < g1_order(),
    ensures
        limbs_value(r@) == (limbs_value(a@) - limbs_value(b@)) % g1_order(),
{
    let a = Fr::from_repr(BigInteger256(*a)).unwrap();
    let b = Fr::from_repr(BigInteger256(*b)).unwrap();
    (a - b).into_repr().0
}

/// `Mul` of `ark_bls12_381::Fr`: multiplication modulo the field's modulus. The modulus is
/// prime, so a product is zero only where a factor is.
#[verifier::external_body]
fn fr_mul(a: &[u64; 4], b: &[u64; 4]) -> (r: [u64; 4])
    requires
        limbs_value(a@) < g1_order(),
        limbs_value(b@) < g1_order(),
    ensures
        limbs_value(r@) == (limbs_value(a@) * limbs_value(b@)) % g1_order(),
        limbs_value(r@) == 0 <==> limbs_value(a@) == 0 || limbs_value(b@) == 0,
{
    let a = Fr::from_repr(BigInteger256(*a)).unwrap();
    let b = Fr::from_repr(BigInteger256(*b)).unwrap();
    (a * b).into_repr().0
}

/// `Field::inverse` of `ark_bls12_381::Fr`: the multiplicative inverse, `None` for zero alone.
#[verifier::external_body]
fn fr_inverse(a: &[u64; 4]) -> (r: Option<[u64; 4]>)
    requires
        limbs_value(a@) < g1_order(),
    ensures
        match r {
            Some(i) => limbs_value(i@) < g1_order() && (limbs_value(a@) * limbs_value(i@))
                % g1_order() == 1,
            None => limbs_value(a@) == 0,
        },
{
    let a = Fr::from_repr(BigInteger256(*a)).unwrap();
    a.inverse().map(|i| i.into_repr().0)
}

/// `Field::pow` of `ark_bls12_381::Fr` with a one-limb exponent: the power modulo the field's
/// modulus.
#[verifier::external_body]
fn fr_pow(a: &[u64; 4], e: u64) -> (r: [u64; 4])
    requires
        limbs_value(a@) < g1_order(),
    ensures
        limbs_value(r@) == pow(limbs_value(a@), e as nat) % g1_order(),
{
    let a = Fr::from_repr(BigInteger256(*a)).unwrap();
    a.pow([e]).into_repr().0
}

/// `UniformRand::rand` of `ark_bls12_381::Fr`: some field element.
#[verifier::external_body]
fn fr_random(rng: &mut ChaCha20Rng) -> (r: [u64; 4])
    ensures
        limbs_value(r@) < g1_order(),
{
    Fr::rand(rng).into_repr().0
}

/// `Zero::zero` of `G1Affine`: the neutral element of the group.
#[verifier::external_body]
fn g1_zero() -> (r: G1Coords)
    ensures
        g1_exponent(r.x@, r.y@, r.infinity) == Some(0nat),
{
    let r = G1Affine::zero();
    G1Coords { x: r.x.0.0, y: r.y.0.0, infinity: r.infinity }
}

/// `Add` of `G1Projective`: the group law, which adds exponents modulo the order.
#[verifier::external_body]
fn g1_add(p: &G1Coords, q: &G1Coords) -> (r: G1Coords)
    requires
        g1_log(*p) is Some,
        g1_log(*q) is Some,
    ensures
        g1_log(r) == Some(
            (g1_log(*p)->0 + g1_log(*q)->0) % g1_order(),
        ),
{
    let p = G1Affine::new(Fq::new(BigInteger384(p.x)), Fq::new(BigInteger384(p.y)), p.infinity);
    let q = G1Affine::new(Fq::new(BigInteger384(q.x)), Fq::new(BigInteger384(q.y)), q.infinity);
    let r = (p.into_projective() + q.into_projective()).into_affine();
    G1Coords { x: r.x.0.0, y: r.y.0.0, infinity: r.infinity }
}

/// `Sub` of `G1Projective`: the group law with the inverse of the second point, which subtracts
/// exponents modulo the order.
#[verifier::external_body]
fn g1_sub(p: &G1Coords, q: &G1Coords) -> (r: G1Coords)
    requires
        g1_log(*p) is Some,
        g1_log(*q) is Some,
    ensures
        g1_log(r) == Some(
            (g1_log(*p)->0 - g1_log(*q)->0) % g1_order(),
        ),
{
    let p = G1Affine::new(Fq::new(BigInteger384(p.x)), Fq::new(BigInteger384(p.y)), p.infinity);
    let q = G1Affine::new(Fq::new(BigInteger384(q.x)), Fq::new(BigInteger384(q.y)), q.infinity);
    let r = (p.into_projective() - q.into_projective()).into_affine();
    G1Coords { x: r.x.0.0, y: r.y.0.0, infinity: r.infinity }
}

/// `ProjectiveCurve::mul` of `G1Projective`: the multiple of a point, which multiplies its
/// exponent by the scalar modulo the order.
#[verifier::external_body]
fn g1_mul(p: &G1Coords, s: &[u64; 4]) -> (r: G1Coords)
    requires
        g1_log(*p) is Some,
        limbs_value(s@) < g1_order(),
    ensures
        g1_log(r) == Some(
            (g1_log(*p)->0 * limbs_value(s@)) % g1_order(),
        ),
{
    let p = G1Affine::new(Fq::new(BigInteger384(p.x)), Fq::new(BigInteger384(p.y)), p.infinity);
    let r = p.into_projective().mul(BigInteger256(*s)).into_affine();
    G1Coords { x: r.x.0.0, y: r.y.0.0, infinity: r.infinity }
}

/// `VariableBaseMSM::multi_scalar_mul` over `G1Affine`: the sum of the bases, each
/// multiplied by the scalar beside it.
#[verifier::external_body]
fn g1_msm(bases: &Vec<G1Coords>, scalars: &Vec<[u64; 4]>) -> (r: G1Coords)
    requires
        bases.len() == scalars.len(),
        forall|i: int|
            0 <= i < bases.len() ==> g1_log(#[trigger] bases[i]) is Some,
        forall|i: int|
            0 <= i < scalars.len() ==> limbs_value(#[trigger] scalars[i]@) < g1_order(),
    ensures
        g1_log(r) == Some(
            dot(
                bases@.map_values(|c: G1Coords| g1_log(c)->0),
                scalars@.map_values(|s: [u64; 4]| limbs_value(s@)),
                bases.len() as int,
            ) % g1_order(),
        ),
{
    let bases: Vec<G1Affine> = bases.iter().map(|p|
        G1Affine::new(Fq::new(BigInteger384(p.x)), Fq::new(BigInteger384(p.y)), p.infinity)).collect();
    let scalars: Vec<BigInteger256> = scalars.iter().map(|s| BigInteger256(*s)).collect();
    let r = VariableBaseMSM::multi_scalar_mul(&bases, &scalars).into_affine();
    G1Coords { x: r.x.0.0, y: r.y.0.0, infinity: r.infinity }
}

/// `PartialEq` of `G1Projective`: two points of the group are equal where their exponents are.
#[verifier::external_body]
fn g1_same(p: &G1Coords, q: &G1Coords) -> (r: bool)
    requires
        g1_log(*p) is Some,
        g1_log(*q) is Some,
    ensures
        r == (g1_log(*p) == g1_log(*q)),
{
    let p = G1Affine::new(Fq::new(BigInteger384(p.x)), Fq::new(BigInteger384(p.y)), p.infinity);
    let q = G1Affine::new(Fq::new(BigInteger384(q.x)), Fq::new(BigInteger384(q.y)), q.infinity);
    p.into_projective() == q.into_projective()
}

/// `UniformRand::rand` of `G1Projective`: some point of the group.
#[verifier::external_body]
fn g1_random(rng: &mut ChaCha20Rng) -> (r: G1Coords)
    ensures
        g1_log(r) is Some,
{
    let r = G1Projective::rand(rng).into_affine();
    G1Coords { x: r.x.0.0, y: r.y.0.0, infinity: r.infinity }
}

/// `UniformRand::rand` of `G1Projective` on a `ChaCha20Rng` started on `seed`: the point of the
/// group that the seed determines.
#[verifier::external_body]
fn g1_from_seed(seed: &[u8; 32]) -> (r: G1Coords)
    ensures
        (r.x@, r.y@, r.infinity) == g1_sampled(seed@),
        g1_log(r) is Some,
{
    let r = G1Projective::rand(&mut ChaCha20Rng::from_seed(*seed)).into_affine();
    G1Coords { x: r.x.0.0, y: r.y.0.0, infinity: r.infinity }
}

/// `CanonicalSerialize::serialize` of `G1Affine`: the compressed encoding, 48 bytes long.
#[verifier::external_body]
fn g1_bytes(p: &G1Coords) -> (r: Vec<u8>)
    requires
        g1_log(*p) is Some,
    ensures
        r@ == g1_serialized(p.x@, p.y@, p.infinity),
        r@.len() == 48,
{
    let p = G1Affine::new(Fq::new(BigInteger384(p.x)), Fq::new(BigInteger384(p.y)), p.infinity);
    let mut r = Vec::new();
    p.serialize(&mut r).unwrap();
    r
}

/// `CanonicalSerialize::serialized_size` of `G1Affine`: the length of the compressed encoding.
#[verifier::external_body]
fn g1_encoded_size() -> (r: usize)
    ensures
        r == 48,
{
    G1Affine::zero().serialized_size()
}

/// The group G1 of BLS12-381.
#[derive(Clone, Copy, Debug)]
pub struct Bls12381;

impl Curve for Bls12381 {
    type Coords = G1Coords;

    open spec fn order() -> int {
        g1_order()
    }

    open spec fn exponent(c: G1Coords) -> Option<int> {
        g1_log(c)
    }

    open spec fn seeded(seed: Seq<u8>) -> int {
        let c = g1_sampled(seed);
        match g1_exponent(c.0, c.1, c.2) {
            Some(k) => k as int % g1_order(),
            None => 0,
        }
    }

    open spec fn encoding(c: G1Coords) -> Seq<u8> {
        g1_serialized(c.x@, c.y@, c.infinity)
    }

    open spec fn encoding_len() -> int {
        48
    }

    proof fn order_exceeds_words() {
    }

    proof fn encoding_is_short() {
    }

    proof fn exponent_in_range(c: G1Coords) {
        if let Some(k) = g1_exponent(c.x@, c.y@, c.infinity) {
            lemma_mod_bound(k as int, g1_order());
        }
    }

    fn scalar_from_u64(n: u64) -> (r: [u64; 4]) {
        fr_from_u64(n)
    }

    fn scalar_add(a: &[u64; 4], b: &[u64; 4]) -> (r: [u64; 4]) {
        fr_add(a, b)
    }

    fn scalar_sub(a: &[u64; 4], b: &[u64; 4]) -> (r: [u64; 4]) {
        fr_sub(a, b)
    }

    fn scalar_mul(a: &[u64; 4], b: &[u64; 4]) -> (r: [u64; 4]) {
        fr_mul(a, b)
    }

    fn scalar_inverse(a: &[u64; 4]) -> (r: Option<[u64; 4]>) {
        fr_inverse(a)
    }

    fn scalar_pow(a: &[u64; 4], e: u64) -> (r: [u64; 4]) {
        fr_pow(a, e)
    }

    fn scalar_random(rng: &mut ChaCha20Rng) -> (r: [u64; 4]) {
        fr_random(rng)
    }

    fn point_zero() -> (r: G1Coords) {
        g1_zero()
    }

    fn point_add(p: &G1Coords, q: &G1Coords) -> (r: G1Coords) {
        g1_add(p, q)
    }

    fn point_sub(p: &G1Coords, q: &G1Coords) -> (r: G1Coords) {
        g1_sub(p, q)
    }

    fn point_mul(p: &G1Coords, s: &[u64; 4]) -> (r: G1Coords) {
        g1_mul(p, s)
    }

    fn point_msm(bases: &Vec<G1Coords>, scalars: &Vec<[u64; 4]>) -> (r: G1Coords) {
        let r = g1_msm(bases, scalars);
        proof {
            assert(bases@.map_values(|c: G1Coords| Self::exponent(c)->0)
                =~= bases@.map_values(|c: G1Coords| g1_log(c)->0));
        }
        r
    }

    fn point_same(p: &G1Coords, q: &G1Coords) -> (r: bool) {
        g1_same(p, q)
    }

    fn point_random(rng: &mut ChaCha20Rng) -> (r: G1Coords) {
        g1_random(rng)
    }

    fn point_from_seed(seed: &[u8; 32]) -> (r: G1Coords) {
        g1_from_seed(seed)
    }

    fn point_bytes(p: &G1Coords) -> (r: Vec<u8>) {
        g1_bytes(p)
    }

    fn encoded_size() -> (r: usize) {
        g1_encoded_size()
    }
}

/// `PrimeField::from_repr` of `ark_bls12_381::Fr`: succeeds exactly below the modulus.
#[verifier::external_body]
fn fr_is_reduced(limbs: &[u64; 4]) -> (r: bool)
    ensures
        r == (limbs_value(limbs@) < g1_order()),
{
    Fr::from_repr(BigInteger256(*limbs)).is_some()
}

/// The scalar with the given limbs, `None` where they hold the modulus or more.
pub fn scalar_from_limbs(limbs: [u64; 4]) -> (r: Option<Scalar<Bls12381>>)
    ensures
        match r {
            Some(s) => limbs_value(limbs@) < g1_order() && s@ == limbs_value(limbs@),
            None => limbs_value(limbs@) >= g1_order(),
        },
{
    if fr_is_reduced(&limbs) {
        Some(Scalar::wrap(limbs))
    } else {
        None
    }
}

/// The affine coordinates that `CanonicalDeserialize::deserialize` of `G1Affine` reads, `None` where
/// it fails.
pub uninterp spec fn g1_deserialized(bytes: Seq<u8>) -> Option<(Seq<u64>, Seq<u64>, bool)>;

/// `CanonicalDeserialize::deserialize` of `G1Affine`: reads a compressed encoding, and fails where
/// the bytes are none of a point of the group.
#[verifier::external_body]
fn g1_parse(bytes: &Vec<u8>) -> (r: Option<G1Coords>)
    ensures
        match r {
            Some(c) => g1_deserialized(bytes@) == Some((c.x@, c.y@, c.infinity)) && g1_log(
                c,
            ) is Some,
            None => g1_deserialized(bytes@) is None,
        },
{
    let r = G1Affine::deserialize(&bytes[..]).ok()?;
    Some(G1Coords { x: r.x.0.0, y: r.y.0.0, infinity: r.infinity })
}

/// The exponent of the point that the bytes encode.
pub open spec fn decoded(bytes: Seq<u8>) -> Option<int> {
    match g1_deserialized(bytes) {
        Some(c) => match g1_exponent(c.0, c.1, c.2) {
            Some(k) => Some(k as int % g1_order()),
            None => None,
        },
        None => None,
    }
}

/// The point that a compressed encoding stands for.
pub fn point_from_bytes(bytes: &Vec<u8>) -> (r: Option<Point<Bls12381>>)
    ensures
        match r {
            Some(p) => decoded(bytes@) == Some(p@),
            None => decoded(bytes@) is None,
        },
{
    match g1_parse(bytes) {
        Some(c) => Some(Point::wrap(c)),
        None => None,
    }
}

/// The generator of the subgroup over which `ark_poly::Radix2EvaluationDomain::new` builds the domain
/// of a size, `None` where it builds none.
pub uninterp spec fn domain_generator(size: nat) -> Option<nat>;

/// `ark_poly::Radix2EvaluationDomain::new` over `ark_bls12_381::Fr`: the field `group_gen` of the
/// domain of the given size.
#[verifier::external_body]
fn fr_domain_generator(size: usize) -> (r: Option<[u64; 4]>)
    requires
        size <= usize::MAX / 2 + 1,
    ensures
        match r {
            Some(g) => limbs_value(g@) < g1_order() && domain_generator(size as nat) == Some(
                limbs_value(g@) as nat,
            ),
            None => domain_generator(size as nat) is None,
        },
{
    let domain = Radix2EvaluationDomain::<Fr>::new(size)?;
    Some(domain.group_gen.into_repr().0)
}

/// The generator of the evaluation domain of the given size.
pub fn evaluation_generator(size: usize) -> (r: Option<Scalar<Bls12381>>)
    requires
        size <= usize::MAX / 2 + 1,
    ensures
        match r {
            Some(g) => domain_generator(size as nat) == Some(g@ as nat),
            None => domain_generator(size as nat) is None,
        },
{
    match fr_domain_generator(size) {
        Some(limbs) => Some(Scalar::wrap(limbs)),
        None => None,
    }
}

} // verus!
