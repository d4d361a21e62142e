//! The Jubjub curve, with the arithmetic of `ark_ed_on_bls12_381`.
use crate::curve::{dot, limbs_value, Curve};
use ark_ed_on_bls12_381::{EdwardsAffine, EdwardsProjective, Fq, Fr};
use ark_ec::msm::VariableBaseMSM;
use ark_ec::{AffineCurve, ProjectiveCurve};
use ark_ff::{BigInteger256, Field, PrimeField, UniformRand, Zero};
use ark_serialize::CanonicalSerialize;
use rand_chacha::rand_core::SeedableRng;
use rand_chacha::ChaCha20Rng;
use vstd::arithmetic::div_mod::lemma_mod_bound;
use vstd::arithmetic::power::pow;
use vstd::prelude::*;

verus! {

/// The order of Jubjub's prime-order subgroup, which is the modulus of
/// `ark_ed_on_bls12_381::Fr`.
pub open spec fn jubjub_order() -> int {
    0xe7db4ea6533afa906673b0101343b00a6682093ccc81082d0970e5ed6f72cb7int
}

/// The `k` below the group order for which `k` times `EdwardsProjective::prime_subgroup_generator()`
/// has these affine coordinates, `None` for coordinates that are those of no such multiple. The
/// coordinates are the limbs that `ark_ff` keeps.
pub uninterp spec fn jubjub_exponent(x: Seq<u64>, y: Seq<u64>) -> Option<nat>;

/// The affine coordinates that `UniformRand::rand` of `EdwardsProjective` samples from a
/// `ChaCha20Rng` started on `seed`.
pub uninterp spec fn jubjub_sampled(seed: Seq<u8>) -> (Seq<u64>, Seq<u64>);

/// The bytes that `CanonicalSerialize::serialize` writes for the point with these coordinates.
pub uninterp spec fn jubjub_serialized(x: Seq<u64>, y: Seq<u64>) -> Seq<u8>;

/// Affine coordinates, as the limbs that `ark_ff` keeps.
#[derive(Clone, Copy, Debug)]
pub struct EdwardsCoords {
    pub x: [u64; 4],
    pub y: [u64; 4],
}

/// The exponent of the point with these coordinates, reduced into range.
pub open spec fn jubjub_log(c: EdwardsCoords) -> Option<int> {
    match jubjub_exponent(c.x@, c.y@) {
        Some(k) => Some(k as int % jubjub_order()),
        None => None,
    }
}

/// `From<u64>` of `ark_ed_on_bls12_381::Fr`: the field element of that value, read back with
/// `into_repr`.
#[verifier::external_body]
fn jr_from_u64(n: u64) -> (r: [u64; 4])
    ensures
        limbs_value(r@) == n,
{
    Fr::from(n).into_repr().0
}

/// `Add` of `ark_ed_on_bls12_381::Fr`: addition modulo the field's modulus.
#[verifier::external_body]
fn jr_add(a: &[u64; 4], b: &[u64; 4]) -> (r: [u64; 4])
    requires
        limbs_value(a@) < jubjub_order(),
        limbs_value(b@) < jubjub_order(),
    ensures
        limbs_value(r@) == (limbs_value(a@) + limbs_value(b@)) % jubjub_order(),
{
    let a = Fr::from_repr(BigInteger256(*a)).unwrap();
    let b = Fr::from_repr(BigInteger256(*b)).unwrap();
    (a + b).into_repr().0
}

/// `Sub` of `ark_ed_on_bls12_381::Fr`: subtraction modulo the field's modulus.
#[verifier::external_body]
fn jr_sub(a: &[u64; 4], b: &[u64; 4]) -> (r: [u64; 4])
    requires
        limbs_value(a@) < jubjub_order(),
        limbs_value(b@) < jubjub_order(),
    ensures
        limbs_value(r@) == (limbs_value(a@) - limbs_value(b@)) % jubjub_order(),
{
    let a = Fr::from_repr(BigInteger256(*a)).unwrap();
    let b = Fr::from_repr(BigInteger256(*b)).unwrap();
    (a - b).into_repr().0
}

/// `Mul` of `ark_ed_on_bls12_381::Fr`: multiplication modulo the field's modulus. The modulus is
/// prime, so a product is zero only where a factor is.
#[verifier::external_body]
fn jr_mul(a: &[u64; 4], b: &[u64; 4]) -> (r: [u64; 4])
    requires
        limbs_value(a@) < jubjub_order(),
        limbs_value(b@) < jubjub_order(),
    ensures
        limbs_value(r@) == (limbs_value(a@) * limbs_value(b@)) % jubjub_order(),
        limbs_value(r@) == 0 <==> limbs_value(a@) == 0 || limbs_value(b@) == 0,
{
    let a = Fr::from_repr(BigInteger256(*a)).unwrap();
    let b = Fr::from_repr(BigInteger256(*b)).unwrap();
    (a * b).into_repr().0
}

/// `Field::inverse` of `ark_ed_on_bls12_381::Fr`: the multiplicative inverse, `None` for zero alone.
#[verifier::external_body]
fn jr_inverse(a: &[u64; 4]) -> (r: Option<[u64; 4]>)
    requires
        limbs_value(a@) < jubjub_order(),
    ensures
        match r {
            Some(i) => limbs_value(i@) < jubjub_order() && (limbs_value(a@) * limbs_value(i@))
                % jubjub_order() == 1,
            None => limbs_value(a@) == 0,
        },
{
    let a = Fr::from_repr(BigInteger256(*a)).unwrap();
    a.inverse().map(|i| i.into_repr().0)
}

/// `Field::pow` of `ark_ed_on_bls12_381::Fr` with a one-limb exponent: the power modulo the field's
/// modulus.
#[verifier::external_body]
fn jr_pow(a: &[u64; 4], e: u64) -> (r: [u64; 4])
    requires
        limbs_value(a@) < jubjub_order(),
    ensures
        limbs_value(r@) == pow(limbs_value(a@), e as nat) % jubjub_order(),
{
    let a = Fr::from_repr(BigInteger256(*a)).unwrap();
    a.pow([e]).into_repr().0
}

/// `UniformRand::rand` of `ark_ed_on_bls12_381::Fr`: some field element.
#[verifier::external_body]
fn jr_random(rng: &mut ChaCha20Rng) -> (r: [u64; 4])
    ensures
        limbs_value(r@) < jubjub_order(),
{
    Fr::rand(rng).into_repr().0
}

/// `Zero::zero` of `EdwardsAffine`: the neutral element of the group.
#[verifier::external_body]
fn jubjub_zero() -> (r: EdwardsCoords)
    ensures
        jubjub_exponent(r.x@, r.y@) == Some(0nat),
{
    let r = EdwardsAffine::zero();
    EdwardsCoords { x: r.x.0.0, y: r.y.0.0 }
}

/// `Add` of `EdwardsProjective`: the group law, which adds exponents modulo the order.
#[verifier::external_body]
fn jubjub_add(p: &EdwardsCoords, q: &EdwardsCoords) -> (r: EdwardsCoords)
    requires
        jubjub_log(*p) is Some,
        jubjub_log(*q) is Some,
    ensures
        jubjub_log(r) == Some(
            (jubjub_log(*p)->0 + jubjub_log(*q)->0) % jubjub_order(),
        ),
{
    let p = EdwardsAffine::new(Fq::new(BigInteger256(p.x)), Fq::new(BigInteger256(p.y)));
    let q = EdwardsAffine::new(Fq::new(BigInteger256(q.x)), Fq::new(BigInteger256(q.y)));
    let r = (p.into_projective() + q.into_projective()).into_affine();
    EdwardsCoords { x: r.x.0.0, y: r.y.0.0 }
}

/// `Sub` of `EdwardsProjective`: the group law with the inverse of the second point, which subtracts
/// exponents modulo the order.
#[verifier::external_body]
fn jubjub_sub(p: &EdwardsCoords, q: &EdwardsCoords) -> (r: EdwardsCoords)
    requires
        jubjub_log(*p) is Some,
        jubjub_log(*q) is Some,
    ensures
        jubjub_log(r) == Some(
            (jubjub_log(*p)->0 - jubjub_log(*q)->0) % jubjub_order(),
        ),
{
    let p = EdwardsAffine::new(Fq::new(BigInteger256(p.x)), Fq::new(BigInteger256(p.y)));
    let q = EdwardsAffine::new(Fq::new(BigInteger256(q.x)), Fq::new(BigInteger256(q.y)));
    let r = (p.into_projective() - q.into_projective()).into_affine();
    EdwardsCoords { x: r.x.0.0, y: r.y.0.0 }
}

/// `ProjectiveCurve::mul` of `EdwardsProjective`: the multiple of a point, which multiplies its
/// exponent by the scalar modulo the order.
#[verifier::external_body]
fn jubjub_mul(p: &EdwardsCoords, s: &[u64; 4]) -> (r: EdwardsCoords)
    requires
        jubjub_log(*p) is Some,
        limbs_value(s@) < jubjub_order(),
    ensures
        jubjub_log(r) == Some(
            (jubjub_log(*p)->0 * limbs_value(s@)) % jubjub_order(),
        ),
{
    let p = EdwardsAffine::new(Fq::new(BigInteger256(p.x)), Fq::new(BigInteger256(p.y)));
    let r = p.into_projective().mul(BigInteger256(*s)).into_affine();
    EdwardsCoords { x: r.x.0.0, y: r.y.0.0 }
}

/// `VariableBaseMSM::multi_scalar_mul` over `EdwardsAffine`: the sum of the bases, each
/// multiplied by the scalar beside it.
#[verifier::external_body]
fn jubjub_msm(bases: &Vec<EdwardsCoords>, scalars: &Vec<[u64; 4]>) -> (r: EdwardsCoords)
    requires
        bases.len() == scalars.len(),
        forall|i: int|
            0 <= i < bases.len() ==> jubjub_log(#[trigger] bases[i]) is Some,
        forall|i: int|
            0 <= i < scalars.len() ==> limbs_value(#[trigger] scalars[i]@) < jubjub_order(),
    ensures
        jubjub_log(r) == Some(
            dot(
                bases@.map_values(|c: EdwardsCoords| jubjub_log(c)->0),
                scalars@.map_values(|s: [u64; 4]| limbs_value(s@)),
                bases.len() as int,
            ) % jubjub_order(),
        ),
{
    let bases: Vec<EdwardsAffine> = bases.iter().map(|p|
        EdwardsAffine::new(Fq::new(BigInteger256(p.x)), Fq::new(BigInteger256(p.y)))).collect();
    let scalars: Vec<BigInteger256> = scalars.iter().map(|s| BigInteger256(*s)).collect();
    let r = VariableBaseMSM::multi_scalar_mul(&bases, &scalars).into_affine();
    EdwardsCoords { x: r.x.0.0, y: r.y.0.0 }
}

/// `PartialEq` of `EdwardsProjective`: two points of the group are equal where their exponents are.
#[verifier::external_body]
fn jubjub_same(p: &EdwardsCoords, q: &EdwardsCoords) -> (r: bool)
    requires
        jubjub_log(*p) is Some,
        jubjub_log(*q) is Some,
    ensures
        r == (jubjub_log(*p) == jubjub_log(*q)),
{
    let p = EdwardsAffine::new(Fq::new(BigInteger256(p.x)), Fq::new(BigInteger256(p.y)));
    let q = EdwardsAffine::new(Fq::new(BigInteger256(q.x)), Fq::new(BigInteger256(q.y)));
    p.into_projective() == q.into_projective()
}

/// `UniformRand::rand` of `EdwardsProjective`: some point of the group.
#[verifier::external_body]
fn jubjub_random(rng: &mut ChaCha20Rng) -> (r: EdwardsCoords)
    ensures
        jubjub_log(r) is Some,
{
    let r = EdwardsProjective::rand(rng).into_affine();
    EdwardsCoords { x: r.x.0.0, y: r.y.0.0 }
}

/// `UniformRand::rand` of `EdwardsProjective` on a `ChaCha20Rng` started on `seed`: the point of the
/// group that the seed determines.
#[verifier::external_body]
fn jubjub_from_seed(seed: &[u8; 32]) -> (r: EdwardsCoords)
    ensures
        (r.x@, r.y@) == jubjub_sampled(seed@),
        jubjub_log(r) is Some,
{
    let r = EdwardsProjective::rand(&mut ChaCha20Rng::from_seed(*seed)).into_affine();
    EdwardsCoords { x: r.x.0.0, y: r.y.0.0 }
}

/// `CanonicalSerialize::serialize` of `EdwardsAffine`: the compressed encoding, 32 bytes long.
#[verifier::external_body]
fn jubjub_bytes(p: &EdwardsCoords) -> (r: Vec<u8>)
    requires
        jubjub_log(*p) is Some,
    ensures
        r@ == jubjub_serialized(p.x@, p.y@),
        r@.len() == 32,
{
    let p = EdwardsAffine::new(Fq::new(BigInteger256(p.x)), Fq::new(BigInteger256(p.y)));
    let mut r = Vec::new();
    p.serialize(&mut r).unwrap();
    r
}

/// `CanonicalSerialize::serialized_size` of `EdwardsAffine`: the length of the compressed encoding.
#[verifier::external_body]
fn jubjub_encoded_size() -> (r: usize)
    ensures
        r == 32,
{
    EdwardsAffine::zero().serialized_size()
}

/// The prime-order subgroup of Jubjub.
#[derive(Clone, Copy, Debug)]
pub struct Jubjub;

impl Curve for Jubjub {
    type Coords = EdwardsCoords;

    open spec fn order() -> int {
        jubjub_order()
    }

    open spec fn exponent(c: EdwardsCoords) -> Option<int> {
        jubjub_log(c)
    }

    open spec fn seeded(seed: Seq<u8>) -> int {
        let c = jubjub_sampled(seed);
        match jubjub_exponent(c.0, c.1) {
            Some(k) => k as int % jubjub_order(),
            None => 0,
        }
    }

    open spec fn encoding(c: EdwardsCoords) -> Seq<u8> {
        jubjub_serialized(c.x@, c.y@)
    }

    open spec fn encoding_len() -> int {
        32
    }

    proof fn order_exceeds_words() {
    }

    proof fn encoding_is_short() {
    }

    proof fn exponent_in_range(c: EdwardsCoords) {
        if let Some(k) = jubjub_exponent(c.x@, c.y@) {
            lemma_mod_bound(k as int, jubjub_order());
        }
    }

    fn scalar_from_u64(n: u64) -> (r: [u64; 4]) {
        jr_from_u64(n)
    }

    fn scalar_add(a: &[u64; 4], b: &[u64; 4]) -> (r: [u64; 4]) {
        jr_add(a, b)
    }

    fn scalar_sub(a: &[u64; 4], b: &[u64; 4]) -> (r: [u64; 4]) {
        jr_sub(a, b)
    }

    fn scalar_mul(a: &[u64; 4], b: &[u64; 4]) -> (r: [u64; 4]) {
        jr_mul(a, b)
    }

    fn scalar_inverse(a: &[u64; 4]) -> (r: Option<[u64; 4]>) {
        jr_inverse(a)
    }

    fn scalar_pow(a: &[u64; 4], e: u64) -> (r: [u64; 4]) {
        jr_pow(a, e)
    }

    fn scalar_random(rng: &mut ChaCha20Rng) -> (r: [u64; 4]) {
        jr_random(rng)
    }

    fn point_zero() -> (r: EdwardsCoords) {
        jubjub_zero()
    }

    fn point_add(p: &EdwardsCoords, q: &EdwardsCoords) -> (r: EdwardsCoords) {
        jubjub_add(p, q)
    }

    fn point_sub(p: &EdwardsCoords, q: &EdwardsCoords) -> (r: EdwardsCoords) {
        jubjub_sub(p, q)
    }

    fn point_mul(p: &EdwardsCoords, s: &[u64; 4]) -> (r: EdwardsCoords) {
        jubjub_mul(p, s)
    }

    fn point_msm(bases: &Vec<EdwardsCoords>, scalars: &Vec<[u64; 4]>) -> (r: EdwardsCoords) {
        let r = jubjub_msm(bases, scalars);
        proof {
            assert(bases@.map_values(|c: EdwardsCoords| Self::exponent(c)->0)
                =~= bases@.map_values(|c: EdwardsCoords| jubjub_log(c)->0));
        }
        r
    }

    fn point_same(p: &EdwardsCoords, q: &EdwardsCoords) -> (r: bool) {
        jubjub_same(p, q)
    }

    fn point_random(rng: &mut ChaCha20Rng) -> (r: EdwardsCoords) {
        jubjub_random(rng)
    }

    fn point_from_seed(seed: &[u8; 32]) -> (r: EdwardsCoords) {
        jubjub_from_seed(seed)
    }

    fn point_bytes(p: &EdwardsCoords) -> (r: Vec<u8>) {
        jubjub_bytes(p)
    }

    fn encoded_size() -> (r: usize) {
        jubjub_encoded_size()
    }
}

} // verus!
