//! The second source group of BLS12-381 and the pairing, with the arithmetic of `ark_bls12_381`.
use crate::bls::{g1_log, g1_order, Bls12381, G1Coords};
use crate::curve::{limbs_value, Curve, Point, Scalar};
use ark_bls12_381::{Bls12_381, Fq, Fq2, G1Affine, G2Affine};
use ark_ec::{AffineCurve, PairingEngine, ProjectiveCurve};
use ark_ff::{BigInteger256, BigInteger384, Zero};
use ark_serialize::CanonicalDeserialize;
use vstd::arithmetic::div_mod::lemma_mod_bound;
use vstd::prelude::*;

verus! {

/// Affine coordinates over the quadratic extension, as the limbs that `ark_ff` keeps.
#[derive(Clone, Copy, Debug)]
pub struct G2Coords {
    pub x: ([u64; 6], [u64; 6]),
    pub y: ([u64; 6], [u64; 6]),
    pub infinity: bool,
}

/// The `k` below the group order for which `k` times `G2Projective::prime_subgroup_generator()` has
/// these affine coordinates, `None` for coordinates that are those of no such multiple. Each
/// coordinate is given by the limbs of its two components.
pub uninterp spec fn g2_exponent(
    x: (Seq<u64>, Seq<u64>),
    y: (Seq<u64>, Seq<u64>),
    infinity: bool,
) -> Option<nat>;

/// The affine coordinates that `CanonicalDeserialize::deserialize` of `G2Affine` reads, `None` where
/// it fails.
pub uninterp spec fn g2_deserialized(bytes: Seq<u8>) -> Option<
    ((Seq<u64>, Seq<u64>), (Seq<u64>, Seq<u64>), bool),
>;

/// The exponent of the point with these coordinates, reduced into range.
pub open spec fn g2_log(c: G2Coords) -> Option<int> {
    match g2_exponent((c.x.0@, c.x.1@), (c.y.0@, c.y.1@), c.infinity) {
        Some(k) => Some(k as int % g1_order()),
        None => None,
    }
}

/// `Zero::zero` of `G2Affine`: the neutral element of the group.
#[verifier::external_body]
fn g2_zero() -> (r: G2Coords)
    ensures
        g2_exponent((r.x.0@, r.x.1@), (r.y.0@, r.y.1@), r.infinity) == Some(0nat),
{
    let r = G2Affine::zero();
    G2Coords {
        x: (r.x.c0.0.0, r.x.c1.0.0),
        y: (r.y.c0.0.0, r.y.c1.0.0),
        infinity: r.infinity,
    }
}

/// `Add` of `G2Projective`: the group law, which adds exponents modulo the order.
#[verifier::external_body]
fn g2_add(p: &G2Coords, q: &G2Coords) -> (r: G2Coords)
    requires
        g2_log(*p) is Some,
        g2_log(*q) is Some,
    ensures
        g2_log(r) == Some((g2_log(*p)->0 + g2_log(*q)->0) % g1_order()),
{
    let fq = |l: [u64; 6]| Fq::new(BigInteger384(l));
    let point = |c: &G2Coords| {
        G2Affine::new(Fq2::new(fq(c.x.0), fq(c.x.1)), Fq2::new(fq(c.y.0), fq(c.y.1)), c.infinity)
    };
    let r = (point(p).into_projective() + point(q).into_projective()).into_affine();
    G2Coords {
        x: (r.x.c0.0.0, r.x.c1.0.0),
        y: (r.y.c0.0.0, r.y.c1.0.0),
        infinity: r.infinity,
    }
}

/// `AffineCurve::mul` of `G2Affine`: the multiple of a point, which multiplies its exponent by the
/// scalar modulo the order.
#[verifier::external_body]
fn g2_mul(p: &G2Coords, s: &[u64; 4]) -> (r: G2Coords)
    requires
        g2_log(*p) is Some,
        limbs_value(s@) < g1_order(),
    ensures
        g2_log(r) == Some((g2_log(*p)->0 * limbs_value(s@)) % g1_order()),
{
    let fq = |l: [u64; 6]| Fq::new(BigInteger384(l));
    let (x, y) = (Fq2::new(fq(p.x.0), fq(p.x.1)), Fq2::new(fq(p.y.0), fq(p.y.1)));
    let r = G2Affine::new(x, y, p.infinity).mul(BigInteger256(*s)).into_affine();
    G2Coords {
        x: (r.x.c0.0.0, r.x.c1.0.0),
        y: (r.y.c0.0.0, r.y.c1.0.0),
        infinity: r.infinity,
    }
}

/// `CanonicalDeserialize::deserialize` of `G2Affine`: reads a compressed encoding, and fails where
/// the bytes are none of a point of the group.
#[verifier::external_body]
fn g2_parse(bytes: &Vec<u8>) -> (r: Option<G2Coords>)
    ensures
        match r {
            Some(c) => g2_deserialized(bytes@) == Some(
                ((c.x.0@, c.x.1@), (c.y.0@, c.y.1@), c.infinity),
            ) && g2_log(c) is Some,
            None => g2_deserialized(bytes@) is None,
        },
{
    let r = G2Affine::deserialize(&bytes[..]).ok()?;
    Some(G2Coords {
        x: (r.x.c0.0.0, r.x.c1.0.0),
        y: (r.y.c0.0.0, r.y.c1.0.0),
        infinity: r.infinity,
    })
}

/// `PairingEngine::pairing` of `Bls12_381`, bilinear and not degenerate: the pairing of two points
/// is determined by the product of their exponents modulo the order, and two pairings are equal
/// only where these products are.
#[verifier::external_body]
fn pairings_equal(p: &G1Coords, q: &G2Coords, r: &G1Coords, s: &G2Coords) -> (b: bool)
    requires
        g1_log(*p) is Some,
        g2_log(*q) is Some,
        g1_log(*r) is Some,
        g2_log(*s) is Some,
    ensures
        b == ((g1_log(*p)->0 * g2_log(*q)->0) % g1_order() == (g1_log(*r)->0 * g2_log(*s)->0)
            % g1_order()),
{
    let fq = |l: [u64; 6]| Fq::new(BigInteger384(l));
    let g1 = |c: &G1Coords| G1Affine::new(fq(c.x), fq(c.y), c.infinity);
    let g2 = |c: &G2Coords| {
        G2Affine::new(Fq2::new(fq(c.x.0), fq(c.x.1)), Fq2::new(fq(c.y.0), fq(c.y.1)), c.infinity)
    };
    Bls12_381::pairing(g1(p), g2(q)) == Bls12_381::pairing(g1(r), g2(s))
}

/// An element of the second source group.
#[derive(Clone, Copy, Debug)]
pub struct G2Point {
    coords: G2Coords,
}

impl View for G2Point {
    type V = int;

    /// The exponent with respect to the group's generator.
    closed spec fn view(&self) -> int {
        match g2_log(self.coords) {
            Some(k) => k,
            None => 0,
        }
    }
}

/// The exponent of the point of the second group that the bytes encode.
pub open spec fn g2_decoded(bytes: Seq<u8>) -> Option<int> {
    match g2_deserialized(bytes) {
        Some(c) => match g2_exponent(c.0, c.1, c.2) {
            Some(k) => Some(k as int % g1_order()),
            None => None,
        },
        None => None,
    }
}

impl G2Point {
    #[verifier::type_invariant]
    spec fn in_group(self) -> bool {
        g2_log(self.coords) is Some
    }

    /// A point is viewed as an exponent in range.
    pub proof fn lemma_range(self)
        ensures
            0 <= self@ < g1_order(),
    {
        if let Some(k) = g2_exponent(
            (self.coords.x.0@, self.coords.x.1@),
            (self.coords.y.0@, self.coords.y.1@),
            self.coords.infinity,
        ) {
            lemma_mod_bound(k as int, g1_order());
        }
    }

    /// The neutral element.
    pub fn zero() -> (r: Self)
        ensures
            r@ == 0,
    {
        G2Point { coords: g2_zero() }
    }

    /// The point that a compressed encoding stands for.
    pub fn from_bytes(bytes: &Vec<u8>) -> (r: Option<Self>)
        ensures
            match r {
                Some(p) => g2_decoded(bytes@) == Some(p@),
                None => g2_decoded(bytes@) is None,
            },
    {
        match g2_parse(bytes) {
            Some(coords) => Some(G2Point { coords }),
            None => None,
        }
    }

    /// The sum of two points.
    pub fn add(&self, other: &Self) -> (r: Self)
        ensures
            r@ == (self@ + other@) % g1_order(),
    {
        proof {
            use_type_invariant(self);
            use_type_invariant(other);
        }
        G2Point { coords: g2_add(&self.coords, &other.coords) }
    }

    /// The `s`-th multiple.
    pub fn mul(&self, s: &Scalar<Bls12381>) -> (r: Self)
        ensures
            r@ == (self@ * s@) % g1_order(),
    {
        let limbs = s.to_limbs();
        proof {
            use_type_invariant(self);
            s.lemma_range();
        }
        G2Point { coords: g2_mul(&self.coords, &limbs) }
    }

    /// Whether the pairings of `(p, self)` and `(q, other)` are equal.
    pub fn pairs_alike(
        &self,
        p: &Point<Bls12381>,
        other: &Self,
        q: &Point<Bls12381>,
    ) -> (b: bool)
        ensures
            b == ((p@ * self@) % g1_order() == (q@ * other@) % g1_order()),
    {
        let (pc, qc) = (p.to_coords(), q.to_coords());
        proof {
            use_type_invariant(self);
            use_type_invariant(other);
        }
        pairings_equal(&pc, &self.coords, &qc, &other.coords)
    }
}

} // verus!
