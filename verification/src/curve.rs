//! Prime-order groups and their scalar fields, seen through exponents.
//!
//! A scalar is viewed as its residue modulo the group order, a point as the exponent `k` for which
//! it is the `k`-th multiple of the group's generator. Every statement about points is then a
//! statement about integers modulo the order.
use crate::algebra::{lemma_cong_eq, lemma_cong_mod};
use core::marker::PhantomData;
use rand_chacha::ChaCha20Rng;
use vstd::arithmetic::power::pow;
use vstd::bytes::{
    lemma_auto_spec_u64_to_from_le_bytes, spec_u64_to_le_bytes, spec_u64_to_le_bytes_open,
    spec_u64_to_le_bytes_to_open, u64_to_le_bytes,
};
use vstd::prelude::*;

verus! {

/// The generator that all sampling draws from, `rand_chacha::ChaCha20Rng`.
#[verifier::external_type_specification]
#[verifier::external_body]
pub struct ExChaCha20Rng(ChaCha20Rng);

/// The integer held in four 64-bit limbs, least significant first.
pub open spec fn limbs_value(s: Seq<u64>) -> int {
    s[0] + 0x1_0000_0000_0000_0000 * s[1] + 0x1_0000_0000_0000_0000_0000_0000_0000_0000 * s[2]
        + 0x1_0000_0000_0000_0000_0000_0000_0000_0000_0000_0000_0000_0000 * s[3]
}

/// Limbs that hold the same integer are the same limbs.
proof fn lemma_limbs_injective(a: Seq<u64>, b: Seq<u64>)
    requires
        a.len() == 4,
        b.len() == 4,
        limbs_value(a) == limbs_value(b),
    ensures
        a == b,
{
    let w = 0x1_0000_0000_0000_0000int;
    let d2 = (a[2] - b[2]) + w * (a[3] - b[3]);
    let d1 = (a[1] - b[1]) + w * d2;
    assert((a[0] - b[0]) + w * d1 == 0);
    assert(d1 == 0 && a[0] == b[0]);
    assert(d2 == 0 && a[1] == b[1]);
    assert(a[2] == b[2] && a[3] == b[3]);
    assert(a =~= b);
}

/// The scalar product of two sequences, over the first `n` entries.
pub open spec fn dot(a: Seq<int>, b: Seq<int>, n: int) -> int
    decreases n,
{
    if n <= 0 {
        0
    } else {
        dot(a, b, n - 1) + a[n - 1] * b[n - 1]
    }
}

/// A group of prime order with its scalar field, given by the arithmetic on plain limbs.
pub trait Curve: Copy {
    /// The affine coordinates of a point, as plain limbs.
    type Coords: Copy + core::fmt::Debug;

    /// The number of elements of the group, a prime.
    spec fn order() -> int;

    /// The exponent of the point with the given coordinates: the `k` below the order for which the
    /// point is the `k`-th multiple of the generator, `None` where there is no such `k`.
    spec fn exponent(c: Self::Coords) -> Option<int>;

    /// The exponent of the point sampled from a seed.
    spec fn seeded(seed: Seq<u8>) -> int;

    /// The compressed encoding of the point with the given coordinates.
    spec fn encoding(c: Self::Coords) -> Seq<u8>;

    /// The length of every compressed encoding.
    spec fn encoding_len() -> int;

    proof fn order_exceeds_words()
        ensures
            0x1_0000_0000_0000_0000 < Self::order(),
    ;

    proof fn encoding_is_short()
        ensures
            0 < Self::encoding_len() <= 64,
    ;

    proof fn exponent_in_range(c: Self::Coords)
        ensures
            Self::exponent(c) matches Some(k) ==> 0 <= k < Self::order(),
    ;

    fn scalar_from_u64(n: u64) -> (r: [u64; 4])
        ensures
            limbs_value(r@) == n,
    ;

    fn scalar_add(a: &[u64; 4], b: &[u64; 4]) -> (r: [u64; 4])
        requires
            limbs_value(a@) < Self::order(),
            limbs_value(b@) < Self::order(),
        ensures
            limbs_value(r@) == (limbs_value(a@) + limbs_value(b@)) % Self::order(),
    ;

    fn scalar_sub(a: &[u64; 4], b: &[u64; 4]) -> (r: [u64; 4])
        requires
            limbs_value(a@) < Self::order(),
            limbs_value(b@) < Self::order(),
        ensures
            limbs_value(r@) == (limbs_value(a@) - limbs_value(b@)) % Self::order(),
    ;

    fn scalar_mul(a: &[u64; 4], b: &[u64; 4]) -> (r: [u64; 4])
        requires
            limbs_value(a@) < Self::order(),
            limbs_value(b@) < Self::order(),
        ensures
            limbs_value(r@) == (limbs_value(a@) * limbs_value(b@)) % Self::order(),
            limbs_value(r@) == 0 <==> limbs_value(a@) == 0 || limbs_value(b@) == 0,
    ;

    fn scalar_inverse(a: &[u64; 4]) -> (r: Option<[u64; 4]>)
        requires
            limbs_value(a@) < Self::order(),
        ensures
            match r {
                Some(i) => limbs_value(i@) < Self::order() && (limbs_value(a@) * limbs_value(i@))
                    % Self::order() == 1,
                None => limbs_value(a@) == 0,
            },
    ;

    fn scalar_pow(a: &[u64; 4], e: u64) -> (r: [u64; 4])
        requires
            limbs_value(a@) < Self::order(),
        ensures
            limbs_value(r@) == pow(limbs_value(a@), e as nat) % Self::order(),
    ;

    fn scalar_random(rng: &mut ChaCha20Rng) -> (r: [u64; 4])
        ensures
            limbs_value(r@) < Self::order(),
    ;

    fn point_zero() -> (r: Self::Coords)
        ensures
            Self::exponent(r) == Some(0int),
    ;

    fn point_add(p: &Self::Coords, q: &Self::Coords) -> (r: Self::Coords)
        requires
            Self::exponent(*p) is Some,
            Self::exponent(*q) is Some,
        ensures
            Self::exponent(r) == Some(
                (Self::exponent(*p)->0 + Self::exponent(*q)->0) % Self::order(),
            ),
    ;

    fn point_sub(p: &Self::Coords, q: &Self::Coords) -> (r: Self::Coords)
        requires
            Self::exponent(*p) is Some,
            Self::exponent(*q) is Some,
        ensures
            Self::exponent(r) == Some(
                (Self::exponent(*p)->0 - Self::exponent(*q)->0) % Self::order(),
            ),
    ;

    fn point_mul(p: &Self::Coords, s: &[u64; 4]) -> (r: Self::Coords)
        requires
            Self::exponent(*p) is Some,
            limbs_value(s@) < Self::order(),
        ensures
            Self::exponent(r) == Some(
                (Self::exponent(*p)->0 * limbs_value(s@)) % Self::order(),
            ),
    ;

    fn point_msm(bases: &Vec<Self::Coords>, scalars: &Vec<[u64; 4]>) -> (r: Self::Coords)
        requires
            bases.len() == scalars.len(),
            forall|i: int|
                0 <= i < bases.len() ==> Self::exponent(#[trigger] bases[i]) is Some,
            forall|i: int|
                0 <= i < scalars.len() ==> limbs_value(#[trigger] scalars[i]@) < Self::order(),
        ensures
            Self::exponent(r) == Some(
                dot(
                    bases@.map_values(
                        |c: Self::Coords| Self::exponent(c)->0,
                    ),
                    scalars@.map_values(|s: [u64; 4]| limbs_value(s@)),
                    bases.len() as int,
                ) % Self::order(),
            ),
    ;

    fn point_same(p: &Self::Coords, q: &Self::Coords) -> (r: bool)
        requires
            Self::exponent(*p) is Some,
            Self::exponent(*q) is Some,
        ensures
            r == (Self::exponent(*p) == Self::exponent(*q)),
    ;

    fn point_random(rng: &mut ChaCha20Rng) -> (r: Self::Coords)
        ensures
            Self::exponent(r) is Some,
    ;

    fn point_from_seed(seed: &[u8; 32]) -> (r: Self::Coords)
        ensures
            Self::exponent(r) == Some(Self::seeded(seed@)),
    ;

    fn point_bytes(p: &Self::Coords) -> (r: Vec<u8>)
        requires
            Self::exponent(*p) is Some,
        ensures
            r@ == Self::encoding(*p),
            r@.len() == Self::encoding_len(),
    ;

    fn encoded_size() -> (r: usize)
        ensures
            r == Self::encoding_len(),
    ;
}

/// An element of the scalar field of `C`.
#[derive(Debug)]
pub struct Scalar<C: Curve> {
    limbs: [u64; 4],
    curve: PhantomData<C>,
}

impl<C: Curve> Copy for Scalar<C> {

}

impl<C: Curve> Clone for Scalar<C> {
    fn clone(&self) -> (r: Self)
        ensures
            r == *self,
    {
        *self
    }
}

impl<C: Curve> PartialEq for Scalar<C> {
    fn eq(&self, other: &Self) -> (r: bool) {
        self.same(other)
    }
}

impl<C: Curve> vstd::std_specs::cmp::PartialEqSpecImpl for Scalar<C> {
    open spec fn obeys_eq_spec() -> bool {
        true
    }

    open spec fn eq_spec(&self, other: &Self) -> bool {
        self@ == other@
    }
}

impl<C: Curve> View for Scalar<C> {
    type V = int;

    /// The residue modulo the group order.
    closed spec fn view(&self) -> int {
        limbs_value(self.limbs@) % C::order()
    }
}

impl<C: Curve> Scalar<C> {
    #[verifier::type_invariant]
    spec fn reduced(self) -> bool {
        0 <= limbs_value(self.limbs@) < C::order()
    }

    /// A scalar is viewed as a residue in range.
    pub proof fn lemma_range(self)
        ensures
            0 <= self@ < C::order(),
            1 < C::order(),
    {
        C::order_exceeds_words();
        lemma_cong_mod(limbs_value(self.limbs@), C::order());
    }

    proof fn lemma_view(self)
        requires
            self.reduced(),
        ensures
            self@ == limbs_value(self.limbs@),
    {
        C::order_exceeds_words();
        lemma_cong_mod(limbs_value(self.limbs@), C::order());
        lemma_cong_eq(self@, limbs_value(self.limbs@), C::order());
    }

    pub(crate) fn wrap(limbs: [u64; 4]) -> (r: Self)
        requires
            0 <= limbs_value(limbs@) < C::order(),
        ensures
            r@ == limbs_value(limbs@),
    {
        let r = Scalar { limbs, curve: PhantomData };
        proof {
            r.lemma_view();
        }
        r
    }

    /// The residue of a machine word.
    pub fn from_u64(n: u64) -> (r: Self)
        ensures
            r@ == n,
    {
        proof {
            C::order_exceeds_words();
        }
        Scalar::wrap(C::scalar_from_u64(n))
    }

    pub fn zero() -> (r: Self)
        ensures
            r@ == 0,
    {
        Scalar::from_u64(0)
    }

    pub fn one() -> (r: Self)
        ensures
            r@ == 1,
    {
        Scalar::from_u64(1)
    }

    /// `self + other`.
    pub fn add(&self, other: &Self) -> (r: Self)
        ensures
            r@ == (self@ + other@) % C::order(),
    {
        proof {
            use_type_invariant(self);
            use_type_invariant(other);
            self.lemma_view();
            other.lemma_view();
            lemma_cong_mod(self@ + other@, C::order());
        }
        Scalar::wrap(C::scalar_add(&self.limbs, &other.limbs))
    }

    /// `self - other`.
    pub fn sub(&self, other: &Self) -> (r: Self)
        ensures
            r@ == (self@ - other@) % C::order(),
    {
        proof {
            use_type_invariant(self);
            use_type_invariant(other);
            self.lemma_view();
            other.lemma_view();
            lemma_cong_mod(self@ - other@, C::order());
        }
        Scalar::wrap(C::scalar_sub(&self.limbs, &other.limbs))
    }

    /// `-self`.
    pub fn neg(&self) -> (r: Self)
        ensures
            r@ == (-self@) % C::order(),
    {
        let zero = Scalar::zero();
        zero.sub(self)
    }

    /// `self * other`, zero only where a factor is.
    pub fn mul(&self, other: &Self) -> (r: Self)
        ensures
            r@ == (self@ * other@) % C::order(),
            r@ == 0 <==> self@ == 0 || other@ == 0,
    {
        proof {
            use_type_invariant(self);
            use_type_invariant(other);
            self.lemma_view();
            other.lemma_view();
            lemma_cong_mod(self@ * other@, C::order());
        }
        Scalar::wrap(C::scalar_mul(&self.limbs, &other.limbs))
    }

    /// The inverse of a nonzero scalar.
    pub fn inverse(&self) -> (r: Option<Self>)
        ensures
            match r {
                Some(i) => (self@ * i@) % C::order() == 1,
                None => self@ == 0,
            },
    {
        proof {
            use_type_invariant(self);
            self.lemma_view();
        }
        match C::scalar_inverse(&self.limbs) {
            Some(limbs) => Some(Scalar::wrap(limbs)),
            None => None,
        }
    }

    /// The `e`-th power.
    pub fn pow(&self, e: u64) -> (r: Self)
        ensures
            r@ == pow(self@, e as nat) % C::order(),
    {
        proof {
            use_type_invariant(self);
            self.lemma_view();
            lemma_cong_mod(pow(self@, e as nat), C::order());
        }
        Scalar::wrap(C::scalar_pow(&self.limbs, e))
    }

    /// A uniformly drawn scalar; nothing is known of its value.
    pub fn random(rng: &mut ChaCha20Rng) -> (r: Self) {
        Scalar::wrap(C::scalar_random(rng))
    }

    pub fn same(&self, other: &Self) -> (r: bool)
        ensures
            r == (self@ == other@),
    {
        proof {
            use_type_invariant(self);
            use_type_invariant(other);
            self.lemma_view();
            other.lemma_view();
            if self@ == other@ {
                lemma_limbs_injective(self.limbs@, other.limbs@);
            }
        }
        self.limbs[0] == other.limbs[0] && self.limbs[1] == other.limbs[1] && self.limbs[2]
            == other.limbs[2] && self.limbs[3] == other.limbs[3]
    }

    pub fn is_zero(&self) -> (r: bool)
        ensures
            r == (self@ == 0),
    {
        let zero = Scalar::zero();
        self.same(&zero)
    }
}

/// The bytes of four limbs, least significant first.
pub open spec fn limb_bytes(s: Seq<u64>) -> Seq<u8> {
    spec_u64_to_le_bytes(s[0]) + spec_u64_to_le_bytes(s[1]) + spec_u64_to_le_bytes(s[2])
        + spec_u64_to_le_bytes(s[3])
}

/// The little-endian encoding of a scalar, 32 bytes long.
pub closed spec fn scalar_encoded<C: Curve>(s: Scalar<C>) -> Seq<u8> {
    limb_bytes(s.limbs@)
}

/// The number that bytes hold, least significant first.
pub open spec fn little_endian(bytes: Seq<u8>) -> int
    decreases bytes.len(),
{
    if bytes.len() == 0 {
        0
    } else {
        bytes[0] + 256 * little_endian(bytes.drop_first())
    }
}

spec fn radix(n: nat) -> int
    decreases n,
{
    if n == 0 {
        1
    } else {
        256 * radix((n - 1) as nat)
    }
}

proof fn lemma_little_endian_concat(a: Seq<u8>, b: Seq<u8>)
    ensures
        little_endian(a + b) == little_endian(a) + radix(a.len()) * little_endian(b),
    decreases a.len(),
{
    if a.len() == 0 {
        assert(a + b =~= b);
    } else {
        let rest = a.drop_first();
        lemma_little_endian_concat(rest, b);
        assert((a + b).drop_first() =~= rest + b);
        let (r, l) = (radix(rest.len()), little_endian(b));
        assert(256 * (r * l) == (256 * r) * l) by (nonlinear_arith);
    }
}

proof fn lemma_word_bytes(x: u64)
    ensures
        spec_u64_to_le_bytes(x).len() == 8,
        little_endian(spec_u64_to_le_bytes(x)) == x,
{
    spec_u64_to_le_bytes_to_open(x);
    let b = spec_u64_to_le_bytes_open(x);
    assert((x & 0xff) < 256 && ((x >> 8) & 0xff) < 256 && ((x >> 16) & 0xff) < 256 && ((x >> 24)
        & 0xff) < 256 && ((x >> 32) & 0xff) < 256 && ((x >> 40) & 0xff) < 256 && ((x >> 48) & 0xff)
        < 256 && ((x >> 56) & 0xff) < 256) by (bit_vector);
    assert(x == (x & 0xff) + 0x100 * ((x >> 8) & 0xff) + 0x1_0000 * ((x >> 16) & 0xff) + 0x100_0000
        * ((x >> 24) & 0xff) + 0x1_0000_0000 * ((x >> 32) & 0xff) + 0x100_0000_0000 * ((x >> 40)
        & 0xff) + 0x1_0000_0000_0000 * ((x >> 48) & 0xff) + 0x100_0000_0000_0000 * ((x >> 56)
        & 0xff)) by (bit_vector);
    reveal_with_fuel(little_endian, 9);
}

/// The bytes of four limbs hold what the limbs hold.
proof fn lemma_limb_bytes(s: Seq<u64>)
    requires
        s.len() == 4,
    ensures
        limb_bytes(s).len() == 32,
        little_endian(limb_bytes(s)) == limbs_value(s),
{
    let (b0, b1, b2, b3) = (
        spec_u64_to_le_bytes(s[0]),
        spec_u64_to_le_bytes(s[1]),
        spec_u64_to_le_bytes(s[2]),
        spec_u64_to_le_bytes(s[3]),
    );
    lemma_word_bytes(s[0]);
    lemma_word_bytes(s[1]);
    lemma_word_bytes(s[2]);
    lemma_word_bytes(s[3]);
    let w = 0x1_0000_0000_0000_0000int;
    assert(radix(8) == w) by {
        reveal_with_fuel(radix, 9);
    }
    lemma_little_endian_concat(b2, b3);
    lemma_little_endian_concat(b1, b2 + b3);
    lemma_little_endian_concat(b0, b1 + (b2 + b3));
    assert(little_endian(b2 + b3) == s[2] + w * s[3]);
    assert(little_endian(b1 + (b2 + b3)) == s[1] + w * (s[2] + w * s[3]));
    assert(limb_bytes(s) =~= b0 + (b1 + (b2 + b3)));
    let v = little_endian(b0 + (b1 + (b2 + b3)));
    assert(v == s[0] + w * little_endian(b1 + (b2 + b3)));
    assert(v == s[0] + w * (s[1] + w * (s[2] + w * s[3])));
}

impl<C: Curve> Scalar<C> {
    /// The little-endian encoding.
    pub fn to_bytes(&self) -> (r: Vec<u8>)
        ensures
            r@ == scalar_encoded(*self),
            r@.len() == 32,
            little_endian(r@) == self@,
    {
        proof {
            use_type_invariant(self);
            self.lemma_view();
            lemma_limb_bytes(self.limbs@);
        }
        let mut r = u64_to_le_bytes(self.limbs[0]);
        let mut b1 = u64_to_le_bytes(self.limbs[1]);
        let mut b2 = u64_to_le_bytes(self.limbs[2]);
        let mut b3 = u64_to_le_bytes(self.limbs[3]);
        proof {
            lemma_auto_spec_u64_to_from_le_bytes();
        }
        r.append(&mut b1);
        r.append(&mut b2);
        r.append(&mut b3);
        r
    }

    /// The limbs, least significant first.
    pub fn to_limbs(&self) -> (r: [u64; 4])
        ensures
            limbs_value(r@) == self@,
            limb_bytes(r@) == scalar_encoded(*self),
    {
        proof {
            use_type_invariant(self);
            self.lemma_view();
        }
        self.limbs
    }
}

/// An element of the prime-order group of `C`.
#[derive(Debug)]
pub struct Point<C: Curve> {
    coords: C::Coords,
    curve: PhantomData<C>,
}

impl<C: Curve> Copy for Point<C> {

}

impl<C: Curve> Clone for Point<C> {
    fn clone(&self) -> (r: Self)
        ensures
            r == *self,
    {
        *self
    }
}

impl<C: Curve> PartialEq for Point<C> {
    fn eq(&self, other: &Self) -> (r: bool) {
        self.same(other)
    }
}

impl<C: Curve> vstd::std_specs::cmp::PartialEqSpecImpl for Point<C> {
    open spec fn obeys_eq_spec() -> bool {
        true
    }

    open spec fn eq_spec(&self, other: &Self) -> bool {
        self@ == other@
    }
}

impl<C: Curve> View for Point<C> {
    type V = int;

    /// The exponent with respect to the group's generator.
    closed spec fn view(&self) -> int {
        match C::exponent(self.coords) {
            Some(k) => k,
            None => 0,
        }
    }
}

/// The residues of a sequence of scalars.
pub open spec fn residues<C: Curve>(s: Seq<Scalar<C>>) -> Seq<int> {
    s.map_values(|x: Scalar<C>| x@)
}

/// The exponents of a sequence of points.
pub open spec fn exponents<C: Curve>(s: Seq<Point<C>>) -> Seq<int> {
    s.map_values(|p: Point<C>| p@)
}

/// The compressed encoding of a point.
pub closed spec fn encoded<C: Curve>(p: Point<C>) -> Seq<u8> {
    C::encoding(p.coords)
}

impl<C: Curve> Point<C> {
    #[verifier::type_invariant]
    spec fn in_group(self) -> bool {
        C::exponent(self.coords) is Some
    }

    /// A point is viewed as an exponent in range.
    pub proof fn lemma_range(self)
        ensures
            0 <= self@ < C::order(),
            1 < C::order(),
    {
        C::order_exceeds_words();
        C::exponent_in_range(self.coords);
    }

    pub(crate) fn wrap(coords: C::Coords) -> (r: Self)
        requires
            C::exponent(coords) is Some,
        ensures
            r@ == C::exponent(coords)->0,
    {
        Point { coords, curve: PhantomData }
    }

    /// The neutral element.
    pub fn zero() -> (r: Self)
        ensures
            r@ == 0,
    {
        Point::wrap(C::point_zero())
    }

    /// `self + other`.
    pub fn add(&self, other: &Self) -> (r: Self)
        ensures
            r@ == (self@ + other@) % C::order(),
    {
        proof {
            use_type_invariant(self);
            use_type_invariant(other);
        }
        Point::wrap(C::point_add(&self.coords, &other.coords))
    }

    /// `self - other`.
    pub fn sub(&self, other: &Self) -> (r: Self)
        ensures
            r@ == (self@ - other@) % C::order(),
    {
        proof {
            use_type_invariant(self);
            use_type_invariant(other);
        }
        Point::wrap(C::point_sub(&self.coords, &other.coords))
    }

    /// The `s`-th multiple of `self`.
    pub fn mul(&self, s: &Scalar<C>) -> (r: Self)
        ensures
            r@ == (self@ * s@) % C::order(),
    {
        proof {
            use_type_invariant(self);
            use_type_invariant(s);
            s.lemma_view();
        }
        Point::wrap(C::point_mul(&self.coords, &s.limbs))
    }

    /// The sum of the `bases`, each multiplied by the scalar beside it.
    pub fn msm(bases: &Vec<Point<C>>, scalars: &Vec<Scalar<C>>) -> (r: Self)
        requires
            bases.len() == scalars.len(),
        ensures
            r@ == dot(exponents(bases@), residues(scalars@), bases.len() as int) % C::order(),
    {
        let mut coords: Vec<C::Coords> = Vec::new();
        let mut limbs: Vec<[u64; 4]> = Vec::new();
        for i in 0..bases.len()
            invariant
                bases.len() == scalars.len(),
                coords.len() == i,
                limbs.len() == i,
                forall|k: int|
                    0 <= k < i ==> {
                        &&& #[trigger] coords[k] == bases[k].coords
                        &&& C::exponent(coords[k]) == Some(
                            bases[k]@,
                        )
                    },
                forall|k: int|
                    0 <= k < i ==> {
                        &&& #[trigger] limbs[k] == scalars[k].limbs
                        &&& limbs_value(limbs[k]@) == scalars[k]@
                        &&& scalars[k]@ < C::order()
                    },
        {
            let p = &bases[i];
            let s = &scalars[i];
            proof {
                use_type_invariant(p);
                use_type_invariant(s);
                s.lemma_view();
                s.lemma_range();
            }
            coords.push(p.coords);
            limbs.push(s.limbs);
        }
        let r = Point::wrap(C::point_msm(&coords, &limbs));
        proof {
            assert(coords@.map_values(|c: C::Coords| C::exponent(c)->0)
                =~= exponents(bases@));
            assert(limbs@.map_values(|s: [u64; 4]| limbs_value(s@)) =~= residues(scalars@));
        }
        r
    }

    pub fn same(&self, other: &Self) -> (r: bool)
        ensures
            r == (self@ == other@),
    {
        proof {
            use_type_invariant(self);
            use_type_invariant(other);
        }
        C::point_same(&self.coords, &other.coords)
    }

    pub fn is_zero(&self) -> (r: bool)
        ensures
            r == (self@ == 0),
    {
        let zero = Point::zero();
        self.same(&zero)
    }

    /// A uniformly drawn point; nothing is known of its exponent.
    pub fn random(rng: &mut ChaCha20Rng) -> (r: Self) {
        Point::wrap(C::point_random(rng))
    }

    /// The point that a seed determines.
    pub fn from_seed(seed: &[u8; 32]) -> (r: Self)
        ensures
            r@ == C::seeded(seed@),
    {
        Point::wrap(C::point_from_seed(seed))
    }

    pub(crate) fn to_coords(&self) -> (r: C::Coords)
        ensures
            C::exponent(r) == Some(self@),
    {
        proof {
            use_type_invariant(self);
        }
        self.coords
    }

    /// The compressed encoding.
    pub fn to_bytes(&self) -> (r: Vec<u8>)
        ensures
            r@ == encoded(*self),
            r@.len() == C::encoding_len(),
    {
        proof {
            use_type_invariant(self);
        }
        C::point_bytes(&self.coords)
    }
}

} // verus!
