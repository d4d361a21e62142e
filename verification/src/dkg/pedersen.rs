//! Four-generator Pedersen commitments with masks.
//!
//! A dealer encodes two pairs of secrets and two pairs of masks in four polynomials, `f` with
//! `f(-1) = x1`, `f(-2) = y1`, `g` with `g(-1) = x2`, `g(-2) = y2`, and the masks `f'` and `g'`. For
//! each coefficient it publishes the commitment `g1^a h1^b g2^a' h2^b'` to the four coefficients.
//! Receiver `j` gets the values of the four polynomials at `j` and checks that they commit to the
//! value at `j` of the polynomial of commitments.
use crate::algebra::{
    cong, lemma_cong_add, lemma_cong_eq, lemma_cong_mod, lemma_cong_mul, lemma_cong_small,
    lemma_cong_sub, lemma_poly_cong, lemma_poly_linear, lemma_poly_monomials, poly, sum,
};
use crate::curve::{dot, exponents, residues, Curve, Point, Scalar};
use crate::dkg::errors::VssError;
use crate::dkg::mss::MSSPolynomial;
use crate::hash::{derived, hash_to_group};
use rand_chacha::ChaCha20Rng;
use vstd::arithmetic::power::{lemma_pow0, pow};
use vstd::prelude::*;

verus! {

/// Domain separator of the generators.
pub const PERSONALIZATION: &'static str = "DMKGPEDR";

/// Four generators with unknown mutual discrete logarithms: `g1` and `g2` commit to the two
/// secrets, `h1` and `h2` to their masks.
#[derive(Debug)]
pub struct PedersenGenerators<C: Curve> {
    pub g1: Point<C>,
    pub g2: Point<C>,
    pub h1: Point<C>,
    pub h2: Point<C>,
}

impl<C: Curve> Copy for PedersenGenerators<C> {

}

impl<C: Curve> Clone for PedersenGenerators<C> {
    fn clone(&self) -> (r: Self)
        ensures
            r == *self,
    {
        *self
    }
}

impl<C: Curve> PedersenGenerators<C> {
    /// The exponent of `g1^a h1^b g2^a' h2^b'`, before reduction.
    pub open spec fn commitment(self, a: int, b: int, a_prime: int, b_prime: int) -> int {
        self.g1@ * a + self.h1@ * b + self.g2@ * a_prime + self.h2@ * b_prime
    }

    /// The generators, each hashed from its own seed.
    pub fn setup() -> (r: Result<Self, VssError>)
        ensures
            r matches Ok(gens) && {
                &&& gens.g1@ == derived::<C>(PERSONALIZATION@, "pedersen-g1"@)
                &&& gens.g2@ == derived::<C>(PERSONALIZATION@, "pedersen-g2"@)
                &&& gens.h1@ == derived::<C>(PERSONALIZATION@, "pedersen-h1"@)
                &&& gens.h2@ == derived::<C>(PERSONALIZATION@, "pedersen-h2"@)
            },
    {
        proof {
            reveal_strlit("DMKGPEDR");
            broadcast use vstd::string::group_string_axioms;
            assert(PERSONALIZATION.is_ascii());
        }
        let tag = PERSONALIZATION.as_bytes();
        let g1 = hash_to_group(tag, "pedersen-g1".as_bytes())?;
        let g2 = hash_to_group(tag, "pedersen-g2".as_bytes())?;
        let h1 = hash_to_group(tag, "pedersen-h1".as_bytes())?;
        let h2 = hash_to_group(tag, "pedersen-h2".as_bytes())?;
        Ok(PedersenGenerators { g1, g2, h1, h2 })
    }

    /// The commitment `g1^a h1^b g2^a' h2^b'`.
    pub fn commit(
        &self,
        a: &Scalar<C>,
        b: &Scalar<C>,
        a_prime: &Scalar<C>,
        b_prime: &Scalar<C>,
    ) -> (r: Point<C>)
        ensures
            r@ == self.commitment(a@, b@, a_prime@, b_prime@) % C::order(),
    {
        let bases = vec![self.g1, self.h1, self.g2, self.h2];
        let scalars = vec![*a, *b, *a_prime, *b_prime];
        proof {
            reveal_with_fuel(dot, 5);
            let (e, s) = (exponents(bases@), residues(scalars@));
            assert(e =~= seq![self.g1@, self.h1@, self.g2@, self.h2@]);
            assert(s =~= seq![a@, b@, a_prime@, b_prime@]);
        }
        Point::msm(&bases, &scalars)
    }
}

/// One receiver's values `(f(j), f'(j), g(j), g'(j))` of the four polynomials.
#[derive(Debug)]
pub struct PedersenShare<C: Curve> {
    pub sf: Scalar<C>,
    pub sf_prime: Scalar<C>,
    pub sg: Scalar<C>,
    pub sg_prime: Scalar<C>,
}

impl<C: Curve> Copy for PedersenShare<C> {

}

impl<C: Curve> Clone for PedersenShare<C> {
    fn clone(&self) -> (r: Self)
        ensures
            r == *self,
    {
        *self
    }
}

impl<C: Curve> PedersenShare<C> {
    /// The share with its first component off by `delta`.
    pub open spec fn shifts(self, from: Self, delta: int) -> bool {
        &&& self.sf@ == (from.sf@ + delta) % C::order()
        &&& self.sf_prime == from.sf_prime
        &&& self.sg == from.sg
        &&& self.sg_prime == from.sg_prime
    }

    /// Adds `delta` to the first component, as a cheating dealer does.
    pub fn shifted(&self, delta: &Scalar<C>) -> (r: Self)
        ensures
            r.shifts(*self, delta@),
    {
        PedersenShare { sf: self.sf.add(delta), ..*self }
    }
}

/// A dealer's public output: the commitments per coefficient, and the shares, of which that at
/// index `i` is for receiver `i + 1`.
#[derive(Debug)]
pub struct PedersenDistribution<C: Curve> {
    pub commitments: Vec<Point<C>>,
    pub shares: Vec<PedersenShare<C>>,
}

/// What the dealer keeps behind a [`PedersenDistribution`]: the secrets and the four polynomials.
#[derive(Debug)]
pub struct PedersenDealerSecrets<C: Curve> {
    pub x1: Scalar<C>,
    pub x2: Scalar<C>,
    pub y1: Scalar<C>,
    pub y2: Scalar<C>,
    pub f: MSSPolynomial<C>,
    pub g: MSSPolynomial<C>,
    pub f_prime: MSSPolynomial<C>,
    pub g_prime: MSSPolynomial<C>,
}

impl<C: Curve> PedersenDealerSecrets<C> {
    /// The four polynomials have degree `degree`, and `f` and `g` take the secrets at `-1` and
    /// `-2`.
    pub open spec fn pinned(self, degree: int) -> bool {
        let m = C::order();
        let (f, g) = (self.f.coefficients(), self.g.coefficients());
        &&& f.len() == g.len() == degree + 1
        &&& self.f_prime.coefficients().len() == degree + 1
        &&& self.g_prime.coefficients().len() == degree + 1
        &&& poly(f, -1) % m == self.x1@
        &&& poly(f, -2) % m == self.y1@
        &&& poly(g, -1) % m == self.x2@
        &&& poly(g, -2) % m == self.y2@
    }
}

/// The share check of receiver `j`: the share commits to the value at `j` of the polynomial whose
/// coefficients the commitments are.
pub open spec fn share_checks<C: Curve>(
    generators: PedersenGenerators<C>,
    commitments: Seq<int>,
    j: int,
    share: PedersenShare<C>,
) -> bool {
    cong(
        generators.commitment(share.sf@, share.sf_prime@, share.sg@, share.sg_prime@),
        poly(commitments, j),
        C::order(),
    )
}

impl<C: Curve> PedersenDistribution<C> {
    /// The commitments are those to the coefficients of the four polynomials, the shares their
    /// values at `1, 2, ..`.
    pub open spec fn deals(
        self,
        generators: PedersenGenerators<C>,
        secrets: PedersenDealerSecrets<C>,
    ) -> bool {
        &&& self.commits(generators, secrets)
        &&& self.shares_of(secrets)
    }

    /// The commitments are those to the coefficients of the four polynomials.
    pub open spec fn commits(
        self,
        generators: PedersenGenerators<C>,
        secrets: PedersenDealerSecrets<C>,
    ) -> bool {
        let (f, g) = (secrets.f.coefficients(), secrets.g.coefficients());
        let (fp, gp) = (secrets.f_prime.coefficients(), secrets.g_prime.coefficients());
        &&& self.commitments.len() == f.len() == g.len()
        &&& fp.len() == f.len()
        &&& gp.len() == f.len()
        &&& forall|k: int|
            0 <= k < f.len() ==> #[trigger] self.commitments[k]@ == generators.commitment(
                f[k],
                fp[k],
                g[k],
                gp[k],
            ) % C::order()
    }

    /// The shares are the values of the four polynomials at `1, 2, ..`.
    pub open spec fn shares_of(self, secrets: PedersenDealerSecrets<C>) -> bool {
        forall|i: int|
            0 <= i < self.shares.len() ==> is_share(#[trigger] self.shares[i], secrets, i + 1)
    }
}

/// The share holds the values of the four polynomials at `j`.
pub open spec fn is_share<C: Curve>(
    share: PedersenShare<C>,
    secrets: PedersenDealerSecrets<C>,
    j: int,
) -> bool {
    let m = C::order();
    &&& share.sf@ == poly(secrets.f.coefficients(), j) % m
    &&& share.sf_prime@ == poly(secrets.f_prime.coefficients(), j) % m
    &&& share.sg@ == poly(secrets.g.coefficients(), j) % m
    &&& share.sg_prime@ == poly(secrets.g_prime.coefficients(), j) % m
}

/// A four-term combination of polynomials is evaluated term by term.
proof fn lemma_combination(
    w: Seq<int>,
    p: Seq<int>,
    q: Seq<int>,
    r: Seq<int>,
    s: Seq<int>,
    c: (int, int, int, int),
    x: int,
)
    requires
        w.len() == p.len() == q.len() == r.len() == s.len(),
        forall|k: int|
            0 <= k < w.len() ==> #[trigger] w[k] == c.0 * p[k] + c.1 * q[k] + c.2 * r[k] + c.3
                * s[k],
    ensures
        poly(w, x) == c.0 * poly(p, x) + c.1 * poly(q, x) + c.2 * poly(r, x) + c.3 * poly(s, x),
{
    let u = Seq::new(w.len(), |k: int| c.0 * p[k] + c.1 * q[k]);
    let v = Seq::new(w.len(), |k: int| c.2 * r[k] + c.3 * s[k]);
    lemma_poly_linear(p, q, u, c.0, c.1, x);
    lemma_poly_linear(r, s, v, c.2, c.3, x);
    assert forall|k: int| 0 <= k < w.len() implies #[trigger] w[k] == 1 * u[k] + 1 * v[k] by {
        assert(w[k] == c.0 * p[k] + c.1 * q[k] + c.2 * r[k] + c.3 * s[k]);
    }
    lemma_poly_linear(u, v, w, 1, 1, x);
}

/// The polynomial of the commitments takes at `x` the commitment to the values there.
pub proof fn lemma_commitments_evaluate<C: Curve>(
    dist: PedersenDistribution<C>,
    generators: PedersenGenerators<C>,
    secrets: PedersenDealerSecrets<C>,
    x: int,
)
    requires
        dist.commits(generators, secrets),
    ensures
        cong(
            poly(exponents(dist.commitments@), x),
            generators.commitment(
                poly(secrets.f.coefficients(), x),
                poly(secrets.f_prime.coefficients(), x),
                poly(secrets.g.coefficients(), x),
                poly(secrets.g_prime.coefficients(), x),
            ),
            C::order(),
        ),
{
    let m = C::order();
    let (f, g) = (secrets.f.coefficients(), secrets.g.coefficients());
    let (fp, gp) = (secrets.f_prime.coefficients(), secrets.g_prime.coefficients());
    let cms = exponents(dist.commitments@);
    let c = (generators.g1@, generators.h1@, generators.g2@, generators.h2@);
    let w = Seq::new(f.len(), |k: int| generators.commitment(f[k], fp[k], g[k], gp[k]));
    C::order_exceeds_words();
    lemma_combination(w, f, fp, g, gp, c, x);
    assert forall|k: int| 0 <= k < cms.len() implies cong(#[trigger] cms[k], w[k], m) by {
        assert(cms[k] == dist.commitments[k]@);
        lemma_cong_mod(w[k], m);
    }
    lemma_poly_cong(cms, w, x, x, m);
}

/// Commitments to congruent values are congruent.
pub proof fn lemma_commitment_cong<C: Curve>(
    generators: PedersenGenerators<C>,
    a: (int, int, int, int),
    b: (int, int, int, int),
)
    requires
        cong(a.0, b.0, C::order()),
        cong(a.1, b.1, C::order()),
        cong(a.2, b.2, C::order()),
        cong(a.3, b.3, C::order()),
    ensures
        cong(
            generators.commitment(a.0, a.1, a.2, a.3),
            generators.commitment(b.0, b.1, b.2, b.3),
            C::order(),
        ),
{
    let m = C::order();
    C::order_exceeds_words();
    let (g1, h1, g2, h2) = (generators.g1@, generators.h1@, generators.g2@, generators.h2@);
    lemma_cong_mul(g1, g1, a.0, b.0, m);
    lemma_cong_mul(h1, h1, a.1, b.1, m);
    lemma_cong_mul(g2, g2, a.2, b.2, m);
    lemma_cong_mul(h2, h2, a.3, b.3, m);
    lemma_cong_add(g1 * a.0, g1 * b.0, h1 * a.1, h1 * b.1, m);
    lemma_cong_add(g1 * a.0 + h1 * a.1, g1 * b.0 + h1 * b.1, g2 * a.2, g2 * b.2, m);
    lemma_cong_add(
        g1 * a.0 + h1 * a.1 + g2 * a.2,
        g1 * b.0 + h1 * b.1 + g2 * b.2,
        h2 * a.3,
        h2 * b.3,
        m,
    );
}

/// Every share of an honest dealer checks, whatever receiver it is for.
pub proof fn law_honest_share_checks<C: Curve>(
    dist: PedersenDistribution<C>,
    generators: PedersenGenerators<C>,
    secrets: PedersenDealerSecrets<C>,
    share: PedersenShare<C>,
    j: int,
)
    requires
        dist.commits(generators, secrets),
        is_share(share, secrets, j),
    ensures
        share_checks(generators, exponents(dist.commitments@), j, share),
{
    let m = C::order();
    C::order_exceeds_words();
    let (f, g) = (poly(secrets.f.coefficients(), j), poly(secrets.g.coefficients(), j));
    let (fp, gp) = (
        poly(secrets.f_prime.coefficients(), j),
        poly(secrets.g_prime.coefficients(), j),
    );
    lemma_cong_mod(f, m);
    lemma_cong_mod(fp, m);
    lemma_cong_mod(g, m);
    lemma_cong_mod(gp, m);
    lemma_commitment_cong(
        generators,
        (share.sf@, share.sf_prime@, share.sg@, share.sg_prime@),
        (f, fp, g, gp),
    );
    lemma_commitments_evaluate(dist, generators, secrets, j);
}

/// Against the same commitments, a share put in the place of one that checks is accepted only where
/// it opens the same commitment.
pub proof fn law_substituted_share_checks<C: Curve>(
    generators: PedersenGenerators<C>,
    commitments: Seq<int>,
    j: int,
    share: PedersenShare<C>,
    other: PedersenShare<C>,
)
    requires
        share_checks(generators, commitments, j, share),
    ensures
        share_checks(generators, commitments, j, other) <==> cong(
            generators.commitment(other.sf@, other.sf_prime@, other.sg@, other.sg_prime@),
            generators.commitment(share.sf@, share.sf_prime@, share.sg@, share.sg_prime@),
            C::order(),
        ),
{
}

/// A cheating dealer is detected: in the place of a share that checks, one shifted by `delta` checks
/// only where `g1^delta` is the neutral element.
pub proof fn law_shifted_share_detected<C: Curve>(
    generators: PedersenGenerators<C>,
    commitments: Seq<int>,
    j: int,
    share: PedersenShare<C>,
    other: PedersenShare<C>,
    delta: int,
)
    requires
        share_checks(generators, commitments, j, share),
        other.shifts(share, delta),
    ensures
        share_checks(generators, commitments, j, other) <==> cong(
            generators.g1@ * delta,
            0,
            C::order(),
        ),
{
    let m = C::order();
    C::order_exceeds_words();
    let g1 = generators.g1@;
    let a = generators.commitment(share.sf@, share.sf_prime@, share.sg@, share.sg_prime@);
    let b = generators.commitment(other.sf@, other.sf_prime@, other.sg@, other.sg_prime@);
    lemma_cong_mod(share.sf@ + delta, m);
    lemma_cong_mul(g1, g1, other.sf@, share.sf@ + delta, m);
    assert(g1 * (share.sf@ + delta) == g1 * share.sf@ + g1 * delta) by (nonlinear_arith);
    let rest = a - g1 * share.sf@;
    lemma_cong_add(g1 * other.sf@, g1 * share.sf@ + g1 * delta, rest, rest, m);
    assert(cong(b, a + g1 * delta, m));
    if cong(g1 * delta, 0, m) {
        lemma_cong_add(a, a, g1 * delta, 0, m);
    }
    if cong(b, a, m) {
        lemma_cong_sub(a + g1 * delta, a, a, a, m);
    }
}

/// The value at `j` of the polynomial whose coefficients the commitments are, in the exponent.
pub fn commitment_at<C: Curve>(commitments: &[Point<C>], j: usize) -> (r: Point<C>)
    ensures
        r@ == poly(exponents(commitments@), j as int) % C::order(),
{
    let ghost m = C::order();
    let ghost c = exponents(commitments@);
    let ghost t = |k: int| c[k] * pow(j as int, k as nat);
    let j_scalar: Scalar<C> = Scalar::from_u64(j as u64);
    let mut acc: Point<C> = Point::zero();
    let mut power: Scalar<C> = Scalar::one();
    proof {
        C::order_exceeds_words();
        lemma_pow0(j as int);
    }
    for i in 0..commitments.len()
        invariant
            m == C::order(),
            m > 1,
            c == exponents(commitments@),
            t == (|k: int| c[k] * pow(j as int, k as nat)),
            j_scalar@ == j,
            cong(power@, pow(j as int, i as nat), m),
            cong(acc@, sum(t, 0, i as int), m),
    {
        let term = commitments[i].mul(&power);
        let ghost (p, a) = (power@, acc@);
        acc = acc.add(&term);
        power = power.mul(&j_scalar);
        proof {
            let q = pow(j as int, i as nat);
            assert(c[i as int] == commitments[i as int]@);
            lemma_cong_mul(c[i as int], c[i as int], p, q, m);
            lemma_cong_mod(c[i as int] * p, m);
            lemma_cong_add(a, sum(t, 0, i as int), term@, t(i as int), m);
            lemma_cong_mod(a + term@, m);
            reveal(pow);
            lemma_cong_mul(p, q, j as int, j as int, m);
            lemma_cong_mod(p * j as int, m);
            assert(q * (j as int) == (j as int) * q) by (nonlinear_arith);
            assert(pow(j as int, (i + 1) as nat) == (j as int) * q);
        }
    }
    proof {
        lemma_poly_monomials(c, j as int, c.len() as int);
        assert(c.take(c.len() as int) =~= c);
        acc.lemma_range();
        lemma_cong_mod(poly(c, j as int), m);
        lemma_cong_eq(acc@, poly(c, j as int) % m, m);
    }
    acc
}

impl<C: Curve> PedersenDistribution<C> {
    /// The distribution to `num_receivers` receivers of the four polynomials.
    pub fn of_polynomials(
        generators: &PedersenGenerators<C>,
        secrets: &PedersenDealerSecrets<C>,
        num_receivers: usize,
    ) -> (r: Self)
        requires
            secrets.f.coeffs.len() == secrets.g.coeffs.len(),
            secrets.f.coeffs.len() == secrets.f_prime.coeffs.len(),
            secrets.f.coeffs.len() == secrets.g_prime.coeffs.len(),
        ensures
            r.deals(*generators, *secrets),
            r.shares.len() == num_receivers,
    {
        let mut commitments: Vec<Point<C>> = Vec::new();
        let ghost (f, g) = (secrets.f.coefficients(), secrets.g.coefficients());
        let ghost (fp, gp) = (secrets.f_prime.coefficients(), secrets.g_prime.coefficients());
        for k in 0..secrets.f.coeffs.len()
            invariant
                f == secrets.f.coefficients(),
                g == secrets.g.coefficients(),
                fp == secrets.f_prime.coefficients(),
                gp == secrets.g_prime.coefficients(),
                f.len() == g.len() == fp.len() == gp.len(),
                commitments.len() == k,
                forall|i: int|
                    0 <= i < k ==> #[trigger] commitments[i]@ == generators.commitment(
                        f[i],
                        fp[i],
                        g[i],
                        gp[i],
                    ) % C::order(),
        {
            let cm = generators.commit(
                &secrets.f.coeffs[k],
                &secrets.f_prime.coeffs[k],
                &secrets.g.coeffs[k],
                &secrets.g_prime.coeffs[k],
            );
            commitments.push(cm);
        }
        let sf = secrets.f.shares(num_receivers);
        let sf_prime = secrets.f_prime.shares(num_receivers);
        let sg = secrets.g.shares(num_receivers);
        let sg_prime = secrets.g_prime.shares(num_receivers);
        let mut shares: Vec<PedersenShare<C>> = Vec::new();
        for i in 0..num_receivers
            invariant
                sf.len() == num_receivers,
                sf_prime.len() == num_receivers,
                sg.len() == num_receivers,
                sg_prime.len() == num_receivers,
                shares.len() == i,
                forall|k: int|
                    0 <= k < i ==> {
                        let s = #[trigger] shares[k];
                        &&& s.sf == sf[k]
                        &&& s.sf_prime == sf_prime[k]
                        &&& s.sg == sg[k]
                        &&& s.sg_prime == sg_prime[k]
                    },
        {
            shares.push(
                PedersenShare {
                    sf: sf[i],
                    sf_prime: sf_prime[i],
                    sg: sg[i],
                    sg_prime: sg_prime[i],
                },
            );
        }
        PedersenDistribution { commitments, shares }
    }

    /// Deals the chosen secrets `(x1, x2, y1, y2)`; the masks and the free coefficients are drawn
    /// at random.
    pub fn deal_with_secrets(
        generators: &PedersenGenerators<C>,
        degree: usize,
        num_receivers: usize,
        secrets: (Scalar<C>, Scalar<C>, Scalar<C>, Scalar<C>),
        rng: &mut ChaCha20Rng,
    ) -> (r: Result<(Self, PedersenDealerSecrets<C>), VssError>)
        requires
            degree < usize::MAX,
        ensures
            match r {
                Ok((dist, kept)) => {
                    &&& degree >= 1
                    &&& (kept.x1, kept.x2, kept.y1, kept.y2) == secrets
                    &&& kept.pinned(degree as int)
                    &&& dist.deals(*generators, kept)
                    &&& dist.shares.len() == num_receivers
                },
                Err(e) => degree < 1 && e == VssError::InsufficientDegree(degree),
            },
    {
        let (x1, x2, y1, y2) = secrets;
        let beta1 = Scalar::random(rng);
        let beta2 = Scalar::random(rng);
        let beta3 = Scalar::random(rng);
        let beta4 = Scalar::random(rng);
        let f = MSSPolynomial::sample(degree, x1, y1, rng)?;
        let g = MSSPolynomial::sample(degree, x2, y2, rng)?;
        let f_prime = MSSPolynomial::sample(degree, beta1, beta2, rng)?;
        let g_prime = MSSPolynomial::sample(degree, beta3, beta4, rng)?;
        let kept = PedersenDealerSecrets { x1, x2, y1, y2, f, g, f_prime, g_prime };
        let dist = Self::of_polynomials(generators, &kept, num_receivers);
        Ok((dist, kept))
    }

    /// Deals secrets drawn at random.
    pub fn deal(
        generators: &PedersenGenerators<C>,
        degree: usize,
        num_receivers: usize,
        rng: &mut ChaCha20Rng,
    ) -> (r: Result<(Self, PedersenDealerSecrets<C>), VssError>)
        requires
            degree < usize::MAX,
        ensures
            match r {
                Ok((dist, kept)) => {
                    &&& degree >= 1
                    &&& kept.pinned(degree as int)
                    &&& dist.deals(*generators, kept)
                    &&& dist.shares.len() == num_receivers
                },
                Err(e) => degree < 1 && e == VssError::InsufficientDegree(degree),
            },
    {
        let secrets = (
            Scalar::random(rng),
            Scalar::random(rng),
            Scalar::random(rng),
            Scalar::random(rng),
        );
        Self::deal_with_secrets(generators, degree, num_receivers, secrets, rng)
    }

    /// The check of receiver `j`, as one multi-scalar multiplication that must vanish.
    pub fn verify_share(
        generators: &PedersenGenerators<C>,
        commitments: &[Point<C>],
        j: usize,
        share: &PedersenShare<C>,
    ) -> (r: Result<(), VssError>)
        ensures
            match r {
                Ok(_) => share_checks(*generators, exponents(commitments@), j as int, *share),
                Err(e) => !share_checks(*generators, exponents(commitments@), j as int, *share)
                    && e == VssError::ShareCheck(j),
            },
    {
        let ghost m = C::order();
        let ghost c = exponents(commitments@);
        let ghost t = |k: int| c[k] * pow(j as int, k as nat);
        let ghost opened = generators.commitment(
            share.sf@,
            share.sf_prime@,
            share.sg@,
            share.sg_prime@,
        );
        let j_scalar: Scalar<C> = Scalar::from_u64(j as u64);
        let mut bases = vec![generators.g1, generators.h1, generators.g2, generators.h2];
        let mut scalars = vec![share.sf, share.sf_prime, share.sg, share.sg_prime];
        let mut power: Scalar<C> = Scalar::one();
        proof {
            C::order_exceeds_words();
            lemma_pow0(j as int);
            reveal_with_fuel(dot, 5);
            assert(exponents(bases@) =~= seq![
                generators.g1@,
                generators.h1@,
                generators.g2@,
                generators.h2@,
            ]);
            assert(residues(scalars@) =~= seq![
                share.sf@,
                share.sf_prime@,
                share.sg@,
                share.sg_prime@,
            ]);
        }
        for i in 0..commitments.len()
            invariant
                m == C::order(),
                m > 1,
                c == exponents(commitments@),
                t == (|k: int| c[k] * pow(j as int, k as nat)),
                j_scalar@ == j,
                bases.len() == i + 4,
                scalars.len() == i + 4,
                cong(power@, pow(j as int, i as nat), m),
                cong(
                    dot(exponents(bases@), residues(scalars@), i + 4),
                    opened - sum(t, 0, i as int),
                    m,
                ),
        {
            let negated = power.neg();
            let ghost (e0, s0) = (exponents(bases@), residues(scalars@));
            bases.push(commitments[i]);
            scalars.push(negated);
            let ghost p = power@;
            power = power.mul(&j_scalar);
            proof {
                let (e1, s1) = (exponents(bases@), residues(scalars@));
                let n = i + 4;
                assert(e1 =~= e0.push(c[i as int]));
                assert(s1 =~= s0.push(negated@));
                lemma_dot_prefix(e0, s0, e1, s1, n);
                let (ci, q) = (c[i as int], pow(j as int, i as nat));
                lemma_cong_mod(-p, m);
                lemma_cong_sub(0, 0, p, q, m);
                lemma_cong_mul(ci, ci, negated@, -q, m);
                assert(ci * (-q) == -(ci * q)) by (nonlinear_arith);
                lemma_cong_add(dot(e0, s0, n), opened - sum(t, 0, i as int), ci * negated@, -(ci * q), m);
                reveal(pow);
                lemma_cong_mul(p, q, j as int, j as int, m);
                lemma_cong_mod(p * j as int, m);
                assert(q * (j as int) == (j as int) * q) by (nonlinear_arith);
                assert(pow(j as int, (i + 1) as nat) == (j as int) * q);
            }
        }
        let product = Point::msm(&bases, &scalars);
        proof {
            let total = dot(exponents(bases@), residues(scalars@), bases.len() as int);
            let value = poly(c, j as int);
            lemma_poly_monomials(c, j as int, c.len() as int);
            assert(c.take(c.len() as int) =~= c);
            lemma_cong_small(0, m);
            if product@ == 0 {
                lemma_cong_add(opened - value, 0, value, value, m);
            } else if cong(opened, value, m) {
                lemma_cong_sub(opened, value, value, value, m);
            }
        }
        if !product.is_zero() {
            return Err(VssError::ShareCheck(j));
        }
        Ok(())
    }

    /// Checks every receiver's share; the error names the first receiver whose share fails.
    pub fn verify_all(&self, generators: &PedersenGenerators<C>) -> (r: Result<(), VssError>)
        ensures
            match r {
                Ok(_) => forall|i: int|
                    0 <= i < self.shares.len() ==> share_checks(
                        *generators,
                        exponents(self.commitments@),
                        i + 1,
                        #[trigger] self.shares[i],
                    ),
                Err(VssError::ShareCheck(j)) => {
                    &&& 1 <= j <= self.shares.len()
                    &&& !share_checks(
                        *generators,
                        exponents(self.commitments@),
                        j as int,
                        self.shares[j - 1],
                    )
                    &&& forall|i: int|
                        0 <= i < j - 1 ==> share_checks(
                            *generators,
                            exponents(self.commitments@),
                            i + 1,
                            #[trigger] self.shares[i],
                        )
                },
                Err(_) => false,
            },
    {
        for i in 0..self.shares.len()
            invariant
                forall|k: int|
                    0 <= k < i ==> share_checks(
                        *generators,
                        exponents(self.commitments@),
                        k + 1,
                        #[trigger] self.shares[k],
                    ),
        {
            let checked = Self::verify_share(
                generators,
                self.commitments.as_slice(),
                i + 1,
                &self.shares[i],
            );
            if let Err(e) = checked {
                return Err(e);
            }
        }
        Ok(())
    }
}

/// The scalar product over a prefix depends on the prefix alone.
proof fn lemma_dot_prefix(a: Seq<int>, b: Seq<int>, c: Seq<int>, d: Seq<int>, n: int)
    requires
        n <= a.len() <= c.len(),
        n <= b.len() <= d.len(),
        forall|i: int| 0 <= i < n ==> #[trigger] a[i] == c[i],
        forall|i: int| 0 <= i < n ==> #[trigger] b[i] == d[i],
    ensures
        dot(a, b, n) == dot(c, d, n),
    decreases n,
{
    if n > 0 {
        lemma_dot_prefix(a, b, c, d, n - 1);
    }
}

} // verus!
