//! A single-secret key generation with Feldman commitments and disputed complaints.
//!
//! A dealer shares one secret `s` by a polynomial with `f(0) = s` and publishes `g^a` for each
//! coefficient `a`. The public key is `h^sk` for the sum `sk` of the qualified dealers' secrets.
//! Shares are encrypted as group elements. In a disputation the neutral parties blind the accused
//! dealer's opening by a common factor, unblind it, and check the result against the commitments,
//! so that no honest share is revealed.
use crate::algebra::{
    cong, distinct, interpolates, lagrange_weights, lemma_cong_add, lemma_cong_mod, lemma_cong_mul,
    lemma_cong_small, lemma_cong_sub, lemma_poly_cong, lemma_poly_linear, poly,
};
use crate::collections::{ascending, increasing, lemma_take_set};
use crate::curve::{exponents, residues, Curve, Point, Scalar};
use crate::dkg::accusations::{
    accused, accused_dealers, complainers, complainers_of, first_failure, first_unsettled,
    sentences, settled, Judgement, Settlement,
};
use crate::dkg::encryption::{ElGamalBase, ElGamalCiphertext};
use crate::dkg::errors::VssError;
use crate::dkg::mss;
use crate::dkg::pedersen::commitment_at;
use crate::hash::{derived, hash_to_group};
use rand_chacha::ChaCha20Rng;
use std::collections::{BTreeMap, BTreeSet};
use vstd::prelude::*;

verus! {

broadcast use {vstd::laws_cmp::group_laws_cmp, vstd::std_specs::btree::group_btree_axioms};

/// Domain separator of the generators.
pub const PERSONALIZATION: &'static str = "NEJIDKG_";

/// `g` for commitments and shares, `h` for the public key; their mutual discrete logarithm is
/// unknown.
#[derive(Debug)]
pub struct NejiGenerators<C: Curve> {
    pub g: Point<C>,
    pub h: Point<C>,
}

impl<C: Curve> Copy for NejiGenerators<C> {

}

impl<C: Curve> Clone for NejiGenerators<C> {
    fn clone(&self) -> (r: Self)
        ensures
            r == *self,
    {
        *self
    }
}

impl<C: Curve> NejiGenerators<C> {
    /// The generators, each hashed from its own seed.
    pub fn setup() -> (r: Result<Self, VssError>)
        ensures
            r matches Ok(gens) && {
                &&& gens.g@ == derived::<C>(PERSONALIZATION@, "neji-g"@)
                &&& gens.h@ == derived::<C>(PERSONALIZATION@, "neji-h"@)
            },
    {
        proof {
            reveal_strlit("NEJIDKG_");
            broadcast use vstd::string::group_string_axioms;
            assert(PERSONALIZATION.is_ascii());
        }
        let tag = PERSONALIZATION.as_bytes();
        let g = hash_to_group(tag, "neji-g".as_bytes())?;
        let h = hash_to_group(tag, "neji-h".as_bytes())?;
        Ok(NejiGenerators { g, h })
    }
}

/// A polynomial with the secret as its constant term.
#[derive(Debug)]
pub struct ShamirPolynomial<C: Curve> {
    pub coeffs: Vec<Scalar<C>>,
}

impl<C: Curve> ShamirPolynomial<C> {
    /// The residues of the coefficients.
    pub open spec fn coefficients(self) -> Seq<int> {
        residues(self.coeffs@)
    }

    /// A polynomial of the given degree with the secret as its constant term, its other
    /// coefficients drawn at random.
    pub fn sample(degree: usize, secret: Scalar<C>, rng: &mut ChaCha20Rng) -> (r: Result<
        Self,
        VssError,
    >)
        requires
            degree < usize::MAX,
        ensures
            match r {
                Ok(f) => {
                    &&& degree >= 1
                    &&& f.coeffs.len() == degree + 1
                    &&& f.coeffs[0] == secret
                    &&& poly(f.coefficients(), 0) % C::order() == secret@
                },
                Err(e) => degree < 1 && e == VssError::InsufficientDegree(degree),
            },
    {
        if degree < 1 {
            return Err(VssError::InsufficientDegree(degree));
        }
        let mut coeffs: Vec<Scalar<C>> = Vec::new();
        coeffs.push(secret);
        for i in 0..degree
            invariant
                coeffs.len() == i + 1,
                coeffs[0] == secret,
        {
            coeffs.push(Scalar::random(rng));
        }
        let f = ShamirPolynomial { coeffs };
        proof {
            let c = f.coefficients();
            assert(poly(c, 0) == c[0] + 0 * poly(c.drop_first(), 0));
            secret.lemma_range();
            lemma_cong_small(secret@, C::order());
        }
        Ok(f)
    }

    /// The value at a field point.
    pub fn evaluate(&self, x: Scalar<C>) -> (r: Scalar<C>)
        ensures
            r@ == poly(self.coefficients(), x@) % C::order(),
    {
        mss::evaluate(&self.coeffs, &x)
    }

    /// The values at `1, 2, .., n`.
    pub fn shares(&self, n: usize) -> (r: Vec<Scalar<C>>)
        ensures
            r.len() == n,
            forall|i: int|
                0 <= i < n ==> #[trigger] r[i]@ == poly(self.coefficients(), i + 1) % C::order(),
    {
        mss::shares(&self.coeffs, n)
    }

    /// The weights by which values at `indices` recover the value at zero; indices that repeat are
    /// rejected.
    pub fn lambda_at_zero(indices: &[Scalar<C>]) -> (r: Result<Vec<Scalar<C>>, VssError>)
        ensures
            match r {
                Ok(l) => {
                    &&& distinct(residues(indices@))
                    &&& lagrange_weights(residues(l@), residues(indices@), 0, C::order())
                    &&& interpolates(residues(l@), residues(indices@), 0, C::order())
                },
                Err(e) => !distinct(residues(indices@)) && e == VssError::BadIndices,
            },
    {
        let target = Scalar::zero();
        mss::lagrange_coefficients(&target, indices)
    }
}

/// A dealer's public output: the commitments `g^a` per coefficient, and the shares, of which that
/// at index `i` is for receiver `i + 1`.
#[derive(Debug)]
pub struct FeldmanDistribution<C: Curve> {
    pub commitments: Vec<Point<C>>,
    pub shares: Vec<Scalar<C>>,
}

/// What the dealer keeps behind a [`FeldmanDistribution`].
#[derive(Debug)]
pub struct FeldmanSecrets<C: Curve> {
    pub secret: Scalar<C>,
    pub poly: ShamirPolynomial<C>,
}

impl<C: Curve> FeldmanDistribution<C> {
    /// The commitments are those to the coefficients.
    pub open spec fn commits(
        self,
        generators: NejiGenerators<C>,
        secrets: FeldmanSecrets<C>,
    ) -> bool {
        let a = secrets.poly.coefficients();
        &&& self.commitments.len() == a.len()
        &&& forall|k: int|
            0 <= k < a.len() ==> #[trigger] self.commitments[k]@ == (generators.g@ * a[k])
                % C::order()
    }

    /// The shares are the values at `1, 2, ..`.
    pub open spec fn shares_of(self, secrets: FeldmanSecrets<C>) -> bool {
        forall|i: int|
            0 <= i < self.shares.len() ==> #[trigger] self.shares[i]@ == poly(
                secrets.poly.coefficients(),
                i + 1,
            ) % C::order()
    }

    /// Deals a secret drawn at random.
    pub fn deal(
        generators: &NejiGenerators<C>,
        degree: usize,
        num_receivers: usize,
        rng: &mut ChaCha20Rng,
    ) -> (r: Result<(Self, FeldmanSecrets<C>), VssError>)
        requires
            degree < usize::MAX,
        ensures
            match r {
                Ok((dist, kept)) => {
                    &&& degree >= 1
                    &&& kept.poly.coeffs.len() == degree + 1
                    &&& poly(kept.poly.coefficients(), 0) % C::order() == kept.secret@
                    &&& dist.commits(*generators, kept)
                    &&& dist.shares_of(kept)
                    &&& dist.shares.len() == num_receivers
                },
                Err(e) => degree < 1 && e == VssError::InsufficientDegree(degree),
            },
    {
        let secret = Scalar::random(rng);
        Self::deal_with_secret(generators, degree, num_receivers, secret, rng)
    }

    /// Deals a chosen secret.
    pub fn deal_with_secret(
        generators: &NejiGenerators<C>,
        degree: usize,
        num_receivers: usize,
        secret: Scalar<C>,
        rng: &mut ChaCha20Rng,
    ) -> (r: Result<(Self, FeldmanSecrets<C>), VssError>)
        requires
            degree < usize::MAX,
        ensures
            match r {
                Ok((dist, kept)) => {
                    &&& degree >= 1
                    &&& kept.secret == secret
                    &&& kept.poly.coeffs.len() == degree + 1
                    &&& poly(kept.poly.coefficients(), 0) % C::order() == secret@
                    &&& dist.commits(*generators, kept)
                    &&& dist.shares_of(kept)
                    &&& dist.shares.len() == num_receivers
                },
                Err(e) => degree < 1 && e == VssError::InsufficientDegree(degree),
            },
    {
        let poly = ShamirPolynomial::sample(degree, secret, rng)?;
        let kept = FeldmanSecrets { secret, poly };
        let dist = Self::of_polynomial(generators, &kept, num_receivers);
        Ok((dist, kept))
    }

    /// The distribution to `num_receivers` receivers of a polynomial.
    pub fn of_polynomial(
        generators: &NejiGenerators<C>,
        secrets: &FeldmanSecrets<C>,
        num_receivers: usize,
    ) -> (r: Self)
        ensures
            r.commits(*generators, *secrets),
            r.shares_of(*secrets),
            r.shares.len() == num_receivers,
    {
        let ghost a = secrets.poly.coefficients();
        let mut commitments: Vec<Point<C>> = Vec::new();
        for k in 0..secrets.poly.coeffs.len()
            invariant
                a == secrets.poly.coefficients(),
                commitments.len() == k,
                forall|i: int|
                    0 <= i < k ==> #[trigger] commitments[i]@ == (generators.g@ * a[i])
                        % C::order(),
        {
            commitments.push(generators.g.mul(&secrets.poly.coeffs[k]));
        }
        let shares = secrets.poly.shares(num_receivers);
        FeldmanDistribution { commitments, shares }
    }

    /// Checks a receiver's recovered group element against the commitments at receiver `j`.
    pub fn verify_in_exponent(commitments: &[Point<C>], j: usize, m: &Point<C>) -> (r: bool)
        ensures
            r == cong(m@, poly(exponents(commitments@), j as int), C::order()),
    {
        let expected = commitment_at(commitments, j);
        proof {
            m.lemma_range();
            lemma_cong_small(m@, C::order());
        }
        expected == *m
    }
}

/// The polynomial of the commitments takes at `x` the commitment to the value there.
pub proof fn lemma_feldman_evaluates<C: Curve>(
    dist: FeldmanDistribution<C>,
    generators: NejiGenerators<C>,
    secrets: FeldmanSecrets<C>,
    x: int,
)
    requires
        dist.commits(generators, secrets),
    ensures
        cong(
            poly(exponents(dist.commitments@), x),
            generators.g@ * poly(secrets.poly.coefficients(), x),
            C::order(),
        ),
{
    let m = C::order();
    let a = secrets.poly.coefficients();
    let cms = exponents(dist.commitments@);
    let w = Seq::new(a.len(), |k: int| generators.g@ * a[k] + 0 * a[k]);
    C::order_exceeds_words();
    lemma_poly_linear(a, a, w, generators.g@, 0, x);
    assert forall|k: int| 0 <= k < cms.len() implies cong(#[trigger] cms[k], w[k], m) by {
        assert(cms[k] == dist.commitments[k]@);
        lemma_cong_mod(generators.g@ * a[k], m);
    }
    lemma_poly_cong(cms, w, x, x, m);
}

/// Every share of an honest dealer opens the commitments at its receiver.
pub proof fn law_honest_share_opens<C: Curve>(
    dist: FeldmanDistribution<C>,
    generators: NejiGenerators<C>,
    secrets: FeldmanSecrets<C>,
    share: int,
    j: int,
)
    requires
        dist.commits(generators, secrets),
        share == poly(secrets.poly.coefficients(), j) % C::order(),
    ensures
        opening_checks(generators, exponents(dist.commitments@), j, share),
{
    let m = C::order();
    C::order_exceeds_words();
    let v = poly(secrets.poly.coefficients(), j);
    lemma_cong_mod(v, m);
    lemma_cong_mul(generators.g@, generators.g@, share, v, m);
    lemma_feldman_evaluates(dist, generators, secrets, j);
}

/// Encrypts the group element `g^share` to the key of a receiver.
pub fn encrypt_share<C: Curve>(
    generators: &NejiGenerators<C>,
    base: &ElGamalBase<C>,
    receiver_pk: &Point<C>,
    share: Scalar<C>,
    rng: &mut ChaCha20Rng,
) -> (ct: ElGamalCiphertext<C>)
    ensures
        ct.encrypts(*base, receiver_pk@, (generators.g@ * share@) % C::order()),
{
    let m = generators.g.mul(&share);
    ElGamalCiphertext::encrypt(base, receiver_pk, &m, rng)
}

/// The outcome of one accusation.
#[derive(Clone, Copy, Debug, PartialEq, Eq, Structural)]
pub enum Verdict {
    DealerDishonest,
    ComplainerDishonest,
}

/// Why a dealer was disqualified.
#[derive(Clone, Copy, Debug, PartialEq, Eq, Structural)]
pub enum DisqualificationReason {
    TooManyComplaints,
    LostDisputation,
}

/// Receiver `complainer`, counted from one, accuses `dealer`.
#[derive(Clone, Copy, Debug, PartialEq, Eq, Structural)]
pub struct Complaint {
    pub dealer: usize,
    pub complainer: usize,
}

/// The opening commits to the value at `j` of the polynomial whose coefficients the commitments are.
pub open spec fn opening_checks<C: Curve>(
    generators: NejiGenerators<C>,
    commitments: Seq<int>,
    j: int,
    opening: int,
) -> bool {
    cong(generators.g@ * opening, poly(commitments, j), C::order())
}

/// A cheating dealer is detected: in the place of an opening that checks, one off by `delta` checks
/// only where `g^delta` is the neutral element.
pub proof fn law_shifted_opening_detected<C: Curve>(
    generators: NejiGenerators<C>,
    commitments: Seq<int>,
    j: int,
    opening: int,
    delta: int,
)
    requires
        opening_checks(generators, commitments, j, opening),
    ensures
        opening_checks(generators, commitments, j, (opening + delta) % C::order()) <==> cong(
            generators.g@ * delta,
            0,
            C::order(),
        ),
{
    let m = C::order();
    C::order_exceeds_words();
    let g = generators.g@;
    let other = (opening + delta) % m;
    lemma_cong_mod(opening + delta, m);
    lemma_cong_mul(g, g, other, opening + delta, m);
    assert(g * (opening + delta) == g * opening + g * delta) by (nonlinear_arith);
    if cong(g * delta, 0, m) {
        lemma_cong_add(g * opening, g * opening, g * delta, 0, m);
    }
    if cong(g * other, g * opening, m) {
        lemma_cong_sub(g * opening + g * delta, g * opening, g * opening, g * opening, m);
    }
}

/// The verdict that the dealer's opening for receiver `j` deserves.
pub open spec fn verdict_of<C: Curve>(
    generators: NejiGenerators<C>,
    commitments: Seq<int>,
    j: int,
    opening: int,
) -> Verdict {
    if opening_checks(generators, commitments, j, opening) {
        Verdict::ComplainerDishonest
    } else {
        Verdict::DealerDishonest
    }
}

/// The disputation with a given common blind. The accused reveals `g^(r s)`, which is raised to
/// `1 / r` and compared with the commitments at `j`: whatever the blind, the verdict is the one
/// that the opening deserves.
pub fn resolve_with_blind<C: Curve>(
    generators: &NejiGenerators<C>,
    commitments: &[Point<C>],
    j: usize,
    dealer_opening: Scalar<C>,
    r: Scalar<C>,
) -> (v: Verdict)
    requires
        r@ != 0,
    ensures
        v == verdict_of(*generators, exponents(commitments@), j as int, dealer_opening@),
{
    match r.inverse() {
        Some(r_inv) => {
            let scaled = r.mul(&dealer_opening);
            let blinded = generators.g.mul(&scaled);
            let recovered = blinded.mul(&r_inv);
            proof {
                let m = C::order();
                let (g, s, a, b) = (generators.g@, dealer_opening@, r@, r_inv@);
                C::order_exceeds_words();
                lemma_cong_mod(a * s, m);
                lemma_cong_mul(g, g, scaled@, a * s, m);
                lemma_cong_mod(g * scaled@, m);
                lemma_cong_mul(blinded@, g * (a * s), b, b, m);
                lemma_cong_mod(blinded@ * b, m);
                assert(g * (a * s) * b == (g * s) * (a * b)) by (nonlinear_arith);
                lemma_cong_small(1, m);
                lemma_cong_mul(g * s, g * s, a * b, 1, m);
                recovered.lemma_range();
                lemma_cong_small(recovered@, m);
            }
            if recovered == commitment_at(commitments, j) {
                Verdict::ComplainerDishonest
            } else {
                Verdict::DealerDishonest
            }
        },
        None => {
            assert(false);
            Verdict::DealerDishonest
        },
    }
}

/// How often a common blind that came out zero is drawn again.
const REDRAWS: usize = 256;

/// The sum of the blinds of `neutral_count` neutral parties, or of one where there is none. A sum
/// of zero is drawn again; after [`REDRAWS`] zeros in a row the blind is one.
pub fn draw_blind<C: Curve>(neutral_count: usize, rng: &mut ChaCha20Rng) -> (r: Scalar<C>)
    ensures
        r@ != 0,
{
    let parties: usize = if neutral_count == 0 {
        1
    } else {
        neutral_count
    };
    for i in 0..REDRAWS {
        let mut acc: Scalar<C> = Scalar::zero();
        for k in 0..parties {
            let share = Scalar::random(rng);
            acc = acc.add(&share);
        }
        if !acc.is_zero() {
            return acc;
        }
    }
    Scalar::one()
}

/// The disputation of an accusation by receiver `j`, with `neutral_count` neutral parties that draw
/// their blinds at random.
pub fn resolve_disputation<C: Curve>(
    generators: &NejiGenerators<C>,
    commitments: &[Point<C>],
    j: usize,
    dealer_opening: Scalar<C>,
    neutral_count: usize,
    rng: &mut ChaCha20Rng,
) -> (v: Verdict)
    ensures
        v == verdict_of(*generators, exponents(commitments@), j as int, dealer_opening@),
{
    let r = draw_blind(neutral_count, rng);
    resolve_with_blind(generators, commitments, j, dealer_opening, r)
}

/// Whether the dealer's opening for receiver `c` is sound, `None` where there is no such opening.
pub open spec fn opening_sound<C: Curve>(
    generators: NejiGenerators<C>,
    commitments: Seq<int>,
    openings: Seq<Scalar<C>>,
) -> spec_fn(usize) -> Option<bool> {
    |c: usize|
        if 1 <= c <= openings.len() {
            Some(opening_checks(generators, commitments, c as int, openings[c - 1]@))
        } else {
            None
        }
}

/// Disputes the complaints against one dealer, complainers ascending, until one is lost.
pub fn settle<C: Curve>(
    generators: &NejiGenerators<C>,
    commitments: &Vec<Point<C>>,
    openings: &Vec<Scalar<C>>,
    complainers: &BTreeSet<usize>,
    neutral_count: usize,
    rng: &mut ChaCha20Rng,
) -> (r: Settlement)
    ensures
        settled(
            complainers@,
            opening_sound(*generators, exponents(commitments@), openings@),
            r,
        ),
{
    let order = ascending(complainers);
    let ghost sound = opening_sound(*generators, exponents(commitments@), openings@);
    for i in 0..order.len()
        invariant
            increasing(order@),
            order@.to_set() == complainers@,
            sound == opening_sound(*generators, exponents(commitments@), openings@),
            forall|k: int| 0 <= k < i ==> sound(#[trigger] order[k]) == Some(true),
    {
        let c = order[i];
        assert(complainers@.contains(c)) by {
            assert(order@.to_set().contains(order@[i as int]));
        }
        assert forall|d: usize| complainers@.contains(d) && d < c implies sound(d) == Some(
            true,
        ) by {
            assert(order@.to_set().contains(d));
            let k = choose|k: int| 0 <= k < order@.len() && order@[k] == d;
            assert(k < i);
        }
        if c == 0 || c > openings.len() {
            assert(first_unsettled(complainers@, sound, c));
            return Settlement::Missing;
        }
        let verdict = resolve_disputation(
            generators,
            commitments.as_slice(),
            c,
            openings[c - 1],
            neutral_count,
            rng,
        );
        if verdict == Verdict::DealerDishonest {
            assert(first_unsettled(complainers@, sound, c));
            return Settlement::Lost;
        }
    }
    assert forall|c: usize| complainers@.contains(c) implies #[trigger] sound(c) == Some(true) by {
        assert(order@.to_set().contains(c));
        let k = choose|k: int| 0 <= k < order@.len() && order@[k] == c;
        assert(sound(order[k]) == Some(true));
    }
    Settlement::Cleared
}

/// The accusations as pairs of dealer and complainer.
pub open spec fn pairs(complaints: Seq<Complaint>) -> Seq<(usize, usize)> {
    complaints.map_values(|c: Complaint| (c.dealer, c.complainer))
}

/// What becomes of an accused dealer: `TooManyComplaints` where more than `degree - 1` receivers
/// accuse it, else what the disputations come to, for which its commitments and an opening for each
/// complainer must be there.
pub open spec fn judge<C: Curve>(
    generators: NejiGenerators<C>,
    degree: usize,
    commitments: Map<usize, Vec<Point<C>>>,
    openings: Map<usize, Vec<Scalar<C>>>,
    accusations: Seq<(usize, usize)>,
) -> spec_fn(usize) -> Judgement<DisqualificationReason> {
    |d: usize|
        {
            let against = complainers(accusations, d);
            if against.len() > if degree >= 1 {
                degree - 1
            } else {
                0
            } {
                Ok(Some(DisqualificationReason::TooManyComplaints))
            } else if !commitments.contains_key(d) {
                Err(VssError::Malformed("missing dealer commitments"))
            } else if !openings.contains_key(d) {
                Err(VssError::Malformed("missing dealer openings"))
            } else {
                let sound = opening_sound(generators, exponents(commitments[d]@), openings[d]@);
                if settled(against, sound, Settlement::Cleared) {
                    Ok(None)
                } else if settled(against, sound, Settlement::Lost) {
                    Ok(Some(DisqualificationReason::LostDisputation))
                } else {
                    Err(VssError::Malformed("missing opening for complainer"))
                }
            }
        }
}

/// The result of the complaint phase.
pub struct ComplaintOutcome {
    /// The dealers that qualify.
    pub qual: BTreeSet<usize>,
    /// The disqualified dealers and why.
    pub disqualified: BTreeMap<usize, DisqualificationReason>,
}

/// What the complaint phase comes to: every accused dealer is judged, the disqualified are those
/// that the judgement condemns, and the others qualify; or it fails on the first, in ascending
/// order, whose data is missing.
pub open spec fn phase_ends<C: Curve>(
    generators: NejiGenerators<C>,
    degree: usize,
    all_dealers: Set<usize>,
    commitments: Map<usize, Vec<Point<C>>>,
    openings: Map<usize, Vec<Scalar<C>>>,
    complaints: Seq<Complaint>,
    r: Result<ComplaintOutcome, VssError>,
) -> bool {
    let dealers = accused(pairs(complaints));
    let judged = judge(generators, degree, commitments, openings, pairs(complaints));
    match r {
        Ok(outcome) => {
            &&& forall|d: usize| dealers.contains(d) ==> #[trigger] judged(d) is Ok
            &&& outcome.disqualified@ == sentences(dealers, judged)
            &&& outcome.qual@ == all_dealers.difference(outcome.disqualified@.dom())
        },
        Err(e) => first_failure(dealers, judged, e),
    }
}

/// Runs the complaint phase over all dealers. Every accused dealer is judged; the phase fails on
/// the first, in ascending order, whose data is missing. The dealers that are not disqualified
/// qualify.
pub fn run_complaint_phase<C: Curve>(
    generators: &NejiGenerators<C>,
    degree: usize,
    all_dealers: &BTreeSet<usize>,
    commitments: &BTreeMap<usize, Vec<Point<C>>>,
    openings: &BTreeMap<usize, Vec<Scalar<C>>>,
    complaints: &[Complaint],
    neutral_count: usize,
    rng: &mut ChaCha20Rng,
) -> (r: Result<ComplaintOutcome, VssError>)
    ensures
        phase_ends(
            *generators,
            degree,
            all_dealers@,
            commitments@,
            openings@,
            complaints@,
            r,
        ),
{
    let mut accusations: Vec<(usize, usize)> = Vec::new();
    for i in 0..complaints.len()
        invariant
            accusations.len() == i,
            forall|k: int| 0 <= k < i ==> #[trigger] accusations[k] == pairs(complaints@)[k],
    {
        accusations.push((complaints[i].dealer, complaints[i].complainer));
    }
    assert(accusations@ =~= pairs(complaints@));
    let named = accused_dealers(&accusations);
    let order = ascending(&named);
    let ghost dealers = accused(pairs(complaints@));
    let ghost judged = judge(
        *generators,
        degree,
        commitments@,
        openings@,
        pairs(complaints@),
    );
    let allowed: usize = if degree >= 1 {
        degree - 1
    } else {
        0
    };
    let mut disqualified: BTreeMap<usize, DisqualificationReason> = BTreeMap::new();
    for i in 0..order.len()
        invariant
            increasing(order@),
            order@.to_set() == dealers,
            dealers == accused(pairs(complaints@)),
            accusations@ == pairs(complaints@),
            allowed == if degree >= 1 {
                degree - 1
            } else {
                0
            },
            judged == judge(
                *generators,
                degree,
                commitments@,
                openings@,
                pairs(complaints@),
            ),
            forall|k: int| 0 <= k < i ==> judged(#[trigger] order[k]) is Ok,
            disqualified@ == sentences(order@.take(i as int).to_set(), judged),
    {
        let dealer = order[i];
        let ghost before = order@.take(i as int).to_set();
        let ghost after = order@.take(i + 1).to_set();
        proof {
            assert(dealers.contains(dealer)) by {
                assert(order@.to_set().contains(order@[i as int]));
            }
            assert(after =~= before.insert(dealer)) by {
                lemma_take_set(order@, i as int);
            }
            assert(!before.contains(dealer));
            assert forall|d: usize| dealers.contains(d) && d < dealer implies judged(d) is Ok by {
                assert(order@.to_set().contains(d));
                let k = choose|k: int| 0 <= k < order@.len() && order@[k] == d;
                assert(k < i);
                assert(judged(order[k]) is Ok);
            }
        }
        let against = complainers_of(&accusations, dealer);
        let mut reason: Option<DisqualificationReason> = None;
        if against.len() > allowed {
            reason = Some(DisqualificationReason::TooManyComplaints);
        } else {
            let dealer_commitments = match commitments.get(&dealer) {
                Some(c) => c,
                None => {
                    assert(judged(dealer) is Err);
                    return Err(VssError::Malformed("missing dealer commitments"));
                },
            };
            let dealer_openings = match openings.get(&dealer) {
                Some(o) => o,
                None => {
                    assert(judged(dealer) is Err);
                    return Err(VssError::Malformed("missing dealer openings"));
                },
            };
            let settlement = settle(
                generators,
                dealer_commitments,
                dealer_openings,
                &against,
                neutral_count,
                rng,
            );
            match settlement {
                Settlement::Cleared => {},
                Settlement::Lost => {
                    reason = Some(DisqualificationReason::LostDisputation);
                },
                Settlement::Missing => {
                    assert(judged(dealer) is Err);
                    return Err(VssError::Malformed("missing opening for complainer"));
                },
            }
        }
        assert(judged(dealer) == Judgement::<DisqualificationReason>::Ok(reason));
        if let Some(why) = reason {
            disqualified.insert(dealer, why);
        }
        assert(disqualified@ =~= sentences(after, judged));
    }
    proof {
        assert(order@.take(order.len() as int) =~= order@);
        assert forall|d: usize| dealers.contains(d) implies #[trigger] judged(d) is Ok by {
            assert(order@.to_set().contains(d));
            let k = choose|k: int| 0 <= k < order@.len() && order@[k] == d;
            assert(judged(order[k]) is Ok);
        }
    }
    let everyone = ascending(all_dealers);
    let mut qual: BTreeSet<usize> = BTreeSet::new();
    for i in 0..everyone.len()
        invariant
            everyone@.to_set() == all_dealers@,
            forall|d: usize|
                qual@.contains(d) <==> everyone@.take(i as int).to_set().contains(d)
                    && !disqualified@.contains_key(d),
    {
        let dealer = everyone[i];
        proof {
            lemma_take_set(everyone@, i as int);
        }
        if !disqualified.contains_key(&dealer) {
            qual.insert(dealer);
        }
    }
    proof {
        assert(everyone@.take(everyone.len() as int) =~= everyone@);
        assert(qual@ =~= all_dealers@.difference(disqualified@.dom()));
    }
    Ok(ComplaintOutcome { qual, disqualified })
}

} // verus!
