//! Complaint management.
//!
//! The phase runs over the dealers that some receiver accused. A dealer already reported by the
//! publicly verifiable layer is disqualified at once, and so is one with more independent
//! complaints than the degree allows. Otherwise each complaint is disputed: neutral parties blind
//! the dealer's opening, and the blinded relation decides.
use crate::algebra::{
    cong, lemma_cong_add, lemma_cong_mod, lemma_cong_sub, poly,
};
use crate::collections::{ascending, increasing, lemma_take_set};
use crate::curve::{exponents, Curve, Point, Scalar};
use crate::dkg::accusations::{
    accused, accused_dealers, complainers, complainers_of, first_failure, first_unsettled,
    lemma_first_unsettled, sentences, settled, Judgement, Settlement,
};
use crate::dkg::errors::VssError;
use crate::dkg::pedersen::{
    commitment_at, lemma_commitment_cong, share_checks, PedersenGenerators, PedersenShare,
};
use rand_chacha::ChaCha20Rng;
use std::collections::{BTreeMap, BTreeSet};
use vstd::prelude::*;

verus! {

broadcast use {vstd::laws_cmp::group_laws_cmp, vstd::std_specs::btree::group_btree_axioms};

/// Receiver `complainer`, counted from one, accuses `dealer`.
#[derive(Clone, Copy, Debug, PartialEq, Eq, Structural)]
pub struct Complaint {
    pub dealer: usize,
    pub complainer: usize,
}

/// The outcome of one accusation.
#[derive(Clone, Copy, Debug, PartialEq, Eq, Structural)]
pub enum Verdict {
    /// The accused dealer failed to open a valid share.
    DealerDishonest,
    /// The complaint was false.
    ComplainerDishonest,
}

/// Why a dealer was disqualified.
#[derive(Clone, Copy, Debug, PartialEq, Eq, Structural)]
pub enum DisqualificationReason {
    /// Reported dishonest by the publicly verifiable layer.
    InQagg,
    /// More independent complaints than the degree allows.
    TooManyComplaints,
    /// Lost a disputation.
    LostDisputation,
}

/// A neutral party's blinds and the commitment to them.
#[derive(Debug)]
pub struct NeutralBlind<C: Curve> {
    pub da: Scalar<C>,
    pub db: Scalar<C>,
    pub da_prime: Scalar<C>,
    pub db_prime: Scalar<C>,
    pub commitment: Point<C>,
}

impl<C: Curve> NeutralBlind<C> {
    /// The commitment is that to the blinds.
    pub open spec fn committed(self, generators: PedersenGenerators<C>) -> bool {
        self.commitment@ == generators.commitment(
            self.da@,
            self.db@,
            self.da_prime@,
            self.db_prime@,
        ) % C::order()
    }

    /// The party with the given blinds.
    pub fn commit_to(
        generators: &PedersenGenerators<C>,
        da: Scalar<C>,
        db: Scalar<C>,
        da_prime: Scalar<C>,
        db_prime: Scalar<C>,
    ) -> (r: Self)
        ensures
            r.da == da,
            r.db == db,
            r.da_prime == da_prime,
            r.db_prime == db_prime,
            r.committed(*generators),
    {
        let commitment = generators.commit(&da, &db, &da_prime, &db_prime);
        NeutralBlind { da, db, da_prime, db_prime, commitment }
    }

    /// A party whose blinds are drawn at random.
    pub fn sample(generators: &PedersenGenerators<C>, rng: &mut ChaCha20Rng) -> (r: Self)
        ensures
            r.committed(*generators),
    {
        let da = Scalar::random(rng);
        let db = Scalar::random(rng);
        let da_prime = Scalar::random(rng);
        let db_prime = Scalar::random(rng);
        Self::commit_to(generators, da, db, da_prime, db_prime)
    }
}

/// The verdict that the dealer's opening for receiver `j` deserves.
pub open spec fn verdict_of<C: Curve>(
    generators: PedersenGenerators<C>,
    commitments: Seq<int>,
    j: int,
    opening: PedersenShare<C>,
) -> Verdict {
    if share_checks(generators, commitments, j, opening) {
        Verdict::ComplainerDishonest
    } else {
        Verdict::DealerDishonest
    }
}

/// Commitments add up.
proof fn lemma_commitment_additive<C: Curve>(
    generators: PedersenGenerators<C>,
    a: (int, int, int, int),
    b: (int, int, int, int),
)
    ensures
        generators.commitment(a.0 + b.0, a.1 + b.1, a.2 + b.2, a.3 + b.3)
            == generators.commitment(a.0, a.1, a.2, a.3) + generators.commitment(
            b.0,
            b.1,
            b.2,
            b.3,
        ),
{
    let (g1, h1, g2, h2) = (generators.g1@, generators.h1@, generators.g2@, generators.h2@);
    assert(g1 * (a.0 + b.0) == g1 * a.0 + g1 * b.0) by (nonlinear_arith);
    assert(h1 * (a.1 + b.1) == h1 * a.1 + h1 * b.1) by (nonlinear_arith);
    assert(g2 * (a.2 + b.2) == g2 * a.2 + g2 * b.2) by (nonlinear_arith);
    assert(h2 * (a.3 + b.3) == h2 * a.3 + h2 * b.3) by (nonlinear_arith);
}

/// The disputation with given neutral parties. The accused publishes the opening with all blinds
/// added, and the relation is recomputed with all blind commitments added: whatever the blinds,
/// the verdict is the one that the opening deserves.
pub fn resolve_with_blinds<C: Curve>(
    generators: &PedersenGenerators<C>,
    commitments: &[Point<C>],
    j: usize,
    dealer_opening: &PedersenShare<C>,
    blinds: &Vec<NeutralBlind<C>>,
) -> (r: Verdict)
    requires
        forall|i: int| 0 <= i < blinds.len() ==> (#[trigger] blinds[i]).committed(*generators),
    ensures
        r == verdict_of(*generators, exponents(commitments@), j as int, *dealer_opening),
{
    let ghost m = C::order();
    let ghost s = *dealer_opening;
    let ghost gens = *generators;
    let mut lambda = dealer_opening.sf;
    let mut lambda_prime = dealer_opening.sf_prime;
    let mut gamma = dealer_opening.sg;
    let mut gamma_prime = dealer_opening.sg_prime;
    let ghost opened = gens.commitment(s.sf@, s.sf_prime@, s.sg@, s.sg_prime@);
    let at_j = commitment_at(commitments, j);
    let ghost value = poly(exponents(commitments@), j as int);
    let mut rhs = at_j;
    proof {
        C::order_exceeds_words();
        lemma_cong_mod(value, m);
        lemma_cong_sub(rhs@, value, value, value, m);
    }
    for i in 0..blinds.len()
        invariant
            m == C::order(),
            m > 1,
            gens == *generators,
            forall|i: int| 0 <= i < blinds.len() ==> (#[trigger] blinds[i]).committed(gens),
            // Both sides have grown by the same amount.
            cong(
                gens.commitment(lambda@, lambda_prime@, gamma@, gamma_prime@) - opened,
                rhs@ - value,
                m,
            ),
    {
        let b = &blinds[i];
        let ghost (l0, l1, l2, l3) = (lambda@, lambda_prime@, gamma@, gamma_prime@);
        let ghost r0 = rhs@;
        lambda = lambda.add(&b.da);
        lambda_prime = lambda_prime.add(&b.db);
        gamma = gamma.add(&b.da_prime);
        gamma_prime = gamma_prime.add(&b.db_prime);
        rhs = rhs.add(&b.commitment);
        proof {
            let blind = gens.commitment(b.da@, b.db@, b.da_prime@, b.db_prime@);
            let before = gens.commitment(l0, l1, l2, l3);
            lemma_cong_mod(l0 + b.da@, m);
            lemma_cong_mod(l1 + b.db@, m);
            lemma_cong_mod(l2 + b.da_prime@, m);
            lemma_cong_mod(l3 + b.db_prime@, m);
            lemma_commitment_cong(
                gens,
                (lambda@, lambda_prime@, gamma@, gamma_prime@),
                (l0 + b.da@, l1 + b.db@, l2 + b.da_prime@, l3 + b.db_prime@),
            );
            lemma_commitment_additive(
                gens,
                (l0, l1, l2, l3),
                (b.da@, b.db@, b.da_prime@, b.db_prime@),
            );
            lemma_cong_sub(
                gens.commitment(lambda@, lambda_prime@, gamma@, gamma_prime@),
                before + blind,
                opened,
                opened,
                m,
            );
            lemma_cong_mod(blind, m);
            lemma_cong_add(before - opened, r0 - value, blind, b.commitment@, m);
            lemma_cong_mod(r0 + b.commitment@, m);
            lemma_cong_sub(rhs@, r0 + b.commitment@, value, value, m);
        }
    }
    let lhs = generators.commit(&lambda, &lambda_prime, &gamma, &gamma_prime);
    proof {
        let total = gens.commitment(lambda@, lambda_prime@, gamma@, gamma_prime@);
        lhs.lemma_range();
        rhs.lemma_range();
        lemma_cong_mod(total, m);
        if lhs@ == rhs@ {
            // total = rhs, so the opening equals the value.
            lemma_cong_sub(total, rhs@, total - opened, rhs@ - value, m);
        } else if cong(opened, value, m) {
            lemma_cong_add(total - opened, rhs@ - value, opened, value, m);
            crate::algebra::lemma_cong_eq(lhs@, rhs@, m);
        }
    }
    if lhs == rhs {
        Verdict::ComplainerDishonest
    } else {
        Verdict::DealerDishonest
    }
}

/// The disputation of the accusation of `dealer` by receiver `j`, with `neutral_count` neutral
/// parties that draw their blinds at random.
pub fn resolve_disputation<C: Curve>(
    generators: &PedersenGenerators<C>,
    commitments: &[Point<C>],
    j: usize,
    dealer_opening: &PedersenShare<C>,
    neutral_count: usize,
    rng: &mut ChaCha20Rng,
) -> (r: Verdict)
    ensures
        r == verdict_of(*generators, exponents(commitments@), j as int, *dealer_opening),
{
    let mut blinds: Vec<NeutralBlind<C>> = Vec::new();
    for i in 0..neutral_count
        invariant
            forall|k: int| 0 <= k < blinds.len() ==> (#[trigger] blinds[k]).committed(*generators),
    {
        blinds.push(NeutralBlind::sample(generators, rng));
    }
    resolve_with_blinds(generators, commitments, j, dealer_opening, &blinds)
}

/// Whether the dealer's opening for receiver `c` is sound, `None` where there is no such opening.
pub open spec fn opening_sound<C: Curve>(
    generators: PedersenGenerators<C>,
    commitments: Seq<int>,
    openings: Seq<PedersenShare<C>>,
) -> spec_fn(usize) -> Option<bool> {
    |c: usize|
        if 1 <= c <= openings.len() {
            Some(share_checks(generators, commitments, c as int, openings[c - 1]))
        } else {
            None
        }
}

/// Disputes the complaints against one dealer, complainers ascending, until one is lost.
pub fn settle<C: Curve>(
    generators: &PedersenGenerators<C>,
    commitments: &Vec<Point<C>>,
    openings: &Vec<PedersenShare<C>>,
    complainers: &BTreeSet<usize>,
    neutral_count: usize,
    rng: &mut ChaCha20Rng,
) -> (r: Settlement)
    ensures
        settled(
            complainers@,
            opening_sound(*generators, exponents(commitments@), openings@),
            r,
        ),
{
    let order = ascending(complainers);
    let ghost sound = opening_sound(*generators, exponents(commitments@), openings@);
    for i in 0..order.len()
        invariant
            increasing(order@),
            order@.to_set() == complainers@,
            sound == opening_sound(*generators, exponents(commitments@), openings@),
            forall|k: int| 0 <= k < i ==> sound(#[trigger] order[k]) == Some(true),
    {
        let c = order[i];
        assert(complainers@.contains(c)) by {
            assert(order@.to_set().contains(order@[i as int]));
        }
        assert forall|d: usize| complainers@.contains(d) && d < c implies sound(d) == Some(
            true,
        ) by {
            assert(order@.to_set().contains(d));
            let k = choose|k: int| 0 <= k < order@.len() && order@[k] == d;
            assert(k < i);
        }
        if c == 0 || c > openings.len() {
            assert(first_unsettled(complainers@, sound, c));
            return Settlement::Missing;
        }
        let verdict = resolve_disputation(
            generators,
            commitments.as_slice(),
            c,
            &openings[c - 1],
            neutral_count,
            rng,
        );
        if verdict == Verdict::DealerDishonest {
            assert(first_unsettled(complainers@, sound, c));
            return Settlement::Lost;
        }
    }
    assert forall|c: usize| complainers@.contains(c) implies #[trigger] sound(c) == Some(true) by {
        assert(order@.to_set().contains(c));
        let k = choose|k: int| 0 <= k < order@.len() && order@[k] == c;
        assert(sound(order[k]) == Some(true));
    }
    Settlement::Cleared
}

/// The accusations as pairs of dealer and complainer.
pub open spec fn pairs(complaints: Seq<Complaint>) -> Seq<(usize, usize)> {
    complaints.map_values(|c: Complaint| (c.dealer, c.complainer))
}

/// What becomes of an accused dealer: `InQagg` where the publicly verifiable layer reported it, else
/// `TooManyComplaints` where more than `degree - 1` receivers accuse it, else what the disputations
/// come to, for which its commitments and an opening for each complainer must be there.
pub open spec fn judge<C: Curve>(
    generators: PedersenGenerators<C>,
    degree: usize,
    qagg: Set<usize>,
    commitments: Map<usize, Vec<Point<C>>>,
    openings: Map<usize, Vec<PedersenShare<C>>>,
    accusations: Seq<(usize, usize)>,
) -> spec_fn(usize) -> Judgement<DisqualificationReason> {
    |d: usize|
        {
            let against = complainers(accusations, d);
            if qagg.contains(d) {
                Ok(Some(DisqualificationReason::InQagg))
            } else if against.len() > if degree >= 1 {
                degree - 1
            } else {
                0
            } {
                Ok(Some(DisqualificationReason::TooManyComplaints))
            } else if !commitments.contains_key(d) {
                Err(VssError::Malformed("missing dealer commitments"))
            } else if !openings.contains_key(d) {
                Err(VssError::Malformed("missing dealer openings"))
            } else {
                let sound = opening_sound(generators, exponents(commitments[d]@), openings[d]@);
                if settled(against, sound, Settlement::Cleared) {
                    Ok(None)
                } else if settled(against, sound, Settlement::Lost) {
                    Ok(Some(DisqualificationReason::LostDisputation))
                } else {
                    Err(VssError::Malformed("missing opening for complainer"))
                }
            }
        }
}

/// The result of the complaint phase.
pub struct ComplaintOutcome {
    /// The dealers that qualify.
    pub qual: BTreeSet<usize>,
    /// The disqualified dealers and why.
    pub disqualified: BTreeMap<usize, DisqualificationReason>,
}

/// What the complaint phase comes to: every accused dealer is judged, the disqualified are those
/// that the judgement condemns, and the others qualify; or it fails on the first, in ascending
/// order, whose data is missing.
pub open spec fn phase_ends<C: Curve>(
    generators: PedersenGenerators<C>,
    degree: usize,
    all_dealers: Set<usize>,
    qagg: Set<usize>,
    commitments: Map<usize, Vec<Point<C>>>,
    openings: Map<usize, Vec<PedersenShare<C>>>,
    complaints: Seq<Complaint>,
    r: Result<ComplaintOutcome, VssError>,
) -> bool {
    let dealers = accused(pairs(complaints));
    let judged = judge(generators, degree, qagg, commitments, openings, pairs(complaints));
    match r {
        Ok(outcome) => {
            &&& forall|d: usize| dealers.contains(d) ==> #[trigger] judged(d) is Ok
            &&& outcome.disqualified@ == sentences(dealers, judged)
            &&& outcome.qual@ == all_dealers.difference(outcome.disqualified@.dom())
        },
        Err(e) => first_failure(dealers, judged, e),
    }
}

/// Runs the complaint phase over all dealers. Every accused dealer is judged; the phase fails on
/// the first, in ascending order, whose data is missing. The dealers that are not disqualified
/// qualify.
pub fn run_complaint_phase<C: Curve>(
    generators: &PedersenGenerators<C>,
    degree: usize,
    all_dealers: &BTreeSet<usize>,
    qagg: &BTreeSet<usize>,
    commitments: &BTreeMap<usize, Vec<Point<C>>>,
    openings: &BTreeMap<usize, Vec<PedersenShare<C>>>,
    complaints: &[Complaint],
    neutral_count: usize,
    rng: &mut ChaCha20Rng,
) -> (r: Result<ComplaintOutcome, VssError>)
    ensures
        phase_ends(
            *generators,
            degree,
            all_dealers@,
            qagg@,
            commitments@,
            openings@,
            complaints@,
            r,
        ),
{
    let mut accusations: Vec<(usize, usize)> = Vec::new();
    for i in 0..complaints.len()
        invariant
            accusations.len() == i,
            forall|k: int| 0 <= k < i ==> #[trigger] accusations[k] == pairs(complaints@)[k],
    {
        accusations.push((complaints[i].dealer, complaints[i].complainer));
    }
    assert(accusations@ =~= pairs(complaints@));
    let named = accused_dealers(&accusations);
    let order = ascending(&named);
    let ghost dealers = accused(pairs(complaints@));
    let ghost judged = judge(
        *generators,
        degree,
        qagg@,
        commitments@,
        openings@,
        pairs(complaints@),
    );
    let allowed: usize = if degree >= 1 {
        degree - 1
    } else {
        0
    };
    let mut disqualified: BTreeMap<usize, DisqualificationReason> = BTreeMap::new();
    for i in 0..order.len()
        invariant
            increasing(order@),
            order@.to_set() == dealers,
            dealers == accused(pairs(complaints@)),
            accusations@ == pairs(complaints@),
            allowed == if degree >= 1 {
                degree - 1
            } else {
                0
            },
            judged == judge(
                *generators,
                degree,
                qagg@,
                commitments@,
                openings@,
                pairs(complaints@),
            ),
            forall|k: int| 0 <= k < i ==> judged(#[trigger] order[k]) is Ok,
            disqualified@ == sentences(order@.take(i as int).to_set(), judged),
    {
        let dealer = order[i];
        let ghost before = order@.take(i as int).to_set();
        let ghost after = order@.take(i + 1).to_set();
        proof {
            assert(dealers.contains(dealer)) by {
                assert(order@.to_set().contains(order@[i as int]));
            }
            assert(after =~= before.insert(dealer)) by {
                lemma_take_set(order@, i as int);
            }
            assert(!before.contains(dealer));
            assert forall|d: usize| dealers.contains(d) && d < dealer implies judged(d) is Ok by {
                assert(order@.to_set().contains(d));
                let k = choose|k: int| 0 <= k < order@.len() && order@[k] == d;
                assert(k < i);
                assert(judged(order[k]) is Ok);
            }
        }
        let against = complainers_of(&accusations, dealer);
        let mut reason: Option<DisqualificationReason> = None;
        if qagg.contains(&dealer) {
            reason = Some(DisqualificationReason::InQagg);
        } else if against.len() > allowed {
            reason = Some(DisqualificationReason::TooManyComplaints);
        } else {
            let dealer_commitments = match commitments.get(&dealer) {
                Some(c) => c,
                None => {
                    assert(judged(dealer) is Err);
                    return Err(VssError::Malformed("missing dealer commitments"));
                },
            };
            let dealer_openings = match openings.get(&dealer) {
                Some(o) => o,
                None => {
                    assert(judged(dealer) is Err);
                    return Err(VssError::Malformed("missing dealer openings"));
                },
            };
            let settlement = settle(
                generators,
                dealer_commitments,
                dealer_openings,
                &against,
                neutral_count,
                rng,
            );
            match settlement {
                Settlement::Cleared => {},
                Settlement::Lost => {
                    reason = Some(DisqualificationReason::LostDisputation);
                },
                Settlement::Missing => {
                    assert(judged(dealer) is Err);
                    return Err(VssError::Malformed("missing opening for complainer"));
                },
            }
        }
        assert(judged(dealer) == Judgement::<DisqualificationReason>::Ok(reason));
        if let Some(why) = reason {
            disqualified.insert(dealer, why);
        }
        assert(disqualified@ =~= sentences(after, judged));
    }
    proof {
        assert(order@.take(order.len() as int) =~= order@);
        assert forall|d: usize| dealers.contains(d) implies #[trigger] judged(d) is Ok by {
            assert(order@.to_set().contains(d));
            let k = choose|k: int| 0 <= k < order@.len() && order@[k] == d;
            assert(judged(order[k]) is Ok);
        }
    }
    let everyone = ascending(all_dealers);
    let mut qual: BTreeSet<usize> = BTreeSet::new();
    for i in 0..everyone.len()
        invariant
            everyone@.to_set() == all_dealers@,
            forall|d: usize|
                qual@.contains(d) <==> everyone@.take(i as int).to_set().contains(d)
                    && !disqualified@.contains_key(d),
    {
        let dealer = everyone[i];
        proof {
            lemma_take_set(everyone@, i as int);
        }
        if !disqualified.contains_key(&dealer) {
            qual.insert(dealer);
        }
    }
    proof {
        assert(everyone@.take(everyone.len() as int) =~= everyone@);
        assert(qual@ =~= all_dealers@.difference(disqualified@.dom()));
    }
    Ok(ComplaintOutcome { qual, disqualified })
}

/// A dealer that the publicly verifiable layer did not report, whose openings are sound, is cleared of
/// up to `degree - 1` accusations, whoever makes them.
pub proof fn law_sound_dealer_cleared<C: Curve>(
    generators: PedersenGenerators<C>,
    degree: usize,
    qagg: Set<usize>,
    commitments: Map<usize, Vec<Point<C>>>,
    openings: Map<usize, Vec<PedersenShare<C>>>,
    accusations: Seq<(usize, usize)>,
    d: usize,
)
    requires
        !qagg.contains(d),
        complainers(accusations, d).len() <= if degree >= 1 {
            degree - 1
        } else {
            0
        },
        commitments.contains_key(d),
        openings.contains_key(d),
        forall|c: usize| #[trigger]
            complainers(accusations, d).contains(c) ==> 1 <= c <= openings[d].len()
                && share_checks(
                generators,
                exponents(commitments[d]@),
                c as int,
                openings[d][c - 1],
            ),
    ensures
        judge(generators, degree, qagg, commitments, openings, accusations)(d)
            == Judgement::<DisqualificationReason>::Ok(None),
{
    let against = complainers(accusations, d);
    let sound = opening_sound(generators, exponents(commitments[d]@), openings[d]@);
    assert forall|c: usize| against.contains(c) implies #[trigger] sound(c) == Some(true) by {
    }
    assert(settled(against, sound, Settlement::Cleared));
}

/// A dealer that the publicly verifiable layer reported is disqualified by any accusation, without a
/// disputation.
pub proof fn law_reported_dealer_out<C: Curve>(
    generators: PedersenGenerators<C>,
    degree: usize,
    qagg: Set<usize>,
    commitments: Map<usize, Vec<Point<C>>>,
    openings: Map<usize, Vec<PedersenShare<C>>>,
    accusations: Seq<(usize, usize)>,
    d: usize,
)
    requires
        qagg.contains(d),
    ensures
        judge(generators, degree, qagg, commitments, openings, accusations)(d)
            == Judgement::<DisqualificationReason>::Ok(Some(DisqualificationReason::InQagg)),
{
}

/// A dealer with an unsound opening for some complainer, and openings for all, is never cleared.
pub proof fn law_cheating_dealer_out<C: Curve>(
    generators: PedersenGenerators<C>,
    degree: usize,
    qagg: Set<usize>,
    commitments: Map<usize, Vec<Point<C>>>,
    openings: Map<usize, Vec<PedersenShare<C>>>,
    accusations: Seq<(usize, usize)>,
    d: usize,
    c: usize,
)
    requires
        commitments.contains_key(d),
        openings.contains_key(d),
        forall|x: usize| #[trigger]
            complainers(accusations, d).contains(x) ==> 1 <= x <= openings[d].len(),
        complainers(accusations, d).contains(c),
        !share_checks(
            generators,
            exponents(commitments[d]@),
            c as int,
            openings[d][c - 1],
        ),
    ensures
        judge(generators, degree, qagg, commitments, openings, accusations)(d) matches Ok(Some(_)),
{
    let against = complainers(accusations, d);
    let sound = opening_sound(generators, exponents(commitments[d]@), openings[d]@);
    assert(sound(c) == Some(false));
    let first = lemma_first_unsettled(against, sound, c);
    assert(against.contains(first));
    assert(sound(first) == Some(false));
    assert(settled(against, sound, Settlement::Lost));
    assert(!settled(against, sound, Settlement::Cleared));
}

} // verus!
