//! What the complaint phase of the Pedersen layer is for.
use crate::algebra::{cong, poly};
use crate::curve::{exponents, Curve, Point};
use crate::dkg::accusations::{
    accused, complainers, first_unsettled, lemma_first_unsettled, settled, Judgement, Settlement,
};
use crate::dkg::complaint::{
    judge, opening_sound, pairs, phase_ends, Complaint, ComplaintOutcome, DisqualificationReason,
};
use crate::dkg::pedersen::{PedersenGenerators, PedersenShare};
use crate::dkg::errors::VssError;
use vstd::prelude::*;

verus! {

/// Receiver `c` complains of dealer `d`.
pub open spec fn accuses(complaints: Seq<Complaint>, d: usize, c: usize) -> bool {
    exists|k: int|
        0 <= k < complaints.len() && (#[trigger] complaints[k]).dealer == d
            && complaints[k].complainer == c
}

/// The opening for receiver `c` opens the commitments: it commits to the value at `c` of the
/// polynomial whose coefficients they are.
pub open spec fn opens<C: Curve>(
    generators: PedersenGenerators<C>,
    commitments: Seq<Point<C>>,
    c: usize,
    opening: PedersenShare<C>,
) -> bool {
    cong(
        generators.g1@ * opening.sf@ + generators.h1@ * opening.sf_prime@ + generators.g2@
            * opening.sg@ + generators.h2@ * opening.sg_prime@,
        poly(exponents(commitments), c as int),
        C::order(),
    )
}

proof fn lemma_accuses(complaints: Seq<Complaint>, d: usize)
    ensures
        complainers(pairs(complaints), d).finite(),
        forall|c: usize| #[trigger]
            complainers(pairs(complaints), d).contains(c) <==> accuses(complaints, d, c),
        accused(pairs(complaints)).contains(d) <==> exists|c: usize| accuses(complaints, d, c),
{
    let ps = pairs(complaints);
    let cs = ps.map_values(|p: (usize, usize)| p.1);
    assert forall|c: usize| #[trigger] complainers(ps, d).contains(c) <==> accuses(
        complaints,
        d,
        c,
    ) by {
        if complainers(ps, d).contains(c) {
            let k = choose|k: int| 0 <= k < ps.len() && ps[k] == (d, c);
            assert(complaints[k].dealer == d && complaints[k].complainer == c);
        }
        if accuses(complaints, d, c) {
            let k = choose|k: int|
                0 <= k < complaints.len() && (#[trigger] complaints[k]).dealer == d
                    && complaints[k].complainer == c;
            assert(ps[k] == (d, c));
        }
    }
    if accused(ps).contains(d) {
        let k = choose|k: int| 0 <= k < ps.len() && ps[k].0 == d;
        assert(complaints[k].dealer == d);
        assert(accuses(complaints, d, complaints[k].complainer));
    }
    if exists|c: usize| accuses(complaints, d, c) {
        let c = choose|c: usize| accuses(complaints, d, c);
        let k = choose|k: int|
            0 <= k < complaints.len() && (#[trigger] complaints[k]).dealer == d
                && complaints[k].complainer == c;
        assert(ps[k].0 == d);
    }
    vstd::seq_lib::seq_to_set_is_finite(cs);
    assert forall|c: usize| complainers(ps, d).contains(c) implies cs.to_set().contains(c) by {
        let k = choose|k: int| 0 <= k < ps.len() && ps[k] == (d, c);
        assert(cs[k] == c);
    }
    vstd::set_lib::lemma_len_subset(complainers(ps, d), cs.to_set());
}

/// A dealer that `degree` or more different receivers accuse, and at least one, is disqualified for
/// that, whatever its openings are.
pub proof fn law_many_accusers<C: Curve>(
    generators: PedersenGenerators<C>,
    degree: usize,
    all_dealers: Set<usize>,
    qagg: Set<usize>,
    commitments: Map<usize, Vec<Point<C>>>,
    openings: Map<usize, Vec<PedersenShare<C>>>,
    complaints: Seq<Complaint>,
    r: Result<ComplaintOutcome, VssError>,
    d: usize,
    accusers: Set<usize>,
)
    requires
        phase_ends(generators, degree, all_dealers, qagg, commitments, openings, complaints, r),
        r is Ok,
        !qagg.contains(d),
        accusers.finite(),
        accusers.len() >= degree,
        accusers.len() >= 1,
        forall|c: usize| #[trigger] accusers.contains(c) ==> accuses(complaints, d, c),
    ensures
        r->Ok_0.disqualified@.contains_key(d),
        r->Ok_0.disqualified@[d] == DisqualificationReason::TooManyComplaints,
        !r->Ok_0.qual@.contains(d),
{
    lemma_accuses(complaints, d);
    let against = complainers(pairs(complaints), d);
    assert(accusers.subset_of(against));
    vstd::set_lib::lemma_len_subset(accusers, against);
    let c = accusers.choose();
    assert(accusers.contains(c));
    assert(accuses(complaints, d, c));
}

/// A dealer whose accusers are fewer than `degree`, and whose opening for each of them opens the
/// commitments, is not disqualified, and qualifies if it is a dealer at all.
pub proof fn law_sound_openings_clear<C: Curve>(
    generators: PedersenGenerators<C>,
    degree: usize,
    all_dealers: Set<usize>,
    qagg: Set<usize>,
    commitments: Map<usize, Vec<Point<C>>>,
    openings: Map<usize, Vec<PedersenShare<C>>>,
    complaints: Seq<Complaint>,
    r: Result<ComplaintOutcome, VssError>,
    d: usize,
    accusers: Set<usize>,
)
    requires
        phase_ends(generators, degree, all_dealers, qagg, commitments, openings, complaints, r),
        r is Ok,
        !qagg.contains(d),
        accusers.finite(),
        accusers.len() < degree,
        forall|c: usize| #[trigger] accuses(complaints, d, c) ==> accusers.contains(c),
        commitments.contains_key(d),
        openings.contains_key(d),
        forall|c: usize| #[trigger]
            accuses(complaints, d, c) ==> 1 <= c <= openings[d].len() && opens(
                generators,
                commitments[d]@,
                c,
                openings[d][c - 1],
            ),
    ensures
        !r->Ok_0.disqualified@.contains_key(d),
        r->Ok_0.qual@.contains(d) <==> all_dealers.contains(d),
{
    lemma_accuses(complaints, d);
    let against = complainers(pairs(complaints), d);
    assert forall|c: usize| against.contains(c) implies accusers.contains(c) by {
        assert(accuses(complaints, d, c));
    }
    vstd::set_lib::lemma_len_subset(against, accusers);
    let sound = opening_sound(generators, exponents(commitments[d]@), openings[d]@);
    assert forall|c: usize| against.contains(c) implies #[trigger] sound(c) == Some(true) by {
        assert(accuses(complaints, d, c));
    }
    assert(settled(against, sound, Settlement::Cleared));
}

/// A dealer that nobody accuses is not disqualified, and qualifies if it is a dealer at all.
pub proof fn law_unaccused_qualifies<C: Curve>(
    generators: PedersenGenerators<C>,
    degree: usize,
    all_dealers: Set<usize>,
    qagg: Set<usize>,
    commitments: Map<usize, Vec<Point<C>>>,
    openings: Map<usize, Vec<PedersenShare<C>>>,
    complaints: Seq<Complaint>,
    r: Result<ComplaintOutcome, VssError>,
    d: usize,
)
    requires
        phase_ends(generators, degree, all_dealers, qagg, commitments, openings, complaints, r),
        r is Ok,
        forall|k: int| 0 <= k < complaints.len() ==> (#[trigger] complaints[k]).dealer != d,
    ensures
        !r->Ok_0.disqualified@.contains_key(d),
        r->Ok_0.qual@.contains(d) <==> all_dealers.contains(d),
{
    lemma_accuses(complaints, d);
}

/// Everybody who is a dealer either qualifies or is disqualified, nobody both, and only dealers
/// qualify.
pub proof fn law_partition<C: Curve>(
    generators: PedersenGenerators<C>,
    degree: usize,
    all_dealers: Set<usize>,
    qagg: Set<usize>,
    commitments: Map<usize, Vec<Point<C>>>,
    openings: Map<usize, Vec<PedersenShare<C>>>,
    complaints: Seq<Complaint>,
    r: Result<ComplaintOutcome, VssError>,
    d: usize,
)
    requires
        phase_ends(generators, degree, all_dealers, qagg, commitments, openings, complaints, r),
        r is Ok,
    ensures
        r->Ok_0.qual@.contains(d) ==> all_dealers.contains(d)
            && !r->Ok_0.disqualified@.contains_key(d),
        all_dealers.contains(d) ==> r->Ok_0.qual@.contains(d)
            || r->Ok_0.disqualified@.contains_key(d),
{
}

/// Nobody is disqualified without cause: each disqualified dealer is accused; who is out for too many
/// complaints has at least `degree` accusers; and who is out for a lost disputation has fewer, and an
/// opening for one of them that does not open the commitments.
pub proof fn law_disqualified_for_cause<C: Curve>(
    generators: PedersenGenerators<C>,
    degree: usize,
    all_dealers: Set<usize>,
    qagg: Set<usize>,
    commitments: Map<usize, Vec<Point<C>>>,
    openings: Map<usize, Vec<PedersenShare<C>>>,
    complaints: Seq<Complaint>,
    r: Result<ComplaintOutcome, VssError>,
    d: usize,
)
    requires
        phase_ends(generators, degree, all_dealers, qagg, commitments, openings, complaints, r),
        r is Ok,
        r->Ok_0.disqualified@.contains_key(d),
    ensures
        exists|c: usize| accuses(complaints, d, c),
        r->Ok_0.disqualified@[d] == DisqualificationReason::InQagg <==> qagg.contains(d),
        r->Ok_0.disqualified@[d] == DisqualificationReason::TooManyComplaints ==> exists|
            accusers: Set<usize>,
        |
            {
                &&& #[trigger] accusers.finite()
                &&& accusers.len() >= degree
                &&& accusers.len() >= 1
                &&& forall|c: usize| accusers.contains(c) ==> accuses(complaints, d, c)
            },
        r->Ok_0.disqualified@[d] == DisqualificationReason::LostDisputation ==> {
            &&& exists|c: usize|
                {
                    &&& #[trigger] accuses(complaints, d, c)
                    &&& 1 <= c <= openings[d].len()
                    &&& !opens(generators, commitments[d]@, c, openings[d][c - 1])
                }
            &&& forall|accusers: Set<usize>|
                #[trigger] accusers.finite() && (forall|c: usize|
                    accusers.contains(c) ==> accuses(complaints, d, c)) ==> accusers.len() < degree
                    || accusers.len() == 0
        },
{
    lemma_accuses(complaints, d);
    let against = complainers(pairs(complaints), d);
    let judged = judge(generators, degree, qagg, commitments, openings, pairs(complaints));
    if r->Ok_0.disqualified@[d] == DisqualificationReason::TooManyComplaints {
        assert(against.finite());
        if against.len() == 0 {
            let c = choose|c: usize| accuses(complaints, d, c);
            assert(against.contains(c));
        }
    }
    if r->Ok_0.disqualified@[d] == DisqualificationReason::LostDisputation {
        let sound = opening_sound(generators, exponents(commitments[d]@), openings[d]@);
        assert(settled(against, sound, Settlement::Lost));
        let c = choose|c: usize|
            #[trigger] first_unsettled(against, sound, c) && sound(c) == Some(false);
        assert(against.contains(c));
        assert(accuses(complaints, d, c));
        assert forall|accusers: Set<usize>|
            #[trigger] accusers.finite() && (forall|c: usize|
                accusers.contains(c) ==> accuses(complaints, d, c)) implies accusers.len() < degree
            || accusers.len() == 0 by {
            assert(accusers.subset_of(against));
            vstd::set_lib::lemma_len_subset(accusers, against);
        }
    }
}

/// A dealer with an opening that does not open the commitments for one of its accusers is out.
pub proof fn law_unsound_opening_condemns<C: Curve>(
    generators: PedersenGenerators<C>,
    degree: usize,
    all_dealers: Set<usize>,
    qagg: Set<usize>,
    commitments: Map<usize, Vec<Point<C>>>,
    openings: Map<usize, Vec<PedersenShare<C>>>,
    complaints: Seq<Complaint>,
    r: Result<ComplaintOutcome, VssError>,
    d: usize,
    c: usize,
)
    requires
        phase_ends(generators, degree, all_dealers, qagg, commitments, openings, complaints, r),
        r is Ok,
        accuses(complaints, d, c),
        commitments.contains_key(d),
        openings.contains_key(d),
        1 <= c <= openings[d].len(),
        !opens(generators, commitments[d]@, c, openings[d][c - 1]),
    ensures
        r->Ok_0.disqualified@.contains_key(d),
        !r->Ok_0.qual@.contains(d),
{
    lemma_accuses(complaints, d);
    let against = complainers(pairs(complaints), d);
    let judged = judge(generators, degree, qagg, commitments, openings, pairs(complaints));
    let sound = opening_sound(generators, exponents(commitments[d]@), openings[d]@);
    assert(accused(pairs(complaints)).contains(d));
    assert(judged(d) is Ok);
    assert(against.contains(c));
    assert(sound(c) == Some(false));
    let first = lemma_first_unsettled(against, sound, c);
    assert(!settled(against, sound, Settlement::Cleared));
}

/// More accusations never help: who is disqualified over some complaints is disqualified over any
/// complaints that hold these.
pub proof fn law_more_accusers_never_help<C: Curve>(
    generators: PedersenGenerators<C>,
    degree: usize,
    all_dealers: Set<usize>,
    qagg: Set<usize>,
    commitments: Map<usize, Vec<Point<C>>>,
    openings: Map<usize, Vec<PedersenShare<C>>>,
    fewer: Seq<Complaint>,
    more: Seq<Complaint>,
    a: Result<ComplaintOutcome, VssError>,
    b: Result<ComplaintOutcome, VssError>,
    d: usize,
)
    requires
        phase_ends(generators, degree, all_dealers, qagg, commitments, openings, fewer, a),
        phase_ends(generators, degree, all_dealers, qagg, commitments, openings, more, b),
        a is Ok,
        b is Ok,
        forall|d: usize, c: usize| #[trigger] accuses(fewer, d, c) ==> accuses(more, d, c),
        a->Ok_0.disqualified@.contains_key(d),
    ensures
        b->Ok_0.disqualified@.contains_key(d),
        !b->Ok_0.qual@.contains(d),
{
    lemma_accuses(fewer, d);
    lemma_accuses(more, d);
    let (few, many) = (complainers(pairs(fewer), d), complainers(pairs(more), d));
    assert forall|c: usize| few.contains(c) implies many.contains(c) by {
        assert(accuses(fewer, d, c));
    }
    vstd::set_lib::lemma_len_subset(few, many);
    let c = choose|c: usize| accuses(fewer, d, c);
    assert(accuses(more, d, c));
    let judged = judge(generators, degree, qagg, commitments, openings, pairs(more));
    assert(accused(pairs(more)).contains(d));
    assert(judged(d) is Ok);
    if a->Ok_0.disqualified@[d] == DisqualificationReason::LostDisputation {
        let sound = opening_sound(generators, exponents(commitments[d]@), openings[d]@);
        assert(settled(few, sound, Settlement::Lost));
        let x = choose|x: usize|
            #[trigger] first_unsettled(few, sound, x) && sound(x) == Some(false);
        assert(many.contains(x));
        assert(!settled(many, sound, Settlement::Cleared));
    }
}

/// Only who accuses whom counts: neither the order of the complaints nor a repetition changes the
/// outcome.
pub proof fn law_order_plays_no_part<C: Curve>(
    generators: PedersenGenerators<C>,
    degree: usize,
    all_dealers: Set<usize>,
    qagg: Set<usize>,
    commitments: Map<usize, Vec<Point<C>>>,
    openings: Map<usize, Vec<PedersenShare<C>>>,
    one: Seq<Complaint>,
    other: Seq<Complaint>,
    a: Result<ComplaintOutcome, VssError>,
    b: Result<ComplaintOutcome, VssError>,
)
    requires
        phase_ends(generators, degree, all_dealers, qagg, commitments, openings, one, a),
        phase_ends(generators, degree, all_dealers, qagg, commitments, openings, other, b),
        a is Ok,
        b is Ok,
        forall|d: usize, c: usize| #[trigger] accuses(one, d, c) <==> accuses(other, d, c),
    ensures
        a->Ok_0.qual@ == b->Ok_0.qual@,
        a->Ok_0.disqualified@ == b->Ok_0.disqualified@,
{
    assert forall|d: usize| #[trigger] complainers(pairs(one), d) == complainers(
        pairs(other),
        d,
    ) && accused(pairs(one)).contains(d) == accused(pairs(other)).contains(d) by {
        lemma_accuses(one, d);
        lemma_accuses(other, d);
        assert forall|c: usize| complainers(pairs(one), d).contains(c) == complainers(
            pairs(other),
            d,
        ).contains(c) by {
            assert(accuses(one, d, c) == accuses(other, d, c));
        }
        assert(complainers(pairs(one), d) =~= complainers(pairs(other), d));
        if exists|c: usize| accuses(one, d, c) {
            let c = choose|c: usize| accuses(one, d, c);
            assert(accuses(other, d, c));
        }
        if exists|c: usize| accuses(other, d, c) {
            let c = choose|c: usize| accuses(other, d, c);
            assert(accuses(one, d, c));
        }
    }
    let j1 = judge(generators, degree, qagg, commitments, openings, pairs(one));
    let j2 = judge(generators, degree, qagg, commitments, openings, pairs(other));
    assert forall|d: usize| #[trigger] j1(d) == j2(d) by {
        assert(complainers(pairs(one), d) == complainers(pairs(other), d));
    }
    assert forall|d: usize| #[trigger] a->Ok_0.disqualified@.contains_key(d)
        == b->Ok_0.disqualified@.contains_key(d) by {
        assert(complainers(pairs(one), d) == complainers(pairs(other), d));
        assert(j1(d) == j2(d));
    }
    assert(a->Ok_0.disqualified@ =~= b->Ok_0.disqualified@) by {
        assert forall|d: usize| a->Ok_0.disqualified@.contains_key(d) implies
            a->Ok_0.disqualified@[d] == b->Ok_0.disqualified@[d] by {
            assert(j1(d) == j2(d));
        }
    }
}

/// The phase succeeds where nothing is missing: commitments, openings, and an opening for every
/// accuser, of each accused dealer that the layer for `z` did not report.
pub proof fn law_complete_data_suffices<C: Curve>(
    generators: PedersenGenerators<C>,
    degree: usize,
    all_dealers: Set<usize>,
    qagg: Set<usize>,
    commitments: Map<usize, Vec<Point<C>>>,
    openings: Map<usize, Vec<PedersenShare<C>>>,
    complaints: Seq<Complaint>,
    r: Result<ComplaintOutcome, VssError>,
)
    requires
        phase_ends(generators, degree, all_dealers, qagg, commitments, openings, complaints, r),
        forall|d: usize, c: usize|
            !qagg.contains(d) && #[trigger] accuses(complaints, d, c) ==> {
                &&& commitments.contains_key(d)
                &&& openings.contains_key(d)
                &&& 1 <= c <= openings[d].len()
            },
    ensures
        r is Ok,
{
    let judged = judge(generators, degree, qagg, commitments, openings, pairs(complaints));
    if let Err(e) = r {
        let d = choose|d: usize|
            {
                &&& accused(pairs(complaints)).contains(d)
                &&& #[trigger] judged(d) == Judgement::<DisqualificationReason>::Err(e)
                &&& forall|c: usize|
                    accused(pairs(complaints)).contains(c) && c < d ==> judged(c) is Ok
            };
        lemma_accuses(complaints, d);
        let against = complainers(pairs(complaints), d);
        let c = choose|c: usize| accuses(complaints, d, c);
        assert(accuses(complaints, d, c));
        let sound = opening_sound(generators, exponents(commitments[d]@), openings[d]@);
        if !settled(against, sound, Settlement::Cleared) {
            let x = choose|x: usize| against.contains(x) && #[trigger] sound(x) != Some(true);
            let first = lemma_first_unsettled(against, sound, x);
            assert(accuses(complaints, d, first));
            assert(sound(first) == Some(false));
            assert(settled(against, sound, Settlement::Lost));
        }
    }
}

/// An accused dealer that the layer for `z` reported is out for that, whatever else is known of it.
pub proof fn law_reported_and_accused<C: Curve>(
    generators: PedersenGenerators<C>,
    degree: usize,
    all_dealers: Set<usize>,
    qagg: Set<usize>,
    commitments: Map<usize, Vec<Point<C>>>,
    openings: Map<usize, Vec<PedersenShare<C>>>,
    complaints: Seq<Complaint>,
    r: Result<ComplaintOutcome, VssError>,
    d: usize,
    c: usize,
)
    requires
        phase_ends(generators, degree, all_dealers, qagg, commitments, openings, complaints, r),
        r is Ok,
        qagg.contains(d),
        accuses(complaints, d, c),
    ensures
        r->Ok_0.disqualified@.contains_key(d),
        r->Ok_0.disqualified@[d] == DisqualificationReason::InQagg,
        !r->Ok_0.qual@.contains(d),
{
    lemma_accuses(complaints, d);
}

/// Where data is missing, the phase fails with what is missing of the first dealer that lacks any: an
/// accused dealer with fewer than `degree` accusers that the layer for `z` did not report needs
/// commitments, openings, and an opening for each accuser, as long as those before it open the
/// commitments.
pub proof fn law_missing_data<C: Curve>(
    generators: PedersenGenerators<C>,
    degree: usize,
    all_dealers: Set<usize>,
    qagg: Set<usize>,
    commitments: Map<usize, Vec<Point<C>>>,
    openings: Map<usize, Vec<PedersenShare<C>>>,
    complaints: Seq<Complaint>,
    r: Result<ComplaintOutcome, VssError>,
    d: usize,
    c: usize,
    accusers: Set<usize>,
)
    requires
        phase_ends(generators, degree, all_dealers, qagg, commitments, openings, complaints, r),
        !qagg.contains(d),
        accuses(complaints, d, c),
        accusers.finite(),
        accusers.len() < degree,
        forall|x: usize| #[trigger] accuses(complaints, d, x) ==> accusers.contains(x),
        forall|e: usize, x: usize|
            e < d && #[trigger] accuses(complaints, e, x) ==> {
                &&& commitments.contains_key(e)
                &&& openings.contains_key(e)
                &&& 1 <= x <= openings[e].len()
            },
    ensures
        !commitments.contains_key(d) ==> r == Result::<ComplaintOutcome, VssError>::Err(
            VssError::Malformed("missing dealer commitments"),
        ),
        commitments.contains_key(d) && !openings.contains_key(d) ==> r == Result::<
            ComplaintOutcome,
            VssError,
        >::Err(VssError::Malformed("missing dealer openings")),
        commitments.contains_key(d) && openings.contains_key(d) && !(1 <= c <= openings[d].len())
            && (forall|x: usize| #[trigger]
            accuses(complaints, d, x) && x < c ==> 1 <= x <= openings[d].len() && opens(
                generators,
                commitments[d]@,
                x,
                openings[d][x - 1],
            )) ==> r == Result::<ComplaintOutcome, VssError>::Err(
            VssError::Malformed("missing opening for complainer"),
        ),
{
    let judged = judge(generators, degree, qagg, commitments, openings, pairs(complaints));
    let dealers = accused(pairs(complaints));
    let against = complainers(pairs(complaints), d);
    lemma_accuses(complaints, d);
    assert forall|x: usize| against.contains(x) implies accusers.contains(x) by {
        assert(accuses(complaints, d, x));
    }
    vstd::set_lib::lemma_len_subset(against, accusers);
    assert(dealers.contains(d));
    let sound = opening_sound(generators, exponents(commitments[d]@), openings[d]@);
    if commitments.contains_key(d) && openings.contains_key(d) && !(1 <= c <= openings[d].len())
        && (forall|x: usize| #[trigger]
        accuses(complaints, d, x) && x < c ==> 1 <= x <= openings[d].len() && opens(
            generators,
            commitments[d]@,
            x,
            openings[d][x - 1],
        )) {
        assert(sound(c) == None::<bool>);
        assert(against.contains(c));
        assert forall|x: usize| against.contains(x) && x < c implies sound(x) == Some(true) by {
            assert(accuses(complaints, d, x));
        }
        assert(first_unsettled(against, sound, c));
        assert(settled(against, sound, Settlement::Missing));
        assert(!settled(against, sound, Settlement::Cleared));
        if settled(against, sound, Settlement::Lost) {
            crate::dkg::accusations::law_settled_unique(
                against,
                sound,
                Settlement::Lost,
                Settlement::Missing,
            );
        }
    }
    let short = !commitments.contains_key(d) || !openings.contains_key(d) || judged(d) is Err;
    if short {
        assert(judged(d) is Err);
        assert forall|e: usize| dealers.contains(e) && e < d implies judged(e) is Ok by {
            lemma_judged(
                generators,
                degree, qagg,
                commitments,
                openings,
                complaints,
                e,
            );
        }
        let e = r->Err_0;
        let first = choose|x: usize|
            {
                &&& dealers.contains(x)
                &&& #[trigger] judged(x) == Judgement::<DisqualificationReason>::Err(e)
                &&& forall|y: usize| dealers.contains(y) && y < x ==> judged(y) is Ok
            };
        assert(r is Err);
        assert(first == d);
    }
}

proof fn lemma_judged<C: Curve>(
    generators: PedersenGenerators<C>,
    degree: usize,
    qagg: Set<usize>,
    commitments: Map<usize, Vec<Point<C>>>,
    openings: Map<usize, Vec<PedersenShare<C>>>,
    complaints: Seq<Complaint>,
    d: usize,
)
    requires
        accused(pairs(complaints)).contains(d),
        forall|x: usize| #[trigger]
            accuses(complaints, d, x) ==> {
                &&& commitments.contains_key(d)
                &&& openings.contains_key(d)
                &&& 1 <= x <= openings[d].len()
            },
    ensures
        judge(generators, degree, qagg, commitments, openings, pairs(complaints))(d) is Ok,
{
    lemma_accuses(complaints, d);
    let against = complainers(pairs(complaints), d);
    let c = choose|c: usize| accuses(complaints, d, c);
    assert(accuses(complaints, d, c));
    let sound = opening_sound(generators, exponents(commitments[d]@), openings[d]@);
    if !settled(against, sound, Settlement::Cleared) {
        let x = choose|x: usize| against.contains(x) && #[trigger] sound(x) != Some(true);
        let first = lemma_first_unsettled(against, sound, x);
        assert(accuses(complaints, d, first));
        assert(sound(first) == Some(false));
        assert(settled(against, sound, Settlement::Lost));
    }
}

} // verus!
