//! What a round of dealing, complaining and resolving comes to, in terms of the shares dealt.
use crate::algebra::{cong, poly};
use crate::curve::{exponents, Curve};
use crate::dkg::accusations::{failing_receivers, failures, failures_upto, lemma_failures};
use crate::dkg::complaint::{Complaint, ComplaintOutcome, DisqualificationReason};
use crate::dkg::pedersen::PedersenGenerators;
use crate::dkg::published::{victim_of, Published};
use crate::dkg::round::{
    complaints_of, reason_for, soundness, unsound_dealers, unsound_receivers, Dealing,
};
use crate::dkg::suite::Suite;
use vstd::prelude::*;

verus! {

broadcast use {vstd::laws_cmp::group_laws_cmp, vstd::std_specs::btree::group_btree_axioms};

/// The share that dealer `d` dealt to receiver `c`, counted from one, does not open its commitments:
/// the commitment to the share is not the value at `c` of the commitments as coefficients.
pub open spec fn fails<C: Curve, X>(
    dealings: Seq<Dealing<C, X>>,
    generators: PedersenGenerators<C>,
    d: usize,
    c: usize,
) -> bool {
    let dealt = dealings[d as int].distribution;
    let share = dealt.shares[c - 1];
    &&& d < dealings.len()
    &&& 1 <= c <= dealings.len()
    &&& !cong(
        generators.g1@ * share.sf@ + generators.h1@ * share.sf_prime@ + generators.g2@ * share.sg@
            + generators.h2@ * share.sg_prime@,
        poly(exponents(dealt.commitments@), c as int),
        C::order(),
    )
}

/// Failures stand in the order of the dealers and, for one dealer, of the receivers.
pub proof fn lemma_ascending(sound: spec_fn(int, int) -> bool, n: int, d: int, j: int)
    requires
        0 <= d <= n <= usize::MAX,
        0 <= j <= n,
        d == n ==> j == 0,
    ensures
        forall|i: int|
            0 <= i < failures_upto(sound, n, d, j).len() ==> {
                let c = #[trigger] failures_upto(sound, n, d, j)[i];
                1 <= c.1 <= n && (c.0 < d || (c.0 == d && c.1 <= j))
            },
        forall|a: int, b: int|
            0 <= a < b < failures_upto(sound, n, d, j).len() ==> {
                let (x, y) = (
                    #[trigger] failures_upto(sound, n, d, j)[a],
                    #[trigger] failures_upto(sound, n, d, j)[b],
                );
                x.0 < y.0 || (x.0 == y.0 && x.1 < y.1)
            },
    decreases d, j,
{
    if d == 0 && j == 0 {
    } else if j == 0 {
        lemma_ascending(sound, n, d - 1, n);
        assert(failures_upto(sound, n, d, j) == failures_upto(sound, n, d - 1, n));
    } else {
        lemma_ascending(sound, n, d, j - 1);
        let (rest, all) = (failures_upto(sound, n, d, j - 1), failures_upto(sound, n, d, j));
        assert(all == rest || all == rest.push((d as usize, j as usize)));
        assert forall|i: int| 0 <= i < all.len() implies {
            let c = #[trigger] all[i];
            1 <= c.1 <= n && (c.0 < d || (c.0 == d && c.1 <= j))
        } by {
            if i < rest.len() {
                assert(all[i] == rest[i]);
            }
        }
        assert forall|a: int, b: int| 0 <= a < b < all.len() implies {
            let (x, y) = (#[trigger] all[a], #[trigger] all[b]);
            x.0 < y.0 || (x.0 == y.0 && x.1 < y.1)
        } by {
            assert(all[a] == rest[a]);
            if b < rest.len() {
                assert(all[b] == rest[b]);
            }
        }
    }
}

/// There is a complaint for every share that does not open its commitments and for no other; the
/// complaints stand in the order of the dealers and, for one dealer, of the receivers, none twice.
pub proof fn law_complaints_filed<C: Curve, X>(
    dealings: Seq<Dealing<C, X>>,
    generators: PedersenGenerators<C>,
    d: usize,
    c: usize,
    a: int,
    b: int,
)
    requires
        dealings.len() <= usize::MAX,
        forall|d: int|
            0 <= d < dealings.len() ==> (#[trigger] dealings[d]).distribution.shares.len()
                == dealings.len(),
    ensures
        ({
            let all = complaints_of(dealings, generators);
            &&& all.contains(Complaint { dealer: d, complainer: c }) <==> fails(
                dealings,
                generators,
                d,
                c,
            )
            &&& 0 <= a < b < all.len() ==> all[a].dealer < all[b].dealer || (all[a].dealer
                == all[b].dealer && all[a].complainer < all[b].complainer)
        }),
{
    let n = dealings.len() as int;
    let sound = soundness(dealings, generators);
    let ps = failures(sound, n);
    let all = complaints_of(dealings, generators);
    lemma_failures(sound, n);
    lemma_ascending(sound, n, n, 0);
    let it = Complaint { dealer: d, complainer: c };
    if all.contains(it) {
        let k = choose|k: int| 0 <= k < all.len() && all[k] == it;
        assert(ps[k] == (d, c));
        assert(ps[k].0 < n);
        assert(crate::dkg::accusations::complainers(ps, d).contains(c));
        assert(failing_receivers(sound, n, d as int).contains(c));
        assert(!sound(d as int, c - 1));
    }
    if fails(dealings, generators, d, c) {
        assert(!sound(d as int, c - 1));
        assert(failing_receivers(sound, n, d as int).contains(c));
        assert(crate::dkg::accusations::complainers(ps, d).contains(c));
        let k = choose|k: int| 0 <= k < ps.len() && ps[k] == (d, c);
        assert(all[k] == it);
    }
    if 0 <= a < b < all.len() {
        assert(all[a] == (Complaint { dealer: ps[a].0, complainer: ps[a].1 }));
        assert(all[b] == (Complaint { dealer: ps[b].0, complainer: ps[b].1 }));
    }
}

proof fn lemma_unsound<C: Curve, X>(
    dealings: Seq<Dealing<C, X>>,
    generators: PedersenGenerators<C>,
    d: usize,
)
    requires
        d < dealings.len() <= usize::MAX,
        dealings[d as int].distribution.shares.len() == dealings.len(),
    ensures
        forall|c: usize| #[trigger]
            unsound_receivers(dealings, generators, d as int).contains(c) <==> fails(
                dealings,
                generators,
                d,
                c,
            ),
        unsound_receivers(dealings, generators, d as int).finite(),
        unsound_dealers(dealings, generators).contains(d) <==> exists|c: usize|
            fails(dealings, generators, d, c),
{
    let n = dealings.len() as int;
    let bad = unsound_receivers(dealings, generators, d as int);
    let sound = soundness(dealings, generators);
    assert forall|c: usize| #[trigger] bad.contains(c) <==> fails(dealings, generators, d, c) by {
        if 1 <= c <= n {
            assert(sound(d as int, c - 1) == dealings[d as int].sound(generators, c - 1));
        }
    }
    vstd::set_lib::lemma_int_range(0, n + 1);
    let ints = vstd::set_lib::set_int_range(0, n + 1);
    let all = ints.map(|x: int| x as usize);
    assert forall|c: usize| bad.contains(c) implies all.contains(c) by {
        assert(ints.contains(c as int));
    }
    ints.lemma_map_finite(|x: int| x as usize);
    vstd::set_lib::lemma_len_subset(bad, all);
    if unsound_dealers(dealings, generators).contains(d) {
        let j = choose|j: int|
            0 <= j < n && !#[trigger] dealings[d as int].sound(generators, j);
        assert(!sound(d as int, j));
        assert(fails(dealings, generators, d, (j + 1) as usize));
    }
    if exists|c: usize| fails(dealings, generators, d, c) {
        let c = choose|c: usize| fails(dealings, generators, d, c);
        assert(!dealings[d as int].sound(generators, c - 1));
    }
}

/// A dealer with failing shares is out for the report of the layer for `z` if there is one; else for
/// too many complaints if at least `degree` of its shares fail; else for a lost disputation.
pub proof fn law_reasons<C: Curve, X>(
    dealings: Seq<Dealing<C, X>>,
    generators: PedersenGenerators<C>,
    degree: usize,
    qagg: Set<usize>,
    d: usize,
    receivers: Set<usize>,
)
    requires
        d < dealings.len() <= usize::MAX,
        dealings[d as int].distribution.shares.len() == dealings.len(),
        receivers.finite(),
    ensures
        ({
            let reason = reason_for(dealings, generators, degree, qagg, d);
            &&& qagg.contains(d) <==> reason == DisqualificationReason::InQagg
            &&& !qagg.contains(d) && receivers.len() >= degree && receivers.len() >= 1 && (forall|
                c: usize,
            | #[trigger]
                receivers.contains(c) ==> fails(dealings, generators, d, c)) ==> reason
                == DisqualificationReason::TooManyComplaints
            &&& !qagg.contains(d) && receivers.len() < degree && (forall|c: usize| #[trigger]
                fails(dealings, generators, d, c) ==> receivers.contains(c)) ==> reason
                == DisqualificationReason::LostDisputation
        }),
{
    lemma_unsound(dealings, generators, d);
    let bad = unsound_receivers(dealings, generators, d as int);
    if forall|c: usize| #[trigger] receivers.contains(c) ==> fails(dealings, generators, d, c) {
        assert(receivers.subset_of(bad));
        vstd::set_lib::lemma_len_subset(receivers, bad);
    }
    if forall|c: usize| #[trigger] fails(dealings, generators, d, c) ==> receivers.contains(c) {
        assert forall|c: usize| bad.contains(c) implies receivers.contains(c) by {
            assert(fails(dealings, generators, d, c));
        }
        vstd::set_lib::lemma_len_subset(bad, receivers);
    }
}

/// After the complaints a dealer qualifies exactly if the layer for `z` did not reject it and all its
/// shares open its commitments. Everybody else is disqualified: for the report of that layer, else for
/// too many complaints if at least `degree` shares fail, else for a lost disputation.
pub proof fn law_resolved<C: Curve, S>(
    published: Published<C, S>,
    suite: Suite<C>,
    degree: usize,
    qagg: Set<usize>,
    outcome: ComplaintOutcome,
    d: usize,
    receivers: Set<usize>,
)
    requires
        published.valid(suite, degree as int),
        published.resolved(suite, degree, qagg, outcome),
        published.dealings.len() <= usize::MAX,
        d < published.dealings.len(),
        receivers.finite(),
    ensures
        outcome.qual@.contains(d) <==> !qagg.contains(d) && forall|c: usize|
            !#[trigger] fails(published.dealings@, suite.generators, d, c),
        outcome.disqualified@.contains_key(d) <==> !outcome.qual@.contains(d),
        qagg.contains(d) ==> outcome.disqualified@[d] == DisqualificationReason::InQagg,
        outcome.disqualified@.contains_key(d) && !qagg.contains(d) && receivers.len() >= degree
            && receivers.len() >= 1 && (forall|c: usize| #[trigger]
            receivers.contains(c) ==> fails(published.dealings@, suite.generators, d, c))
            ==> outcome.disqualified@[d] == DisqualificationReason::TooManyComplaints,
        outcome.disqualified@.contains_key(d) && !qagg.contains(d) && receivers.len() < degree && (
        forall|c: usize| #[trigger]
            fails(published.dealings@, suite.generators, d, c) ==> receivers.contains(c))
            ==> outcome.disqualified@[d] == DisqualificationReason::LostDisputation,
{
    assert(published.dealings[d as int].valid(
        suite.generators,
        suite.base,
        suite.receiver_pks@,
        degree as int,
    ));
    law_reasons(published.dealings@, suite.generators, degree, qagg, d, receivers);
    lemma_unsound(published.dealings@, suite.generators, d);
    assert(outcome.qual@.contains(d) <==> published.qualifies(suite, qagg, d));
    assert(unsound_dealers(published.dealings@, suite.generators).contains(d)
        <==> !published.dealings[d as int].sound_throughout(suite.generators));
    assert(outcome.disqualified@.contains_key(d) <==> qagg.contains(d) || unsound_dealers(
        published.dealings@,
        suite.generators,
    ).contains(d));
    if outcome.disqualified@.contains_key(d) {
        assert(outcome.disqualified@[d] == published.reason(suite, degree, qagg, d));
    }
}

/// The victim of a dealer is the next participant, the last dealer's is the first; with two or more
/// nobody is its own victim, and no two dealers have the same.
pub proof fn law_victims(i: int, j: int, n: int)
    requires
        0 <= i < n,
        0 <= j < n,
    ensures
        i < n - 1 ==> victim_of(i, n) == i + 1,
        i == n - 1 ==> victim_of(i, n) == 0,
        n >= 2 ==> victim_of(i, n) != i,
        victim_of(i, n) == victim_of(j, n) ==> i == j,
{
    vstd::arithmetic::div_mod::lemma_mod_self_0(n);
    if i < n - 1 {
        vstd::arithmetic::div_mod::lemma_small_mod((i + 1) as nat, n as nat);
    }
    if j < n - 1 {
        vstd::arithmetic::div_mod::lemma_small_mod((j + 1) as nat, n as nat);
    }
}

} // verus!
