//! The last phase: the public key over the qualified dealers, and its reconstruction from shares.
use crate::algebra::{
    cong, lemma_cong_add, lemma_cong_mod, lemma_cong_mul, lemma_sum_cong, lemma_sum_eq, poly, sum,
};
use crate::collections::{ascending, enumerates, lemma_enumeration_unique};
use crate::curve::{Curve, Point};
use crate::dkg::carrier::Carrier;
use crate::dkg::dmkg::{aggregated, aggregates, part_sum, DMKGContribution, PublicKey};
use crate::dkg::encryption::{ElGamalBase, ElGamalKeypair};
use crate::dkg::mss::recovers;
use crate::dkg::pedersen::{PedersenDealerSecrets, PedersenGenerators};
use crate::dkg::round::{
    all_valid, keys_match, law_round_reconstructs, message_values, polynomials, reconstruct,
    reconstructed, Dealing, PedersenDealing,
};
use std::collections::BTreeSet;
use vstd::prelude::*;

verus! {

broadcast use {vstd::laws_cmp::group_laws_cmp, vstd::std_specs::btree::group_btree_axioms};

/// The contribution commits to the secrets of the dealing: `c1 = g1^x1 g2^x2`, `c2 = g1^y1 g2^y2`.
pub open spec fn commits_to<C: Curve, S>(
    contribution: DMKGContribution<C, S>,
    generators: PedersenGenerators<C>,
    secrets: PedersenDealerSecrets<C>,
) -> bool {
    let (m, g1, g2) = (C::order(), generators.g1@, generators.g2@);
    &&& contribution.c1_i@ == (g1 * secrets.x1@ + g2 * secrets.x2@) % m
    &&& contribution.c2_i@ == (g1 * secrets.y1@ + g2 * secrets.y2@) % m
}

/// There is a contribution for every dealing, and it commits to the secrets of that.
pub open spec fn all_commit<C: Curve, S>(
    contributions: Map<usize, DMKGContribution<C, S>>,
    dealings: Seq<PedersenDealing<C>>,
    generators: PedersenGenerators<C>,
) -> bool {
    forall|i: usize|
        i < dealings.len() ==> #[trigger] contributions.contains_key(i) && commits_to(
            contributions[i],
            generators,
            dealings[i as int].secrets,
        )
}

/// The reconstructed points are the first two of the key.
pub open spec fn matches_key<C: Curve>(c: (Point<C>, Point<C>), pk: PublicKey<C>) -> bool {
    c.0@ == pk.c1@ && c.1@ == pk.c2@
}

/// Whether the first two points of the key reconstruct from what the first `degree + 1` receivers
/// hold over the qualified dealers; `None` where nobody qualifies or there are too few receivers.
pub fn key_reconstructs<C: Curve, X: Carrier<C>>(
    dealings: &Vec<Dealing<C, X>>,
    generators: &PedersenGenerators<C>,
    base: &ElGamalBase<C>,
    pks: &Vec<Point<C>>,
    degree: usize,
    keys: &Vec<ElGamalKeypair<C>>,
    qual: &BTreeSet<usize>,
    pk: &PublicKey<C>,
) -> (r: Option<bool>)
    requires
        all_valid(dealings@, *generators, *base, pks@, degree as int),
        keys_match(*base, keys@, pks@),
        pks.len() <= i64::MAX,
        forall|d: usize| #[trigger] qual@.contains(d) ==> d < dealings.len(),
    ensures
        match r {
            Some(b) => {
                &&& qual@.len() > 0
                &&& degree < pks.len()
                &&& exists|order: Seq<usize>, c: (Point<C>, Point<C>)|
                    {
                        &&& #[trigger] enumerates(order, qual@)
                        &&& #[trigger] reconstructed(
                            c,
                            dealings@,
                            *generators,
                            order,
                            degree as int,
                        )
                        &&& b == matches_key(c, *pk)
                    }
            },
            None => qual@.len() == 0 || degree >= pks.len(),
        },
{
    if qual.len() == 0 || degree >= pks.len() {
        return None;
    }
    let order = ascending(qual);
    assert forall|k: int| 0 <= k < order.len() implies (#[trigger] order[k]) < dealings.len() by {
        assert(order@.to_set().contains(order@[k]));
    }
    let c = reconstruct(dealings, generators, base, pks, degree, keys, &order);
    let b = c.0 == pk.c1 && c.1 == pk.c2;
    assert(enumerates(order@, qual@));
    assert(b == matches_key(c, *pk));
    Some(b)
}

/// Reducing the arguments of a pair commitment changes nothing.
pub proof fn lemma_pair<C: Curve>(g1: int, g2: int, a: int, b: int)
    ensures
        cong(
            (g1 * (a % C::order()) + g2 * (b % C::order())) % C::order(),
            g1 * a + g2 * b,
            C::order(),
        ),
{
    let m = C::order();
    C::order_exceeds_words();
    lemma_cong_mod(a, m);
    lemma_cong_mod(b, m);
    lemma_cong_mul(g1, g1, a % m, a, m);
    lemma_cong_mul(g2, g2, b % m, b, m);
    lemma_cong_add(g1 * (a % m), g1 * a, g2 * (b % m), g2 * b, m);
    lemma_cong_mod(g1 * (a % m) + g2 * (b % m), m);
}

/// The public key reconstructs: over dealers all of whose shares check, the values that any
/// `degree + 1` or more receivers recover at `-1` and `-2` are the first two points of the
/// aggregated key.
pub proof fn law_key_reconstructs<C: Curve, S>(
    contributions: Map<usize, DMKGContribution<C, S>>,
    dealings: Seq<PedersenDealing<C>>,
    generators: PedersenGenerators<C>,
    degree: int,
    qual: Set<usize>,
    order: Seq<usize>,
    pk: PublicKey<C>,
    xs: Seq<int>,
    v1: int,
    v2: int,
)
    requires
        0 <= degree < xs.len(),
        forall|i: int| 0 <= i < xs.len() ==> 1 <= #[trigger] xs[i] <= dealings.len(),
        all_commit(contributions, dealings, generators),
        forall|d: usize| #[trigger]
            qual.contains(d) ==> {
                &&& d < dealings.len()
                &&& dealings[d as int].well_dealt(generators, degree, dealings.len() as int)
                &&& dealings[d as int].sound_throughout(generators)
            },
        aggregated(pk, contributions, qual),
        enumerates(order, qual),
        recovers(v1, xs, message_values(dealings, generators, order, xs), -1, C::order()),
        recovers(v2, xs, message_values(dealings, generators, order, xs), -2, C::order()),
    ensures
        v1 == pk.c1@,
        v2 == pk.c2@,
{
    let o = choose|o: Seq<usize>| #[trigger]
        enumerates(o, qual) && aggregates(pk, contributions, o);
    lemma_enumeration_unique(o, order, qual);
    let (m, g1, g2, l) = (C::order(), generators.g1@, generators.g2@, order.len() as int);
    C::order_exceeds_words();
    assert forall|k: int| 0 <= k < order.len() implies {
        &&& (#[trigger] order[k]) < dealings.len()
        &&& dealings[order[k] as int].well_dealt(generators, degree, dealings.len() as int)
        &&& dealings[order[k] as int].sound_throughout(generators)
    } by {
        assert(order.to_set().contains(order[k]));
        assert(qual.contains(order[k]));
    }
    law_round_reconstructs(dealings, generators, degree, order, xs, -1, v1);
    law_round_reconstructs(dealings, generators, degree, order, xs, -2, v2);
    let polys = polynomials(dealings, order);
    let (p1, p2) = (
        |c: DMKGContribution<C, S>| c.c1_i@,
        |c: DMKGContribution<C, S>| c.c2_i@,
    );
    let term1 = |k: int|
        if contributions.contains_key(order[k]) {
            p1(contributions[order[k]])
        } else {
            0
        };
    let term2 = |k: int|
        if contributions.contains_key(order[k]) {
            p2(contributions[order[k]])
        } else {
            0
        };
    let w1 = |d: int| g1 * poly(polys[d].0, -1) + g2 * poly(polys[d].1, -1);
    let w2 = |d: int| g1 * poly(polys[d].0, -2) + g2 * poly(polys[d].1, -2);
    assert forall|k: int| 0 <= k < l implies cong(#[trigger] term1(k), w1(k), m) by {
        lemma_terms(contributions, dealings, generators, degree, order[k]);
    }
    assert forall|k: int| 0 <= k < l implies cong(#[trigger] term2(k), w2(k), m) by {
        lemma_terms(contributions, dealings, generators, degree, order[k]);
    }
    lemma_sum_cong(term1, w1, 0, l, m);
    lemma_sum_cong(term2, w2, 0, l, m);
    lemma_sum_eq(
        term1,
        |k: int|
            if contributions.contains_key(order[k]) {
                p1(contributions[order[k]])
            } else {
                0
            },
        0,
        l,
    );
    lemma_sum_eq(
        term2,
        |k: int|
            if contributions.contains_key(order[k]) {
                p2(contributions[order[k]])
            } else {
                0
            },
        0,
        l,
    );
    assert(part_sum(contributions, order, p1, l) == sum(term1, 0, l));
    assert(part_sum(contributions, order, p2, l) == sum(term2, 0, l));
    lemma_sum_eq(w1, |d: int| g1 * poly(polys[d].0, -1) + g2 * poly(polys[d].1, -1), 0, l);
    lemma_sum_eq(w2, |d: int| g1 * poly(polys[d].0, -2) + g2 * poly(polys[d].1, -2), 0, l);
}

proof fn lemma_terms<C: Curve, S>(
    contributions: Map<usize, DMKGContribution<C, S>>,
    dealings: Seq<PedersenDealing<C>>,
    generators: PedersenGenerators<C>,
    degree: int,
    d: usize,
)
    requires
        all_commit(contributions, dealings, generators),
        d < dealings.len(),
        dealings[d as int].well_dealt(generators, degree, dealings.len() as int),
    ensures
        ({
            let s = dealings[d as int].secrets;
            let (m, g1, g2) = (C::order(), generators.g1@, generators.g2@);
            let (f, g) = (s.f.coefficients(), s.g.coefficients());
            &&& contributions.contains_key(d)
            &&& cong(contributions[d].c1_i@, g1 * poly(f, -1) + g2 * poly(g, -1), m)
            &&& cong(contributions[d].c2_i@, g1 * poly(f, -2) + g2 * poly(g, -2), m)
        }),
{
    let s = dealings[d as int].secrets;
    let (f, g) = (s.f.coefficients(), s.g.coefficients());
    assert(contributions.contains_key(d));
    lemma_pair::<C>(generators.g1@, generators.g2@, poly(f, -1), poly(g, -1));
    lemma_pair::<C>(generators.g1@, generators.g2@, poly(f, -2), poly(g, -2));
}

} // verus!
