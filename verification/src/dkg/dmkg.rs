//! The key generation end to end.
//!
//! A run produces the public key `(c1, c2, c3) = (g1^x1 g2^x2, g1^y1 g2^y2, g1^z)` by two layers over
//! the qualified dealers: a publicly verifiable sharing of `z`, whose shares are carried along
//! unread, and the Pedersen layer of `(x1, x2, y1, y2)`. Receiver `j` holds `g1^f(j)` and `g2^g(j)`
//! as group elements; summed over the qualified dealers and interpolated in the exponent at `-1`
//! and `-2` they give back `c1` and `c2`.
use crate::algebra::{
    cong, distinct, lemma_cong_add, lemma_cong_mod, lemma_cong_small, lemma_poly_cong,
    lemma_poly_linear, lemma_poly_zeros, lemma_sum_eq, poly, sum,
};
use crate::collections::{ascending, copied, enumerates, increasing};
use crate::curve::{residues, Curve, Point, Scalar};
use crate::dkg::encryption::{ElGamalBase, ElGamalKeypair, EncryptedPedersenShare};
use crate::dkg::errors::DKGError;
use crate::dkg::mss::{
    lagrange_value, lemma_weigh_recovers, recovers, values_at, weigh, MSSPolynomial,
};
use crate::dkg::pedersen::{PedersenDealerSecrets, PedersenDistribution, PedersenGenerators};
use rand_chacha::ChaCha20Rng;
use std::collections::{BTreeMap, BTreeSet};
use vstd::prelude::*;

verus! {

broadcast use {vstd::laws_cmp::group_laws_cmp, vstd::std_specs::btree::group_btree_axioms};

/// The common public key.
#[derive(Debug)]
pub struct PublicKey<C: Curve> {
    pub c1: Point<C>,
    pub c2: Point<C>,
    pub c3: Point<C>,
}

impl<C: Curve> Copy for PublicKey<C> {

}

impl<C: Curve> Clone for PublicKey<C> {
    fn clone(&self) -> (r: Self)
        ensures
            r == *self,
    {
        *self
    }
}

/// One dealer's public contribution to a run; `S` is its share of the layer for `z`.
pub struct DMKGContribution<C: Curve, S> {
    pub dealer_id: usize,
    pub dkg_share: S,
    /// Commitments of the Pedersen layer.
    pub commitments: Vec<Point<C>>,
    /// Encrypted shares, one per receiver.
    pub encrypted_shares: Vec<EncryptedPedersenShare<C>>,
    /// `g1^x1 g2^x2`.
    pub c1_i: Point<C>,
    /// `g1^y1 g2^y2`.
    pub c2_i: Point<C>,
    /// `g1^z`.
    pub c3_i: Point<C>,
}

/// The sum over the listed dealers of a part of their contributions; dealers without a contribution
/// add nothing.
pub open spec fn part_sum<C: Curve, S>(
    contributions: Map<usize, DMKGContribution<C, S>>,
    order: Seq<usize>,
    part: spec_fn(DMKGContribution<C, S>) -> int,
    n: int,
) -> int {
    sum(
        |k: int|
            if contributions.contains_key(order[k]) {
                part(contributions[order[k]])
            } else {
                0
            },
        0,
        n,
    )
}

/// The public key is the sum of the contributions of the listed dealers.
pub open spec fn aggregates<C: Curve, S>(
    pk: PublicKey<C>,
    contributions: Map<usize, DMKGContribution<C, S>>,
    order: Seq<usize>,
) -> bool {
    let (m, n) = (C::order(), order.len() as int);
    &&& pk.c1@ == part_sum(contributions, order, |c: DMKGContribution<C, S>| c.c1_i@, n) % m
    &&& pk.c2@ == part_sum(contributions, order, |c: DMKGContribution<C, S>| c.c2_i@, n) % m
    &&& pk.c3@ == part_sum(contributions, order, |c: DMKGContribution<C, S>| c.c3_i@, n) % m
}

/// The public key is the sum of the contributions of the qualified dealers.
pub open spec fn aggregated<C: Curve, S>(
    pk: PublicKey<C>,
    contributions: Map<usize, DMKGContribution<C, S>>,
    qual: Set<usize>,
) -> bool {
    exists|order: Seq<usize>|
        #[trigger] enumerates(order, qual) && aggregates(pk, contributions, order)
}

/// The sum of a part of the contributions over the members of a set below `d`.
spec fn set_sum<C: Curve, S>(
    contributions: Map<usize, DMKGContribution<C, S>>,
    set: Set<usize>,
    part: spec_fn(DMKGContribution<C, S>) -> int,
    d: int,
) -> int {
    sum(
        |i: int|
            if set.contains(i as usize) && contributions.contains_key(i as usize) {
                part(contributions[i as usize])
            } else {
                0
            },
        0,
        d,
    )
}

/// The sum over an ascending list is the sum over its members.
proof fn lemma_set_sum<C: Curve, S>(
    contributions: Map<usize, DMKGContribution<C, S>>,
    order: Seq<usize>,
    part: spec_fn(DMKGContribution<C, S>) -> int,
    d: int,
)
    requires
        increasing(order),
        0 <= d <= usize::MAX + 1,
        forall|k: int| 0 <= k < order.len() ==> (#[trigger] order[k]) < d,
    ensures
        part_sum(contributions, order, part, order.len() as int) == set_sum(
            contributions,
            order.to_set(),
            part,
            d,
        ),
    decreases d,
{
    let set = order.to_set();
    if d > 0 {
        let x = (d - 1) as usize;
        if set.contains(x) {
            let k = choose|k: int| 0 <= k < order.len() && order[k] == x;
            if k < order.len() - 1 {
                assert(order[k] < order[order.len() - 1]);
            }
            assert(order.last() == x);
            let less = order.drop_last();
            assert forall|k: int| 0 <= k < less.len() implies (#[trigger] less[k]) < d - 1 by {
                assert(order[k] < order[order.len() - 1]);
            }
            lemma_set_sum(contributions, less, part, d - 1);
            assert forall|i: usize| i < x implies less.to_set().contains(i) == set.contains(i) by {
                if set.contains(i) {
                    let q = choose|q: int| 0 <= q < order.len() && order[q] == i;
                    assert(less[q] == i);
                }
                if less.to_set().contains(i) {
                    let q = choose|q: int| 0 <= q < less.len() && less[q] == i;
                    assert(order[q] == i);
                }
            }
            lemma_set_sum_alike(contributions, less.to_set(), set, part, d - 1);
            let f = |k: int|
                if contributions.contains_key(order[k]) {
                    part(contributions[order[k]])
                } else {
                    0
                };
            let g = |k: int|
                if contributions.contains_key(less[k]) {
                    part(contributions[less[k]])
                } else {
                    0
                };
            lemma_sum_eq(f, g, 0, less.len() as int);
        } else {
            assert forall|k: int| 0 <= k < order.len() implies (#[trigger] order[k]) < d - 1 by {
                assert(set.contains(order[k]));
            }
            lemma_set_sum(contributions, order, part, d - 1);
        }
    } else if order.len() > 0 {
        assert(order[0] < d);
    }
}

/// Sets that agree below `d` have the same sum.
proof fn lemma_set_sum_alike<C: Curve, S>(
    contributions: Map<usize, DMKGContribution<C, S>>,
    a: Set<usize>,
    b: Set<usize>,
    part: spec_fn(DMKGContribution<C, S>) -> int,
    d: int,
)
    requires
        0 <= d <= usize::MAX + 1,
        forall|i: usize| i < d ==> a.contains(i) == b.contains(i),
    ensures
        set_sum(contributions, a, part, d) == set_sum(contributions, b, part, d),
    decreases d,
{
    if d > 0 {
        lemma_set_sum_alike(contributions, a, b, part, d - 1);
    }
}

/// The sum over a disjoint union is the sum of the sums.
proof fn lemma_set_sum_union<C: Curve, S>(
    contributions: Map<usize, DMKGContribution<C, S>>,
    a: Set<usize>,
    b: Set<usize>,
    part: spec_fn(DMKGContribution<C, S>) -> int,
    d: int,
)
    requires
        0 <= d <= usize::MAX + 1,
        a.disjoint(b),
    ensures
        set_sum(contributions, a.union(b), part, d) == set_sum(contributions, a, part, d) + set_sum(
            contributions,
            b,
            part,
            d,
        ),
    decreases d,
{
    if d > 0 {
        lemma_set_sum_union(contributions, a, b, part, d - 1);
    }
}

/// The key over nobody is neutral, and the key over the union of two sets of dealers that have
/// nobody in common is the sum of their keys.
pub proof fn law_keys_add_up<C: Curve, S>(
    contributions: Map<usize, DMKGContribution<C, S>>,
    a: Set<usize>,
    b: Set<usize>,
    key_a: PublicKey<C>,
    key_b: PublicKey<C>,
    key: PublicKey<C>,
)
    requires
        a.disjoint(b),
        aggregated(key_a, contributions, a),
        aggregated(key_b, contributions, b),
        aggregated(key, contributions, a.union(b)),
    ensures
        key.c1@ == (key_a.c1@ + key_b.c1@) % C::order(),
        key.c2@ == (key_a.c2@ + key_b.c2@) % C::order(),
        key.c3@ == (key_a.c3@ + key_b.c3@) % C::order(),
        a == Set::<usize>::empty() ==> key_a.c1@ == 0 && key_a.c2@ == 0 && key_a.c3@ == 0,
{
    let m = C::order();
    C::order_exceeds_words();
    let qa = choose|order: Seq<usize>|
        #[trigger] enumerates(order, a) && aggregates(key_a, contributions, order);
    let qb = choose|order: Seq<usize>|
        #[trigger] enumerates(order, b) && aggregates(key_b, contributions, order);
    let q = choose|order: Seq<usize>|
        #[trigger] enumerates(order, a.union(b)) && aggregates(key, contributions, order);
    let (p1, p2, p3) = (
        |c: DMKGContribution<C, S>| c.c1_i@,
        |c: DMKGContribution<C, S>| c.c2_i@,
        |c: DMKGContribution<C, S>| c.c3_i@,
    );
    lemma_parts_add_up(contributions, a, b, qa, qb, q, p1, m);
    lemma_parts_add_up(contributions, a, b, qa, qb, q, p2, m);
    lemma_parts_add_up(contributions, a, b, qa, qb, q, p3, m);
    if a == Set::<usize>::empty() {
        if qa.len() > 0 {
            assert(qa.to_set().contains(qa[0]));
        }
        lemma_cong_small(0, m);
    }
}

proof fn lemma_parts_add_up<C: Curve, S>(
    contributions: Map<usize, DMKGContribution<C, S>>,
    a: Set<usize>,
    b: Set<usize>,
    qa: Seq<usize>,
    qb: Seq<usize>,
    q: Seq<usize>,
    part: spec_fn(DMKGContribution<C, S>) -> int,
    m: int,
)
    requires
        m > 0,
        a.disjoint(b),
        enumerates(qa, a),
        enumerates(qb, b),
        enumerates(q, a.union(b)),
    ensures
        part_sum(contributions, q, part, q.len() as int) % m == (part_sum(
            contributions,
            qa,
            part,
            qa.len() as int,
        ) % m + part_sum(contributions, qb, part, qb.len() as int) % m) % m,
{
    let d = usize::MAX + 1;
    lemma_set_sum(contributions, qa, part, d);
    lemma_set_sum(contributions, qb, part, d);
    lemma_set_sum(contributions, q, part, d);
    lemma_set_sum_union(contributions, a, b, part, d);
    let (x, y) = (
        part_sum(contributions, qa, part, qa.len() as int),
        part_sum(contributions, qb, part, qb.len() as int),
    );
    lemma_cong_mod(x, m);
    lemma_cong_mod(y, m);
    lemma_cong_add(x % m, x, y % m, y, m);
}

/// Adds up the contributions of the qualified dealers.
pub fn aggregate_public_key<C: Curve, S>(
    contributions: &BTreeMap<usize, DMKGContribution<C, S>>,
    qual: &BTreeSet<usize>,
) -> (r: PublicKey<C>)
    ensures
        aggregated(r, contributions@, qual@),
{
    let ghost m = C::order();
    let order = ascending(qual);
    let ghost (p1, p2, p3) = (
        |c: DMKGContribution<C, S>| c.c1_i@,
        |c: DMKGContribution<C, S>| c.c2_i@,
        |c: DMKGContribution<C, S>| c.c3_i@,
    );
    let mut c1: Point<C> = Point::zero();
    let mut c2: Point<C> = Point::zero();
    let mut c3: Point<C> = Point::zero();
    proof {
        C::order_exceeds_words();
    }
    for i in 0..order.len()
        invariant
            m == C::order(),
            m > 1,
            p1 == (|c: DMKGContribution<C, S>| c.c1_i@),
            p2 == (|c: DMKGContribution<C, S>| c.c2_i@),
            p3 == (|c: DMKGContribution<C, S>| c.c3_i@),
            cong(c1@, part_sum(contributions@, order@, p1, i as int), m),
            cong(c2@, part_sum(contributions@, order@, p2, i as int), m),
            cong(c3@, part_sum(contributions@, order@, p3, i as int), m),
    {
        let id = order[i];
        if let Some(contribution) = contributions.get(&id) {
            let ghost (a1, a2, a3) = (c1@, c2@, c3@);
            c1 = c1.add(&contribution.c1_i);
            c2 = c2.add(&contribution.c2_i);
            c3 = c3.add(&contribution.c3_i);
            proof {
                let (b1, b2, b3) = (
                    contribution.c1_i@,
                    contribution.c2_i@,
                    contribution.c3_i@,
                );
                lemma_cong_add(a1, part_sum(contributions@, order@, p1, i as int), b1, b1, m);
                lemma_cong_add(a2, part_sum(contributions@, order@, p2, i as int), b2, b2, m);
                lemma_cong_add(a3, part_sum(contributions@, order@, p3, i as int), b3, b3, m);
                lemma_cong_mod(a1 + b1, m);
                lemma_cong_mod(a2 + b2, m);
                lemma_cong_mod(a3 + b3, m);
            }
        }
    }
    let r = PublicKey { c1, c2, c3 };
    proof {
        let n = order.len() as int;
        c1.lemma_range();
        c2.lemma_range();
        c3.lemma_range();
        lemma_cong_small(c1@, m);
        lemma_cong_small(c2@, m);
        lemma_cong_small(c3@, m);
        assert(enumerates(order@, qual@));
        assert(aggregates(r, contributions@, order@));
    }
    r
}

/// The receivers' indices.
pub open spec fn receiver_indices<C: Curve>(
    receivers: Seq<(usize, Point<C>, Point<C>)>,
) -> Seq<int> {
    receivers.map_values(|r: (usize, Point<C>, Point<C>)| r.0 as int)
}

/// The receivers' group elements `Mf(j) + Mg(j)`.
pub open spec fn receiver_values<C: Curve>(
    receivers: Seq<(usize, Point<C>, Point<C>)>,
) -> Seq<int> {
    receivers.map_values(|r: (usize, Point<C>, Point<C>)| r.1@ + r.2@)
}

/// Recovers `(c1, c2)` from receivers' group elements `(j, Mf(j), Mg(j))` by interpolation in the
/// exponent: `c1` is what Lagrange's weights for `-1` make of `Mf(j) + Mg(j)`, `c2` what those for
/// `-2` make of them. Receivers that repeat are rejected.
pub fn reconstruct_pk_components<C: Curve>(receivers: &[(usize, Point<C>, Point<C>)]) -> (r: Result<
    (Point<C>, Point<C>),
    DKGError,
>)
    requires
        forall|i: int| 0 <= i < receivers.len() ==> (#[trigger] receivers[i]).0 <= i64::MAX,
    ensures
        ({
            let (m, xs) = (C::order(), receiver_indices(receivers@));
            let values = receiver_values(receivers@);
            match r {
                Ok((c1, c2)) => {
                    &&& distinct(xs)
                    &&& lagrange_value(c1@, xs, values, (-1) % m, m)
                    &&& lagrange_value(c2@, xs, values, (-2) % m, m)
                    &&& recovers(c1@, xs, values, -1, m)
                    &&& recovers(c2@, xs, values, -2, m)
                },
                Err(e) => !distinct(xs) && e == DKGError::MSSBadIndices,
            }
        }),
{
    let ghost m = C::order();
    let ghost xs = receiver_indices(receivers@);
    let ghost values = receiver_values(receivers@);
    let mut indices: Vec<Scalar<C>> = Vec::new();
    proof {
        C::order_exceeds_words();
    }
    for i in 0..receivers.len()
        invariant
            m == C::order(),
            m > 0x1_0000_0000_0000_0000,
            forall|i: int| 0 <= i < receivers.len() ==> (#[trigger] receivers[i]).0 <= i64::MAX,
            indices.len() == i,
            forall|k: int| 0 <= k < i ==> #[trigger] indices[k]@ == receivers[k].0,
    {
        let j = receivers[i].0;
        proof {
            lemma_cong_small(j as int, m);
        }
        indices.push(MSSPolynomial::point(j as i64));
    }
    assert(residues(indices@) =~= xs);
    let lambda1 = match MSSPolynomial::lambda1(indices.as_slice()) {
        Ok(l) => l,
        Err(e) => {
            return Err(DKGError::from(e));
        },
    };
    let lambda2 = match MSSPolynomial::lambda2(indices.as_slice()) {
        Ok(l) => l,
        Err(e) => {
            return Err(DKGError::from(e));
        },
    };
    let c1 = weigh_points(&lambda1, receivers);
    let c2 = weigh_points(&lambda2, receivers);
    proof {
        lemma_recovers::<C>(residues(lambda1@), xs, values, -1, c1@);
        lemma_recovers::<C>(residues(lambda2@), xs, values, -2, c2@);
    }
    Ok((c1, c2))
}

/// What interpolating weights for the residue of `x` make of the values recovers the values at `x`.
pub proof fn lemma_recovers<C: Curve>(
    ls: Seq<int>,
    xs: Seq<int>,
    values: Seq<int>,
    x: int,
    v: int,
)
    requires
        values.len() == xs.len(),
        crate::algebra::interpolates(ls, xs, x % C::order(), C::order()),
        v == weigh(ls, values) % C::order(),
    ensures
        recovers(v, xs, values, x, C::order()),
{
    let m = C::order();
    C::order_exceeds_words();
    lemma_cong_mod(x, m);
    assert forall|c: Seq<int>|
        c.len() <= xs.len() && #[trigger] values_at(values, c, xs, m) implies v == poly(c, x)
        % m by {
        lemma_weigh_recovers(ls, xs, x % m, values, c, m);
        lemma_poly_cong(c, c, x % m, x, m);
    }
}

/// The receivers' group elements, weighted and added up.
fn weigh_points<C: Curve>(
    weights: &Vec<Scalar<C>>,
    receivers: &[(usize, Point<C>, Point<C>)],
) -> (r: Point<C>)
    requires
        weights.len() == receivers.len(),
    ensures
        r@ == weigh(residues(weights@), receiver_values(receivers@)) % C::order(),
{
    let ghost m = C::order();
    let ghost ls = residues(weights@);
    let ghost values = receiver_values(receivers@);
    let ghost t = |i: int| ls[i] * values[i];
    let mut acc: Point<C> = Point::zero();
    proof {
        C::order_exceeds_words();
    }
    for i in 0..receivers.len()
        invariant
            m == C::order(),
            m > 1,
            weights.len() == receivers.len(),
            ls == residues(weights@),
            values == receiver_values(receivers@),
            t == (|i: int| ls[i] * values[i]),
            cong(acc@, sum(t, 0, i as int), m),
    {
        let mf = receivers[i].1.mul(&weights[i]);
        let mg = receivers[i].2.mul(&weights[i]);
        let ghost a = acc@;
        let half = acc.add(&mf);
        acc = half.add(&mg);
        proof {
            let (f, g, l) = (receivers[i as int].1@, receivers[i as int].2@, ls[i as int]);
            assert(l == weights[i as int]@);
            assert(values[i as int] == f + g);
            lemma_cong_mod(f * l, m);
            lemma_cong_mod(g * l, m);
            lemma_cong_mod(a + mf@, m);
            lemma_cong_mod(half@ + mg@, m);
            lemma_cong_add(a, sum(t, 0, i as int), mf@, f * l, m);
            lemma_cong_add(half@, sum(t, 0, i as int) + f * l, mg@, g * l, m);
            assert(f * l + g * l == l * (f + g)) by (nonlinear_arith);
        }
    }
    proof {
        acc.lemma_range();
        lemma_cong_small(acc@, m);
    }
    acc
}

/// The sum over dealers of `g1 f(x) + g2 g(x)`, for polynomials `(f, g)` of the dealers.
pub open spec fn joint_value(
    g1: int,
    g2: int,
    polys: Seq<(Seq<int>, Seq<int>)>,
    x: int,
) -> int {
    sum(|d: int| g1 * poly(polys[d].0, x) + g2 * poly(polys[d].1, x), 0, polys.len() as int)
}

/// The polynomial of which [`joint_value`] is the value.
spec fn joint_poly(
    g1: int,
    g2: int,
    polys: Seq<(Seq<int>, Seq<int>)>,
    len: nat,
    n: int,
) -> Seq<int>
    decreases n,
{
    if n <= 0 {
        Seq::new(len, |k: int| 0)
    } else {
        let rest = joint_poly(g1, g2, polys, len, n - 1);
        let (f, g) = polys[n - 1];
        Seq::new(len, |k: int| rest[k] + (g1 * f[k] + g2 * g[k]))
    }
}

proof fn lemma_joint_poly(
    g1: int,
    g2: int,
    polys: Seq<(Seq<int>, Seq<int>)>,
    len: nat,
    n: int,
    x: int,
)
    requires
        0 <= n <= polys.len(),
        forall|d: int|
            0 <= d < polys.len() ==> (#[trigger] polys[d]).0.len() == len && polys[d].1.len()
                == len,
    ensures
        joint_poly(g1, g2, polys, len, n).len() == len,
        poly(joint_poly(g1, g2, polys, len, n), x) == sum(
            |d: int| g1 * poly(polys[d].0, x) + g2 * poly(polys[d].1, x),
            0,
            n,
        ),
    decreases n,
{
    let w = joint_poly(g1, g2, polys, len, n);
    if n == 0 {
        lemma_poly_zeros(w, x);
    } else {
        lemma_joint_poly(g1, g2, polys, len, n - 1, x);
        let rest = joint_poly(g1, g2, polys, len, n - 1);
        let (f, g) = polys[n - 1];
        assert(polys[n - 1].0.len() == len);
        let u = Seq::new(len, |k: int| g1 * f[k] + g2 * g[k]);
        lemma_poly_linear(f, g, u, g1, g2, x);
        lemma_poly_linear(rest, u, w, 1, 1, x);
    }
}

/// Reconstruction of the public key: from the joint values of the dealers' polynomials at enough
/// distinct points, a value recovered at `x` is the joint value at `x`. At `-1` and `-2` the joint
/// values are `c1` and `c2`.
pub proof fn law_reconstruction(
    g1: int,
    g2: int,
    polys: Seq<(Seq<int>, Seq<int>)>,
    len: nat,
    xs: Seq<int>,
    values: Seq<int>,
    x: int,
    v: int,
    m: int,
)
    requires
        m > 0,
        forall|d: int|
            0 <= d < polys.len() ==> (#[trigger] polys[d]).0.len() == len && polys[d].1.len()
                == len,
        len <= xs.len(),
        values.len() == xs.len(),
        forall|i: int|
            0 <= i < xs.len() ==> cong(#[trigger] values[i], joint_value(g1, g2, polys, xs[i]), m),
        recovers(v, xs, values, x, m),
    ensures
        v == joint_value(g1, g2, polys, x) % m,
{
    let w = joint_poly(g1, g2, polys, len, polys.len() as int);
    lemma_joint_poly(g1, g2, polys, len, polys.len() as int, x);
    assert forall|i: int| 0 <= i < xs.len() implies cong(#[trigger] values[i], poly(w, xs[i]), m) by {
        lemma_joint_poly(g1, g2, polys, len, polys.len() as int, xs[i]);
    }
    assert(values_at(values, w, xs, m));
}

/// Where a participant stands.
#[derive(Clone, Copy, Debug, PartialEq, Eq, Structural)]
pub enum ParticipantState {
    Dealer,
    DealerShared,
}

/// A dealer that has not yet published: its place in the run, and the key pair under which it
/// receives shares.
pub struct DMKGDealer<C: Curve> {
    pub dealer_id: usize,
    pub degree: usize,
    pub state: ParticipantState,
    pub elgamal: ElGamalKeypair<C>,
}

/// What the publicly verifiable layer dealt for one dealer: the secret and the share to publish.
pub struct ZDealing<C: Curve, S> {
    pub z_i: Scalar<C>,
    pub dkg_share: S,
}

impl<C: Curve, S> DMKGContribution<C, S> {
    /// The contribution publishes the distribution, encrypted to the receivers' keys, and commits
    /// to the secrets.
    pub open spec fn publishes(
        self,
        generators: PedersenGenerators<C>,
        base: ElGamalBase<C>,
        receiver_pks: Seq<Point<C>>,
        secrets: PedersenDealerSecrets<C>,
        distribution: PedersenDistribution<C>,
        z_i: int,
    ) -> bool {
        let (m, g1, g2) = (C::order(), generators.g1@, generators.g2@);
        &&& self.commitments@ == distribution.commitments@
        &&& self.encrypted_shares.len() == receiver_pks.len() == distribution.shares.len()
        &&& forall|j: int|
            0 <= j < receiver_pks.len() ==> (#[trigger] self.encrypted_shares[j]).encrypts(
                generators,
                base,
                receiver_pks[j]@,
                distribution.shares[j],
            )
        &&& self.c1_i@ == (g1 * secrets.x1@ + g2 * secrets.x2@) % m
        &&& self.c2_i@ == (g1 * secrets.y1@ + g2 * secrets.y2@) % m
        &&& self.c3_i@ == (g1 * z_i) % m
    }
}

/// `g1^a g2^b`.
pub fn pair_commitment<C: Curve>(
    generators: &PedersenGenerators<C>,
    a: &Scalar<C>,
    b: &Scalar<C>,
) -> (r: Point<C>)
    ensures
        r@ == (generators.g1@ * a@ + generators.g2@ * b@) % C::order(),
{
    let p = generators.g1.mul(a);
    let q = generators.g2.mul(b);
    proof {
        let m = C::order();
        C::order_exceeds_words();
        lemma_cong_mod(generators.g1@ * a@, m);
        lemma_cong_mod(generators.g2@ * b@, m);
        lemma_cong_add(p@, generators.g1@ * a@, q@, generators.g2@ * b@, m);
    }
    p.add(&q)
}

/// Encrypts each receiver's share to its key.
pub fn encrypt_shares<C: Curve>(
    generators: &PedersenGenerators<C>,
    base: &ElGamalBase<C>,
    receiver_pks: &[Point<C>],
    distribution: &PedersenDistribution<C>,
    rng: &mut ChaCha20Rng,
) -> (r: Vec<EncryptedPedersenShare<C>>)
    requires
        distribution.shares.len() == receiver_pks.len(),
    ensures
        r.len() == receiver_pks.len(),
        forall|j: int|
            0 <= j < receiver_pks.len() ==> (#[trigger] r[j]).encrypts(
                *generators,
                *base,
                receiver_pks[j]@,
                distribution.shares[j],
            ),
{
    let mut r: Vec<EncryptedPedersenShare<C>> = Vec::new();
    for j in 0..receiver_pks.len()
        invariant
            distribution.shares.len() == receiver_pks.len(),
            r.len() == j,
            forall|k: int|
                0 <= k < j ==> (#[trigger] r[k]).encrypts(
                    *generators,
                    *base,
                    receiver_pks[k]@,
                    distribution.shares[k],
                ),
    {
        let ct = EncryptedPedersenShare::encrypt(
            generators,
            base,
            &receiver_pks[j],
            &distribution.shares[j],
            rng,
        );
        r.push(ct);
    }
    r
}

/// Produces a dealer's contribution from what the layer for `z` dealt, with the secrets and the
/// distribution that the dealer keeps for complaints. `receiver_pks` are the keys of all
/// receivers, in their order.
pub fn deal<C: Curve, S>(
    dealer: &mut DMKGDealer<C>,
    z: ZDealing<C, S>,
    generators: &PedersenGenerators<C>,
    base: &ElGamalBase<C>,
    receiver_pks: &[Point<C>],
    rng: &mut ChaCha20Rng,
) -> (r: Result<
    (DMKGContribution<C, S>, PedersenDealerSecrets<C>, PedersenDistribution<C>),
    DKGError,
>)
    requires
        old(dealer).degree < usize::MAX,
    ensures
        final(dealer).state == ParticipantState::DealerShared,
        final(dealer).dealer_id == old(dealer).dealer_id,
        final(dealer).degree == old(dealer).degree,
        final(dealer).elgamal == old(dealer).elgamal,
        match r {
            Ok((contribution, secrets, distribution)) => {
                &&& old(dealer).degree >= 1
                &&& secrets.pinned(old(dealer).degree as int)
                &&& distribution.deals(*generators, secrets)
                &&& contribution.dealer_id == old(dealer).dealer_id
                &&& contribution.dkg_share == z.dkg_share
                &&& contribution.publishes(
                    *generators,
                    *base,
                    receiver_pks@,
                    secrets,
                    distribution,
                    z.z_i@,
                )
            },
            Err(e) => old(dealer).degree < 1 && e == DKGError::MSSInsufficientDegree(
                old(dealer).degree,
            ),
        },
{
    let dealer_id = dealer.dealer_id;
    let degree = dealer.degree;
    let n = receiver_pks.len();
    let ZDealing { z_i, dkg_share } = z;
    dealer.state = ParticipantState::DealerShared;
    let (distribution, secrets) = match PedersenDistribution::deal(generators, degree, n, rng) {
        Ok(dealt) => dealt,
        Err(e) => {
            return Err(DKGError::from(e));
        },
    };
    let encrypted_shares = encrypt_shares(generators, base, receiver_pks, &distribution, rng);
    let c1_i = pair_commitment(generators, &secrets.x1, &secrets.x2);
    let c2_i = pair_commitment(generators, &secrets.y1, &secrets.y2);
    let c3_i = generators.g1.mul(&z_i);
    let contribution = DMKGContribution {
        dealer_id,
        dkg_share,
        commitments: copied(&distribution.commitments),
        encrypted_shares,
        c1_i,
        c2_i,
        c3_i,
    };
    Ok((contribution, secrets, distribution))
}

} // verus!
