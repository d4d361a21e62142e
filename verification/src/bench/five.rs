//! Key generation of five secrets without aggregation: `(x1, x2, y1, y2)` and `z` are both shared by
//! Pedersen commitments, every failure is resolved by disputation, and the key is reconstructed in
//! the exponent.
use crate::algebra::{
    cong, lemma_cong_add, lemma_cong_mod, lemma_cong_small,
    lemma_sum_cong, lemma_sum_eq, poly, sum,
};
use crate::bench::report::Outcome;
use crate::collections::{ascending, enumerates};
use crate::curve::{Curve, Point};
use crate::dkg::carrier::Carrier;
use crate::dkg::complaint::Complaint;
use crate::dkg::dmkg::{pair_commitment, PublicKey};
use crate::dkg::errors::VssError;
use crate::dkg::keygen::lemma_pair;
use crate::dkg::mss::{lagrange_value, recovers};
use crate::dkg::pedersen::{PedersenDealerSecrets, PedersenGenerators};
use crate::dkg::round::{
    all_valid, complaints_of, file_complaints, first_values, law_first_reconstructs,
    law_round_reconstructs, lemma_accused, polynomials, receive,
    receivers, reconstruct, reconstruct_first, reconstructed, resolve, unsound_dealers, Dealing,
    PedersenDealing,
};
use crate::dkg::suite::Suite;
use rand_chacha::ChaCha20Rng;
use std::collections::BTreeSet;
use vstd::prelude::*;

verus! {

broadcast use {vstd::laws_cmp::group_laws_cmp, vstd::std_specs::btree::group_btree_axioms};

/// One dealer's contribution; the share of `z` travels as an `X`.
pub struct Contribution<C: Curve, X> {
    pub xy: PedersenDealing<C>,
    pub z: Dealing<C, X>,
    pub key: PublicKey<C>,
}

/// The contributions of all dealers.
pub struct Contributions<C: Curve, X> {
    pub xy: Vec<PedersenDealing<C>>,
    pub z: Vec<Dealing<C, X>>,
    pub keys: Vec<PublicKey<C>>,
}

/// The key is `(g1^x1 g2^x2, g1^y1 g2^y2, g1^z)`, for the `z` that the second sharing takes at `-1`.
pub open spec fn is_key_of<C: Curve>(
    key: PublicKey<C>,
    generators: PedersenGenerators<C>,
    xy: PedersenDealerSecrets<C>,
    z: PedersenDealerSecrets<C>,
) -> bool {
    let (m, g1, g2) = (C::order(), generators.g1@, generators.g2@);
    &&& key.c1@ == (g1 * xy.x1@ + g2 * xy.x2@) % m
    &&& key.c2@ == (g1 * xy.y1@ + g2 * xy.y2@) % m
    &&& key.c3@ == (g1 * z.x1@) % m
}

/// The contribution of one dealer to the key.
pub fn key_of<C: Curve>(
    generators: &PedersenGenerators<C>,
    xy: &PedersenDealerSecrets<C>,
    z: &PedersenDealerSecrets<C>,
) -> (r: PublicKey<C>)
    ensures
        is_key_of(r, *generators, *xy, *z),
{
    PublicKey {
        c1: pair_commitment(generators, &xy.x1, &xy.x2),
        c2: pair_commitment(generators, &xy.y1, &xy.y2),
        c3: generators.g1.mul(&z.x1),
    }
}

impl<C: Curve, X: Carrier<C>> Contribution<C, X> {
    /// Both sharings are valid and the key is theirs.
    pub open spec fn valid(self, suite: Suite<C>, degree: int) -> bool {
        let pks = suite.receiver_pks@;
        &&& self.xy.valid(suite.generators, suite.base, pks, degree)
        &&& self.z.valid(suite.generators, suite.base, pks, degree)
        &&& is_key_of(self.key, suite.generators, self.xy.secrets, self.z.secrets)
    }
}

/// The sum over the listed dealers of a part of their keys.
pub open spec fn key_sum<C: Curve>(
    keys: Seq<PublicKey<C>>,
    order: Seq<usize>,
    part: spec_fn(PublicKey<C>) -> int,
    n: int,
) -> int {
    sum(|k: int| part(keys[order[k] as int]), 0, n)
}

/// The key is the sum of the keys of the listed dealers.
pub open spec fn sums_to<C: Curve>(
    keys: Seq<PublicKey<C>>,
    order: Seq<usize>,
    key: PublicKey<C>,
) -> bool {
    let (m, n) = (C::order(), order.len() as int);
    &&& key.c1@ == key_sum(keys, order, |k: PublicKey<C>| k.c1@, n) % m
    &&& key.c2@ == key_sum(keys, order, |k: PublicKey<C>| k.c2@, n) % m
    &&& key.c3@ == key_sum(keys, order, |k: PublicKey<C>| k.c3@, n) % m
}

/// Adds up the keys of the listed dealers.
pub fn sum_keys<C: Curve>(keys: &Vec<PublicKey<C>>, order: &Vec<usize>) -> (r: PublicKey<C>)
    requires
        forall|k: int| 0 <= k < order.len() ==> (#[trigger] order[k]) < keys.len(),
    ensures
        sums_to(keys@, order@, r),
{
    let ghost m = C::order();
    let ghost (p1, p2, p3) = (
        |k: PublicKey<C>| k.c1@,
        |k: PublicKey<C>| k.c2@,
        |k: PublicKey<C>| k.c3@,
    );
    let mut c1: Point<C> = Point::zero();
    let mut c2: Point<C> = Point::zero();
    let mut c3: Point<C> = Point::zero();
    proof {
        C::order_exceeds_words();
    }
    for i in 0..order.len()
        invariant
            m == C::order(),
            m > 1,
            forall|k: int| 0 <= k < order.len() ==> (#[trigger] order[k]) < keys.len(),
            p1 == (|k: PublicKey<C>| k.c1@),
            p2 == (|k: PublicKey<C>| k.c2@),
            p3 == (|k: PublicKey<C>| k.c3@),
            cong(c1@, key_sum(keys@, order@, p1, i as int), m),
            cong(c2@, key_sum(keys@, order@, p2, i as int), m),
            cong(c3@, key_sum(keys@, order@, p3, i as int), m),
    {
        let key = &keys[order[i]];
        let ghost (a1, a2, a3) = (c1@, c2@, c3@);
        c1 = c1.add(&key.c1);
        c2 = c2.add(&key.c2);
        c3 = c3.add(&key.c3);
        proof {
            lemma_cong_add(a1, key_sum(keys@, order@, p1, i as int), key.c1@, key.c1@, m);
            lemma_cong_add(a2, key_sum(keys@, order@, p2, i as int), key.c2@, key.c2@, m);
            lemma_cong_add(a3, key_sum(keys@, order@, p3, i as int), key.c3@, key.c3@, m);
            lemma_cong_mod(a1 + key.c1@, m);
            lemma_cong_mod(a2 + key.c2@, m);
            lemma_cong_mod(a3 + key.c3@, m);
        }
    }
    proof {
        c1.lemma_range();
        c2.lemma_range();
        c3.lemma_range();
        lemma_cong_small(c1@, m);
        lemma_cong_small(c2@, m);
        lemma_cong_small(c3@, m);
    }
    PublicKey { c1, c2, c3 }
}

impl<C: Curve, X: Carrier<C>> Contributions<C, X> {
    /// No contributions.
    pub fn new() -> (r: Self)
        ensures
            r.xy@ == Seq::<PedersenDealing<C>>::empty(),
            r.z@ == Seq::<Dealing<C, X>>::empty(),
            r.keys@ == Seq::<PublicKey<C>>::empty(),
    {
        Contributions { xy: Vec::new(), z: Vec::new(), keys: Vec::new() }
    }

    /// Adds a contribution.
    pub fn push(&mut self, contribution: Contribution<C, X>)
        ensures
            final(self).xy@ == old(self).xy@.push(contribution.xy),
            final(self).z@ == old(self).z@.push(contribution.z),
            final(self).keys@ == old(self).keys@.push(contribution.key),
    {
        let Contribution { xy, z, key } = contribution;
        self.xy.push(xy);
        self.z.push(z);
        self.keys.push(key);
    }

    /// The contribution at index `i`.
    pub open spec fn at(self, i: int) -> Contribution<C, X> {
        Contribution { xy: self.xy[i], z: self.z[i], key: self.keys[i] }
    }

    /// There is a valid contribution per receiver.
    pub open spec fn valid(self, suite: Suite<C>, degree: int) -> bool {
        let n = suite.receiver_pks.len();
        &&& self.xy.len() == n
        &&& self.z.len() == n
        &&& self.keys.len() == n
        &&& forall|i: int| 0 <= i < n ==> (#[trigger] self.at(i)).valid(suite, degree)
    }

    proof fn lemma_valid(self, suite: Suite<C>, degree: int)
        requires
            self.valid(suite, degree),
        ensures
            all_valid(self.xy@, suite.generators, suite.base, suite.receiver_pks@, degree),
            all_valid(self.z@, suite.generators, suite.base, suite.receiver_pks@, degree),
            forall|i: int|
                0 <= i < self.keys.len() ==> is_key_of(
                    #[trigger] self.keys[i],
                    suite.generators,
                    self.xy[i].secrets,
                    self.z[i].secrets,
                ),
    {
        let pks = suite.receiver_pks@;
        assert forall|i: int| 0 <= i < self.xy.len() implies (#[trigger] self.xy[i]).valid(
            suite.generators,
            suite.base,
            pks,
            degree,
        ) by {
            assert(self.at(i).valid(suite, degree));
        }
        assert forall|i: int| 0 <= i < self.z.len() implies (#[trigger] self.z[i]).valid(
            suite.generators,
            suite.base,
            pks,
            degree,
        ) by {
            assert(self.at(i).valid(suite, degree));
        }
        assert forall|i: int| 0 <= i < self.keys.len() implies is_key_of(
            #[trigger] self.keys[i],
            suite.generators,
            self.xy[i].secrets,
            self.z[i].secrets,
        ) by {
            assert(self.at(i).valid(suite, degree));
        }
    }

    /// Every share of the dealer, of either sharing, checks.
    pub open spec fn sound(self, suite: Suite<C>, d: int) -> bool {
        &&& self.xy[d].sound_throughout(suite.generators)
        &&& self.z[d].sound_throughout(suite.generators)
    }

    /// The work of the first receiver: it checks both shares from every dealer. The result tells how
    /// many dealers it accepts.
    pub fn receive_first(&self, suite: &Suite<C>, degree: usize) -> (accepted: usize)
        requires
            suite.ready(self.xy.len() as int),
            self.valid(*suite, degree as int),
            self.xy.len() >= 1,
        ensures
            accepted == Seq::new(self.xy@.len(), |d: int| d).filter(
                |d: int|
                    self.xy[d].sound(suite.generators, 0) && self.z[d].sound(suite.generators, 0),
            ).len(),
    {
        let ghost p = |d: int|
            self.xy[d].sound(suite.generators, 0) && self.z[d].sound(suite.generators, 0);
        let ghost all = Seq::new(self.xy@.len(), |d: int| d);
        proof {
            self.lemma_valid(*suite, degree as int);
            reveal_with_fuel(Seq::filter, 1);
            assert(all.take(0).filter(p).len() == 0);
        }
        let sk = suite.elgamal[0].sk;
        let mut accepted: usize = 0;
        for d in 0..self.xy.len()
            invariant
                self.xy.len() >= 1,
                suite.ready(self.xy.len() as int),
                self.z.len() == self.xy.len(),
                sk == suite.elgamal[0].sk,
                all_valid(
                    self.xy@,
                    suite.generators,
                    suite.base,
                    suite.receiver_pks@,
                    degree as int,
                ),
                all_valid(
                    self.z@,
                    suite.generators,
                    suite.base,
                    suite.receiver_pks@,
                    degree as int,
                ),
                p == (|d: int|
                    self.xy[d].sound(suite.generators, 0) && self.z[d].sound(
                        suite.generators,
                        0,
                    )),
                all == Seq::new(self.xy@.len(), |d: int| d),
                accepted <= d,
                accepted == all.take(d as int).filter(p).len(),
        {
            assert(self.xy[d as int].valid(
                suite.generators,
                suite.base,
                suite.receiver_pks@,
                degree as int,
            ));
            let (_, a) = receive(
                &self.xy[d],
                &suite.generators,
                &suite.base,
                &suite.receiver_pks,
                degree,
                0,
                &sk,
            );
            let (_, b) = receive(
                &self.z[d],
                &suite.generators,
                &suite.base,
                &suite.receiver_pks,
                degree,
                0,
                &sk,
            );
            proof {
                let s = all.take(d + 1);
                assert(s.drop_last() =~= all.take(d as int));
                assert(s.last() == d);
                reveal_with_fuel(Seq::filter, 1);
            }
            if a && b {
                accepted += 1;
            }
        }
        assert(all.take(self.xy@.len() as int) =~= all);
        accepted
    }

    /// Resolves the complaints of both sharings: the dealers all of whose shares check qualify.
    pub fn resolve(
        &self,
        suite: &Suite<C>,
        degree: usize,
        complaints_xy: &Vec<Complaint>,
        complaints_z: &Vec<Complaint>,
        neutral_count: usize,
        rng: &mut ChaCha20Rng,
    ) -> (r: Result<BTreeSet<usize>, VssError>)
        requires
            self.valid(*suite, degree as int),
            complaints_xy@ == complaints_of(self.xy@, suite.generators),
            complaints_z@ == complaints_of(self.z@, suite.generators),
        ensures
            r matches Ok(qual) && forall|d: usize| #[trigger]
                qual@.contains(d) <==> d < self.xy.len() && self.sound(*suite, d as int),
    {
        proof {
            self.lemma_valid(*suite, degree as int);
        }
        let none: BTreeSet<usize> = BTreeSet::new();
        let out_xy = resolve(
            &self.xy,
            &suite.generators,
            degree,
            &none,
            complaints_xy,
            neutral_count,
            rng,
        )?;
        let out_z = resolve(
            &self.z,
            &suite.generators,
            degree,
            &none,
            complaints_z,
            neutral_count,
            rng,
        )?;
        let mut qual: BTreeSet<usize> = BTreeSet::new();
        for d in 0..self.xy.len()
            invariant
                forall|e: usize| #[trigger]
                    qual@.contains(e) <==> e < d && !out_xy.disqualified@.contains_key(e)
                        && !out_z.disqualified@.contains_key(e),
        {
            if !out_xy.disqualified.contains_key(&d) && !out_z.disqualified.contains_key(&d) {
                qual.insert(d);
            }
        }
        proof {
            assert(self.xy.len() == self.z.len());
            assert forall|d: usize| #[trigger] qual@.contains(d) <==> d < self.xy.len()
                && self.sound(*suite, d as int) by {
                assert(out_xy.disqualified@.contains_key(d) == unsound_dealers(
                    self.xy@,
                    suite.generators,
                ).contains(d));
                assert(out_z.disqualified@.contains_key(d) == unsound_dealers(
                    self.z@,
                    suite.generators,
                ).contains(d));
            }
        }
        Ok(qual)
    }

    /// Whether what the first `degree + 1` receivers hold over the listed dealers reconstructs to
    /// the sum of the dealers' keys.
    pub open spec fn agrees(self, suite: Suite<C>, degree: int, order: Seq<usize>, b: bool) -> bool {
        exists|c: (Point<C>, Point<C>), c3: Point<C>, key: PublicKey<C>|
            {
                &&& #[trigger] reconstructed(c, self.xy@, suite.generators, order, degree)
                &&& #[trigger] reconstructed_first(c3, self.z@, suite.generators, order, degree)
                &&& #[trigger] sums_to(self.keys@, order, key)
                &&& b == (c.0@ == key.c1@ && c.1@ == key.c2@ && c3@ == key.c3@)
            }
    }

    /// Reconstructs the key over the qualified dealers and compares it with the sum of their keys;
    /// `None` where nobody qualifies or there are too few receivers. Over dealers all of whose
    /// shares check it agrees.
    pub fn reconstruct_ok(
        &self,
        suite: &Suite<C>,
        degree: usize,
        qual: &BTreeSet<usize>,
    ) -> (r: Option<bool>)
        requires
            suite.ready(self.xy.len() as int),
            self.valid(*suite, degree as int),
            self.xy.len() <= i64::MAX,
            forall|d: usize| #[trigger] qual@.contains(d) ==> d < self.xy.len(),
        ensures
            match r {
                Some(b) => {
                    &&& qual@.len() > 0
                    &&& degree < self.xy.len()
                    &&& exists|order: Seq<usize>|
                        #[trigger] enumerates(order, qual@) && self.agrees(
                            *suite,
                            degree as int,
                            order,
                            b,
                        )
                },
                None => qual@.len() == 0 || degree >= self.xy.len(),
            },
            (forall|d: usize| #[trigger] qual@.contains(d) ==> self.sound(*suite, d as int))
                ==> r != Some(false),
    {
        if qual.len() == 0 || degree >= self.xy.len() {
            return None;
        }
        let order = ascending(qual);
        proof {
            self.lemma_valid(*suite, degree as int);
            assert forall|k: int| 0 <= k < order.len() implies (#[trigger] order[k])
                < self.xy.len() && qual@.contains(order[k]) by {
                assert(order@.to_set().contains(order@[k]));
            }
        }
        let key = sum_keys(&self.keys, &order);
        let c = reconstruct(
            &self.xy,
            &suite.generators,
            &suite.base,
            &suite.receiver_pks,
            degree,
            &suite.elgamal,
            &order,
        );
        let c3 = reconstruct_first(
            &self.z,
            &suite.generators,
            &suite.base,
            &suite.receiver_pks,
            degree,
            &suite.elgamal,
            &order,
        );
        let b = c.0 == key.c1 && c.1 == key.c2 && c3 == key.c3;
        proof {
            assert(enumerates(order@, qual@));
            assert(reconstructed_first(c3, self.z@, suite.generators, order@, degree as int));
            assert(self.agrees(*suite, degree as int, order@, b));
            if forall|d: usize| #[trigger] qual@.contains(d) ==> self.sound(*suite, d as int) {
                self.lemma_agrees(*suite, degree as int, order@, c, c3, key);
            }
        }
        Some(b)
    }

    /// Over dealers all of whose shares check, the reconstructed key is the sum of the keys.
    proof fn lemma_agrees(
        self,
        suite: Suite<C>,
        degree: int,
        order: Seq<usize>,
        c: (Point<C>, Point<C>),
        c3: Point<C>,
        key: PublicKey<C>,
    )
        requires
            self.valid(suite, degree),
            0 <= degree < self.xy.len(),
            forall|k: int|
                0 <= k < order.len() ==> (#[trigger] order[k]) < self.xy.len() && self.sound(
                    suite,
                    order[k] as int,
                ),
            reconstructed(c, self.xy@, suite.generators, order, degree),
            reconstructed_first(c3, self.z@, suite.generators, order, degree),
            sums_to(self.keys@, order, key),
        ensures
            c.0@ == key.c1@,
            c.1@ == key.c2@,
            c3@ == key.c3@,
    {
        let gens = suite.generators;
        let (m, g1, g2, l) = (C::order(), gens.g1@, gens.g2@, order.len() as int);
        C::order_exceeds_words();
        self.lemma_valid(suite, degree);
        let xs = receivers((degree + 1) as nat);
        law_round_reconstructs(self.xy@, gens, degree, order, xs, -1, c.0@);
        law_round_reconstructs(self.xy@, gens, degree, order, xs, -2, c.1@);
        law_first_reconstructs(self.z@, gens, degree, order, -1, c3@);
        let (pxy, pz) = (polynomials(self.xy@, order), polynomials(self.z@, order));
        let (k1, k2, k3) = (
            |k: PublicKey<C>| k.c1@,
            |k: PublicKey<C>| k.c2@,
            |k: PublicKey<C>| k.c3@,
        );
        let (s1, s2, s3) = (
            |k: int| k1(self.keys@[order[k] as int]),
            |k: int| k2(self.keys@[order[k] as int]),
            |k: int| k3(self.keys@[order[k] as int]),
        );
        let (v1, v2, v3) = (
            |d: int| g1 * poly(pxy[d].0, -1) + g2 * poly(pxy[d].1, -1),
            |d: int| g1 * poly(pxy[d].0, -2) + g2 * poly(pxy[d].1, -2),
            |d: int| g1 * poly(pz[d].0, -1) + 0 * poly(pz[d].1, -1),
        );
        assert forall|k: int| 0 <= k < l implies cong(#[trigger] s1(k), v1(k), m) && cong(
            s2(k),
            v2(k),
            m,
        ) && cong(s3(k), v3(k), m) by {
            let d = order[k] as int;
            let (x, z) = (self.xy[d].secrets, self.z[d].secrets);
            assert(is_key_of(self.keys[d], gens, x, z));
            assert(self.xy[d].valid(gens, suite.base, suite.receiver_pks@, degree));
            assert(self.z[d].valid(gens, suite.base, suite.receiver_pks@, degree));
            let (f, g) = (x.f.coefficients(), x.g.coefficients());
            lemma_pair::<C>(g1, g2, poly(f, -1), poly(g, -1));
            lemma_pair::<C>(g1, g2, poly(f, -2), poly(g, -2));
            lemma_pair::<C>(g1, 0, poly(z.f.coefficients(), -1), poly(z.g.coefficients(), -1));
            assert(0 * (poly(z.g.coefficients(), -1) % m) == 0) by (nonlinear_arith);
        }
        assert forall|k: int| 0 <= k < l implies cong(#[trigger] s2(k), v2(k), m) by {
            assert(cong(s1(k), v1(k), m));
        }
        assert forall|k: int| 0 <= k < l implies cong(#[trigger] s3(k), v3(k), m) by {
            assert(cong(s1(k), v1(k), m));
        }
        lemma_sum_cong(s1, v1, 0, l, m);
        lemma_sum_cong(s2, v2, 0, l, m);
        lemma_sum_cong(s3, v3, 0, l, m);
        assert(key_sum(self.keys@, order, k1, l) == sum(s1, 0, l)) by {
            lemma_sum_eq(s1, |k: int| k1(self.keys@[order[k] as int]), 0, l);
        }
        assert(key_sum(self.keys@, order, k2, l) == sum(s2, 0, l)) by {
            lemma_sum_eq(s2, |k: int| k2(self.keys@[order[k] as int]), 0, l);
        }
        assert(key_sum(self.keys@, order, k3, l) == sum(s3, 0, l)) by {
            lemma_sum_eq(s3, |k: int| k3(self.keys@[order[k] as int]), 0, l);
        }
        lemma_sum_eq(v1, |d: int| g1 * poly(pxy[d].0, -1) + g2 * poly(pxy[d].1, -1), 0, l);
        lemma_sum_eq(v2, |d: int| g1 * poly(pxy[d].0, -2) + g2 * poly(pxy[d].1, -2), 0, l);
        lemma_sum_eq(v3, |d: int| g1 * poly(pz[d].0, -1) + 0 * poly(pz[d].1, -1), 0, l);
    }
}

/// The point recovered at `-1` from what the first `degree + 1` receivers hold in first components
/// over the listed dealers.
pub open spec fn reconstructed_first<C: Curve, X>(
    c: Point<C>,
    dealings: Seq<Dealing<C, X>>,
    generators: PedersenGenerators<C>,
    order: Seq<usize>,
    degree: int,
) -> bool {
    let (m, count) = (C::order(), (degree + 1) as nat);
    let values = first_values(dealings, generators, order, count);
    &&& lagrange_value(c@, receivers(count), values, (-1) % m, m)
    &&& recovers(c@, receivers(count), values, -1, m)
}

/// The size of one dealer's broadcast in bytes: the commitments and carriers of both sharings, and
/// the three points of the key.
pub open spec fn payload_bytes<C: Curve, X: Carrier<C>>(degree: int, n: int) -> int {
    (2 * (degree + 1) + 8 * n + X::points() * n + 3) * C::encoding_len()
}

/// The size in bytes of the broadcast of two sharings and a key.
pub fn payload_of<C: Curve, X: Carrier<C>>(xy: &PedersenDealing<C>, z: &Dealing<C, X>) -> (r: usize)
    requires
        xy.distribution.commitments.len() == z.distribution.commitments.len(),
        xy.encrypted.len() == z.encrypted.len(),
        payload_bytes::<C, X>(
            xy.distribution.commitments.len() - 1,
            xy.encrypted.len() as int,
        ) <= usize::MAX,
    ensures
        r == payload_bytes::<C, X>(
            xy.distribution.commitments.len() - 1,
            xy.encrypted.len() as int,
        ),
{
    let size = C::encoded_size();
    let points = X::point_count();
    let n = xy.encrypted.len();
    let k = xy.distribution.commitments.len();
    proof {
        C::encoding_is_short();
        let (a, b, c) = (2 * k as int, 8 * n as int, points * n);
        assert(0 <= points * n) by (nonlinear_arith);
        let total = a + b + c + 3;
        assert(total <= total * size) by (nonlinear_arith)
            requires
                total >= 0,
                size >= 1,
        ;
    }
    (2 * k + 8 * n + points * n + 3) * size
}

/// A run: the contributions, the complaints over each sharing, who qualified, and the outcome.
pub struct FiveRun<C: Curve, X> {
    pub contributions: Contributions<C, X>,
    pub complaints_xy: Vec<Complaint>,
    pub complaints_z: Vec<Complaint>,
    pub qual: BTreeSet<usize>,
    pub outcome: Outcome,
    pub payload: usize,
}

impl<C: Curve, X: Carrier<C>> FiveRun<C, X> {
    /// What a run comes to: the complaints are those over shares that do not check, the dealers all
    /// of whose shares check qualify, nobody is caught by public verification, and the key
    /// reconstructs wherever somebody qualifies.
    pub open spec fn settled(self, suite: Suite<C>, degree: int) -> bool {
        let n = suite.receiver_pks.len();
        let dealt = self.contributions;
        &&& dealt.valid(suite, degree)
        &&& self.complaints_xy@ == complaints_of(dealt.xy@, suite.generators)
        &&& self.complaints_z@ == complaints_of(dealt.z@, suite.generators)
        &&& forall|d: usize| #[trigger]
            self.qual@.contains(d) <==> d < n && dealt.sound(suite, d as int)
        &&& self.outcome.faulty@ == Set::<usize>::empty()
        &&& self.outcome.complaints == self.complaints_xy.len() + self.complaints_z.len()
        &&& self.outcome.qual == self.qual@.len()
        &&& self.outcome.reconstructed_ok == if self.qual@.len() == 0 || degree >= n {
            None
        } else {
            Some(true)
        }
        &&& self.payload == payload_bytes::<C, X>(degree, n as int)
    }
}

/// Runs the phases after the dealing: checking and complaining, resolving, and reconstructing.
pub fn conclude<C: Curve, X: Carrier<C>>(
    suite: &Suite<C>,
    degree: usize,
    contributions: Contributions<C, X>,
    neutral_count: usize,
    rng: &mut ChaCha20Rng,
) -> (r: Result<FiveRun<C, X>, VssError>)
    requires
        contributions.valid(*suite, degree as int),
        suite.ready(contributions.xy.len() as int),
        1 <= contributions.xy.len() <= i64::MAX,
        2 * contributions.xy.len() * contributions.xy.len() <= usize::MAX,
        payload_bytes::<C, X>(degree as int, contributions.xy.len() as int) <= usize::MAX,
    ensures
        r matches Ok(run) && run.contributions == contributions && run.settled(
            *suite,
            degree as int,
        ),
{
    let n = contributions.xy.len();
    proof {
        contributions.lemma_valid(*suite, degree as int);
    }
    let complaints_xy = file_complaints(
        &contributions.xy,
        &suite.generators,
        &suite.base,
        &suite.receiver_pks,
        degree,
        &suite.elgamal,
    );
    let complaints_z = file_complaints(
        &contributions.z,
        &suite.generators,
        &suite.base,
        &suite.receiver_pks,
        degree,
        &suite.elgamal,
    );
    proof {
        assert(contributions.xy@.len() == n && contributions.z@.len() == n);
        lemma_accused(contributions.xy@, suite.generators);
        lemma_accused(contributions.z@, suite.generators);
        assert(2 * n * n == n * n + n * n) by (nonlinear_arith);
    }
    let complaints = complaints_xy.len() + complaints_z.len();
    let qual = contributions.resolve(
        suite,
        degree,
        &complaints_xy,
        &complaints_z,
        neutral_count,
        rng,
    )?;
    let reconstructed_ok = contributions.reconstruct_ok(suite, degree, &qual);
    assert(contributions.at(0).valid(*suite, degree as int));
    let payload = payload_of::<C, X>(&contributions.xy[0], &contributions.z[0]);
    let outcome = Outcome {
        faulty: BTreeSet::new(),
        complaints,
        qual: qual.len(),
        reconstructed_ok,
    };
    Ok(FiveRun { contributions, complaints_xy, complaints_z, qual, outcome, payload })
}

} // verus!
