//! A run of the partially aggregatable key generation between parties who are all dealers and
//! receivers: what they publish, and the phases after the layer for `z` has rejected some of them.
use crate::collections::{ascending, copied, enumerates, lemma_take_set};
use crate::curve::{Curve, Point, Scalar};
use crate::dkg::accusations::{fails_victims, failures, law_one_accusation_each, one_each};
use crate::dkg::complaint::{pairs, Complaint, ComplaintOutcome, DisqualificationReason};
use crate::dkg::dmkg::{
    aggregate_public_key, aggregated, pair_commitment, DMKGContribution, PublicKey, ZDealing,
};
use crate::dkg::errors::VssError;
use crate::dkg::keygen::{
    all_commit, commits_to, key_reconstructs, law_key_reconstructs, matches_key,
};
use crate::dkg::round::{
    all_valid, complaints_of, law_honest_is_sound, law_off_share_detected, lemma_not_off,
    reason_for, receivers, reconstructed, resolve, soundness, unsound_dealers, unsound_receivers,
    Dealing, PedersenDealing,
};
use crate::dkg::suite::Suite;
use crate::dkg::tampering::{offset_at, offset_of, telling};
use rand_chacha::ChaCha20Rng;
use std::collections::{BTreeMap, BTreeSet};
use vstd::prelude::*;

verus! {

broadcast use {vstd::laws_cmp::group_laws_cmp, vstd::std_specs::btree::group_btree_axioms};

/// The receiver, by index, to whom dealer `i` deals a bad share where it corrupts the Pedersen layer.
pub open spec fn victim_of(i: int, n: int) -> int {
    (i + 1) % n
}

/// The victims among `n` receivers, by dealer.
pub open spec fn victims(n: int) -> spec_fn(int) -> int {
    |i: int| victim_of(i, n)
}

/// What dealers publish, and the sharings behind it.
pub struct Published<C: Curve, S> {
    pub contributions: BTreeMap<usize, DMKGContribution<C, S>>,
    pub dealings: Vec<PedersenDealing<C>>,
}

impl<C: Curve, S> Published<C, S> {
    /// Every dealer of the suite published a valid sharing, and a contribution that shows it and
    /// commits to its secrets.
    pub open spec fn valid(self, suite: Suite<C>, degree: int) -> bool {
        let n = suite.receiver_pks.len();
        &&& all_valid(
            self.dealings@,
            suite.generators,
            suite.base,
            suite.receiver_pks@,
            degree,
        )
        &&& forall|i: usize| #[trigger] self.contributions@.contains_key(i) <==> i < n
        &&& all_commit(self.contributions@, self.dealings@, suite.generators)
        &&& forall|i: usize|
            i < n ==> {
                let c = #[trigger] self.contributions@[i];
                &&& c.dealer_id == i
                &&& c.commitments@ == self.dealings[i as int].distribution.commitments@
                &&& c.encrypted_shares@ == self.dealings[i as int].encrypted@
            }
    }

    /// The dealers shift the shares of their victims by the given offsets, and no others.
    pub open spec fn tampered(self, offsets: Map<usize, Scalar<C>>, n: int) -> bool {
        forall|i: int|
            0 <= i < n ==> (#[trigger] self.dealings[i]).tampered(
                n,
                victim_of(i, n),
                offset_of(offsets, i),
            )
    }

    /// Every share is honest but those to the victims of the corrupt dealers.
    pub open spec fn honest_but(self, corrupt: Set<usize>, n: int) -> bool {
        forall|i: int, j: int|
            0 <= i < n && 0 <= j < n && (j == victim_of(i, n) ==> !corrupt.contains(i as usize))
                ==> #[trigger] self.dealings[i].honest_to(j)
    }

    /// The contribution of dealer `i` carries what the layer for `z` dealt for it.
    pub open spec fn carries(
        self,
        suite: Suite<C>,
        z: Seq<ZDealing<C, S>>,
        i: usize,
    ) -> bool {
        let c = self.contributions@[i];
        &&& c.dkg_share == z[i as int].dkg_share
        &&& c.c3_i@ == (suite.generators.g1@ * z[i as int].z_i@) % C::order()
    }

    /// Dealer `d` qualifies: the layer for `z` did not reject it, and all its shares check.
    pub open spec fn qualifies(self, suite: Suite<C>, qagg: Set<usize>, d: usize) -> bool {
        &&& d < self.dealings.len()
        &&& !qagg.contains(d)
        &&& self.dealings[d as int].sound_throughout(suite.generators)
    }

    /// Nothing is published yet.
    pub fn nothing() -> (r: Self)
        ensures
            r.contributions@ == Map::<usize, DMKGContribution<C, S>>::empty(),
            r.dealings@ == Seq::<PedersenDealing<C>>::empty(),
    {
        Published { contributions: BTreeMap::new(), dealings: Vec::new() }
    }

    /// Every dealer deals and publishes; `z` holds what the layer for `z` dealt, one per dealer.
    /// The dealers with an offset shift the share of their victim by it.
    pub fn publish(
        suite: &Suite<C>,
        degree: usize,
        z: Vec<ZDealing<C, S>>,
        offsets: &BTreeMap<usize, Scalar<C>>,
        rng: &mut ChaCha20Rng,
    ) -> (r: Result<Self, VssError>)
        requires
            degree < usize::MAX,
            z.len() == suite.receiver_pks.len(),
            1 <= z.len() < usize::MAX,
        ensures
            match r {
                Ok(published) => {
                    &&& degree >= 1
                    &&& published.valid(*suite, degree as int)
                    &&& published.tampered(offsets@, z.len() as int)
                    &&& forall|i: usize| i < z.len() ==> #[trigger] published.carries(*suite, z@, i)
                },
                Err(e) => degree < 1 && e == VssError::InsufficientDegree(degree),
            },
    {
        let n = z.len();
        let ghost given = z@;
        let mut rest = z;
        let mut published: Self = Self::nothing();
        for i in 0..n
            invariant
                1 <= n < usize::MAX,
                n == suite.receiver_pks.len(),
                degree < usize::MAX,
                i > 0 ==> degree >= 1,
                given.len() == n,
                rest@ == given.skip(i as int),
                published.dealings.len() == i,
                forall|d: int|
                    0 <= d < i ==> (#[trigger] published.dealings[d]).valid(
                        suite.generators,
                        suite.base,
                        suite.receiver_pks@,
                        degree as int,
                    ),
                forall|d: int|
                    0 <= d < i ==> (#[trigger] published.dealings[d]).tampered(
                        n as int,
                        victim_of(d, n as int),
                        offset_of(offsets@, d),
                    ),
                forall|d: usize| #[trigger] published.contributions@.contains_key(d) <==> d < i,
                all_commit(published.contributions@, published.dealings@, suite.generators),
                forall|d: usize|
                    d < i ==> {
                        let c = #[trigger] published.contributions@[d];
                        &&& c.dealer_id == d
                        &&& c.commitments@
                            == published.dealings[d as int].distribution.commitments@
                        &&& c.encrypted_shares@ == published.dealings[d as int].encrypted@
                    },
                forall|d: usize| d < i ==> #[trigger] published.carries(*suite, given, d),
        {
            assert(rest@[0] == given[i as int]);
            let ZDealing { z_i, dkg_share } = rest.remove(0);
            assert(rest@ =~= given.skip(i + 1));
            let shift: Option<(usize, Scalar<C>)> = match offsets.get(&i) {
                Some(delta) => Some(((i + 1) % n, *delta)),
                None => None,
            };
            let dealing = Dealing::deal(
                &suite.generators,
                &suite.base,
                &suite.receiver_pks,
                degree,
                shift,
                rng,
            )?;
            let contribution = DMKGContribution {
                dealer_id: i,
                dkg_share,
                commitments: copied(&dealing.distribution.commitments),
                encrypted_shares: copied(&dealing.encrypted),
                c1_i: pair_commitment(&suite.generators, &dealing.secrets.x1, &dealing.secrets.x2),
                c2_i: pair_commitment(&suite.generators, &dealing.secrets.y1, &dealing.secrets.y2),
                c3_i: suite.generators.g1.mul(&z_i),
            };
            let ghost before = published;
            published.contributions.insert(i, contribution);
            published.dealings.push(dealing);
            proof {
                assert forall|d: usize| d < published.dealings.len() implies
                    #[trigger] published.contributions@.contains_key(d) && commits_to(
                    published.contributions@[d],
                    suite.generators,
                    published.dealings[d as int].secrets,
                ) by {
                    if d < i {
                        assert(before.contributions@.contains_key(d));
                        assert(published.dealings[d as int] == before.dealings[d as int]);
                    }
                }
                assert(all_commit(
                    published.contributions@,
                    published.dealings@,
                    suite.generators,
                ));
                assert forall|d: int| 0 <= d <= i implies
                    (#[trigger] published.dealings[d]).tampered(
                    n as int,
                    victim_of(d, n as int),
                    offset_of(offsets@, d),
                ) by {
                    if d < i {
                        assert(published.dealings[d] == before.dealings[d]);
                    } else {
                        assert(published.dealings[d] == dealing);
                        let (v, delta) = (victim_of(d, n as int), offset_of(offsets@, d));
                        assert forall|j: int| 0 <= j < n implies #[trigger] dealing.off_by(
                            j,
                            offset_at(j, v, delta),
                        ) by {
                            assert(dealing.off_by(j, offset_at(j, v, delta)) || dealing.off_by(
                                j,
                                offset_at(j, 0, 0),
                            ));
                        }
                    }
                }
                assert forall|d: usize| d <= i implies #[trigger] published.carries(
                    *suite,
                    given,
                    d,
                ) by {
                    if d < i {
                        assert(before.carries(*suite, given, d));
                        assert(published.contributions@[d] == before.contributions@[d]);
                    }
                }
            }
        }
        Ok(published)
    }

    /// Resolves the complaints where the layer for `z` rejected the dealers `qagg`: those and the
    /// dealers with unsound shares are disqualified, each with its reason, and the others qualify.
    pub fn resolve(
        &self,
        suite: &Suite<C>,
        degree: usize,
        qagg: &BTreeSet<usize>,
        complaints: &Vec<Complaint>,
        neutral_count: usize,
        rng: &mut ChaCha20Rng,
    ) -> (r: Result<ComplaintOutcome, VssError>)
        requires
            self.valid(*suite, degree as int),
            complaints@ == complaints_of(self.dealings@, suite.generators),
        ensures
            r matches Ok(outcome) && self.resolved(*suite, degree, qagg@, outcome),
    {
        assert forall|d: int| 0 <= d < self.dealings.len() implies
            (#[trigger] self.dealings[d]).distribution.shares.len() == self.dealings.len() by {
            assert(self.dealings[d].valid(
                suite.generators,
                suite.base,
                suite.receiver_pks@,
                degree as int,
            ));
        }
        let settled = resolve(
            &self.dealings,
            &suite.generators,
            degree,
            qagg,
            complaints,
            neutral_count,
            rng,
        )?;
        let mut qual = settled.qual;
        let mut disqualified = settled.disqualified;
        let ghost (q0, d0) = (qual@, disqualified@);
        let members = ascending(qagg);
        for i in 0..members.len()
            invariant
                members@.to_set() == qagg@,
                forall|d: usize| #[trigger]
                    qual@.contains(d) <==> q0.contains(d) && !members@.take(
                        i as int,
                    ).to_set().contains(d),
                forall|d: usize| #[trigger]
                    disqualified@.contains_key(d) <==> d0.contains_key(d) || members@.take(
                        i as int,
                    ).to_set().contains(d),
                forall|d: usize|
                    d0.contains_key(d) ==> #[trigger] disqualified@[d] == d0[d],
                forall|d: usize|
                    members@.take(i as int).to_set().contains(d) && !d0.contains_key(d)
                        ==> #[trigger] disqualified@[d] == DisqualificationReason::InQagg,
        {
            let m = members[i];
            proof {
                lemma_take_set(members@, i as int);
            }
            qual.remove(&m);
            if !disqualified.contains_key(&m) {
                disqualified.insert(m, DisqualificationReason::InQagg);
            }
        }
        let outcome = ComplaintOutcome { qual, disqualified };
        proof {
            assert(members@.take(members.len() as int) =~= members@);
            assert forall|d: usize| #[trigger] outcome.disqualified@.contains_key(d) implies
                outcome.disqualified@[d] == self.reason(*suite, degree, qagg@, d) by {
                if d0.contains_key(d) {
                    assert(outcome.disqualified@[d] == d0[d]);
                } else {
                    assert(outcome.disqualified@[d] == DisqualificationReason::InQagg);
                }
            }
        }
        Ok(outcome)
    }

    /// Why a disqualified dealer is out.
    pub open spec fn reason(
        self,
        suite: Suite<C>,
        degree: usize,
        qagg: Set<usize>,
        d: usize,
    ) -> DisqualificationReason {
        reason_for(self.dealings@, suite.generators, degree, qagg, d)
    }

    /// The outcome of the complaints.
    pub open spec fn resolved(
        self,
        suite: Suite<C>,
        degree: usize,
        qagg: Set<usize>,
        outcome: ComplaintOutcome,
    ) -> bool {
        &&& forall|d: usize| #[trigger]
            outcome.qual@.contains(d) <==> self.qualifies(suite, qagg, d)
        &&& forall|d: usize| #[trigger]
            outcome.disqualified@.contains_key(d) <==> qagg.contains(d) || unsound_dealers(
                self.dealings@,
                suite.generators,
            ).contains(d)
        &&& forall|d: usize| #[trigger]
            outcome.disqualified@.contains_key(d) ==> outcome.disqualified@[d] == self.reason(
                suite,
                degree,
                qagg,
                d,
            )
    }

    /// The aggregated key over qualified dealers, and whether its first two points reconstruct from
    /// what the first `degree + 1` receivers hold. Over dealers all of whose shares check they do.
    pub fn generate_key(
        &self,
        suite: &Suite<C>,
        degree: usize,
        qual: &BTreeSet<usize>,
    ) -> (r: (PublicKey<C>, Option<bool>))
        requires
            suite.ready(self.dealings.len() as int),
            self.valid(*suite, degree as int),
            self.dealings.len() <= i64::MAX,
            forall|d: usize| #[trigger]
                qual@.contains(d) ==> d < self.dealings.len()
                    && self.dealings[d as int].sound_throughout(suite.generators),
        ensures
            aggregated(r.0, self.contributions@, qual@),
            r.1 == if qual@.len() == 0 || degree >= self.dealings.len() {
                None
            } else {
                Some(true)
            },
    {
        let pk = aggregate_public_key(&self.contributions, qual);
        let ok = key_reconstructs(
            &self.dealings,
            &suite.generators,
            &suite.base,
            &suite.receiver_pks,
            degree,
            &suite.elgamal,
            qual,
            &pk,
        );
        proof {
            if let Some(b) = ok {
                let (order, c) = choose|order: Seq<usize>, c: (Point<C>, Point<C>)|
                    {
                        &&& #[trigger] enumerates(order, qual@)
                        &&& #[trigger] reconstructed(
                            c,
                            self.dealings@,
                            suite.generators,
                            order,
                            degree as int,
                        )
                        &&& b == matches_key(c, pk)
                    };
                assert forall|d: usize| #[trigger] qual@.contains(d) implies {
                    &&& d < self.dealings.len()
                    &&& self.dealings[d as int].well_dealt(
                        suite.generators,
                        degree as int,
                        self.dealings.len() as int,
                    )
                    &&& self.dealings[d as int].sound_throughout(suite.generators)
                } by {
                    assert(self.dealings[d as int].valid(
                        suite.generators,
                        suite.base,
                        suite.receiver_pks@,
                        degree as int,
                    ));
                }
                law_key_reconstructs(
                    self.contributions@,
                    self.dealings@,
                    suite.generators,
                    degree as int,
                    qual@,
                    order,
                    pk,
                    receivers((degree + 1) as nat),
                    c.0@,
                    c.1@,
                );
            }
        }
        (pk, ok)
    }
}

/// Only the shares to the victims of dealers with an offset are not honest.
pub proof fn lemma_honest_but<C: Curve, S>(
    published: Published<C, S>,
    suite: Suite<C>,
    degree: int,
    offsets: Map<usize, Scalar<C>>,
)
    requires
        published.valid(suite, degree),
        published.tampered(offsets, suite.receiver_pks.len() as int),
    ensures
        published.honest_but(offsets.dom(), suite.receiver_pks.len() as int),
{
    let n = suite.receiver_pks.len() as int;
    assert forall|i: int, j: int|
        0 <= i < n && 0 <= j < n && (j == victim_of(i, n) ==> !offsets.dom().contains(
            i as usize,
        )) implies #[trigger] published.dealings[i].honest_to(j) by {
        let dealing = published.dealings[i];
        assert(dealing.valid(suite.generators, suite.base, suite.receiver_pks@, degree));
        assert(dealing.tampered(n, victim_of(i, n), offset_of(offsets, i)));
        assert(dealing.off_by(j, offset_at(j, victim_of(i, n), offset_of(offsets, i))));
        lemma_not_off(dealing, suite.generators, degree, n, j);
    }
}

/// Where every offset shows, each dealer with an offset draws exactly one complaint, of its victim;
/// nobody else draws any; and those who qualify are the dealers that are neither reported by the
/// layer for `z` nor have an offset.
pub proof fn law_tampering_detected<C: Curve, S>(
    published: Published<C, S>,
    suite: Suite<C>,
    degree: int,
    offsets: Map<usize, Scalar<C>>,
)
    requires
        published.valid(suite, degree),
        published.tampered(offsets, suite.receiver_pks.len() as int),
        telling(offsets, suite.generators.g1@),
        forall|i: usize| #[trigger] offsets.contains_key(i) ==> i < suite.receiver_pks.len(),
    ensures
        pairs(complaints_of(published.dealings@, suite.generators)) == one_each(
            offsets.dom(),
            victims(suite.receiver_pks.len() as int),
            suite.receiver_pks.len() as int,
        ),
        offsets.dom().finite(),
        complaints_of(published.dealings@, suite.generators).len() == offsets.dom().len(),
        forall|qagg: Set<usize>, d: usize| #[trigger]
            published.qualifies(suite, qagg, d) <==> d < suite.receiver_pks.len()
                && !qagg.contains(d) && !offsets.contains_key(d),
        forall|d: usize| #[trigger]
            offsets.contains_key(d) ==> unsound_receivers(
                published.dealings@,
                suite.generators,
                d as int,
            ) == Set::<usize>::empty().insert(
                (victim_of(d as int, suite.receiver_pks.len() as int) + 1) as usize,
            ),
{
    let n = suite.receiver_pks.len() as int;
    let (bad, victim) = (offsets.dom(), victims(n));
    let sound = soundness(published.dealings@, suite.generators);
    assert forall|d: int, j: int| 0 <= d < n && 0 <= j < n implies (#[trigger] sound(d, j) <==> !(
    bad.contains(d as usize) && j == victim(d))) by {
        let dealing = published.dealings[d];
        assert(dealing.valid(suite.generators, suite.base, suite.receiver_pks@, degree));
        assert(dealing.tampered(n, victim_of(d, n), offset_of(offsets, d)));
        let delta = offset_at(j, victim_of(d, n), offset_of(offsets, d));
        assert(dealing.off_by(j, delta));
        law_off_share_detected(dealing, suite.generators, degree, n, j, delta);
        assert(suite.generators.g1@ * 0 == 0) by (nonlinear_arith);
    }
    assert forall|d: int| 0 <= d < n implies 0 <= #[trigger] victim(d) < n by {
        vstd::arithmetic::div_mod::lemma_mod_bound(d + 1, n);
    }
    assert(fails_victims(sound, n, bad, victim));
    law_one_accusation_each(sound, n, bad, victim);
    assert(pairs(complaints_of(published.dealings@, suite.generators)) =~= failures(sound, n));
    assert forall|qagg: Set<usize>, d: usize| #[trigger]
        published.qualifies(suite, qagg, d) <==> d < n && !qagg.contains(d)
            && !offsets.contains_key(d) by {
        if d < n {
            let dealing = published.dealings[d as int];
            assert(dealing.valid(suite.generators, suite.base, suite.receiver_pks@, degree));
            assert forall|j: int| 0 <= j < n implies #[trigger] dealing.sound(suite.generators, j)
                == sound(d as int, j) by {
            }
            if offsets.contains_key(d) {
                assert(0 <= victim(d as int) < n);
                assert(!sound(d as int, victim(d as int)));
                assert(!dealing.sound(suite.generators, victim(d as int)));
            } else {
                assert forall|j: int| 0 <= j < n implies #[trigger] dealing.sound(
                    suite.generators,
                    j,
                ) by {
                    assert(sound(d as int, j));
                }
            }
        }
    }
    assert forall|d: usize| #[trigger] offsets.contains_key(d) implies unsound_receivers(
        published.dealings@,
        suite.generators,
        d as int,
    ) == Set::<usize>::empty().insert((victim_of(d as int, n) + 1) as usize) by {
        let only = (victim_of(d as int, n) + 1) as usize;
        assert(0 <= victim(d as int) < n);
        let failing = unsound_receivers(published.dealings@, suite.generators, d as int);
        assert forall|c: usize| failing.contains(c) == (c == only) by {
            if 1 <= c <= n {
                assert(sound(d as int, c - 1) <==> !(bad.contains(d) && c - 1 == victim(d as int)));
            }
        }
        assert(failing =~= Set::<usize>::empty().insert(only));
    }
}

/// A dealer that is not corrupt deals shares that all check.
pub proof fn law_uncorrupted_is_sound<C: Curve, S>(
    published: Published<C, S>,
    suite: Suite<C>,
    degree: int,
    corrupt: Set<usize>,
    d: usize,
)
    requires
        published.valid(suite, degree),
        published.honest_but(corrupt, suite.receiver_pks.len() as int),
        d < suite.receiver_pks.len(),
        !corrupt.contains(d),
    ensures
        published.dealings[d as int].sound_throughout(suite.generators),
{
    let dealing = published.dealings[d as int];
    assert(dealing.valid(suite.generators, suite.base, suite.receiver_pks@, degree));
    assert forall|j: int| 0 <= j < suite.receiver_pks.len() implies #[trigger] dealing.sound(
        suite.generators,
        j,
    ) by {
        assert(published.dealings[d as int].honest_to(j));
        law_honest_is_sound(dealing, suite.generators, j);
    }
}

/// Nobody whom the layer for `z` rejected qualifies.
pub proof fn law_rejected_never_qualifies<C: Curve, S>(
    published: Published<C, S>,
    suite: Suite<C>,
    degree: usize,
    qagg: Set<usize>,
    outcome: ComplaintOutcome,
)
    requires
        published.resolved(suite, degree, qagg, outcome),
    ensures
        forall|d: usize| #[trigger] qagg.contains(d) ==> !outcome.qual@.contains(d)
            && outcome.disqualified@.contains_key(d)
            && outcome.disqualified@[d] == DisqualificationReason::InQagg,
{
    assert forall|d: usize| #[trigger] qagg.contains(d) implies !outcome.qual@.contains(d)
        && outcome.disqualified@.contains_key(d) && outcome.disqualified@[d]
        == DisqualificationReason::InQagg by {
        assert(outcome.disqualified@.contains_key(d));
    }
}

} // verus!
