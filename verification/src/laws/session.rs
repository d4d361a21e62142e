//! Which configurations a session takes, what it waits for and how its steps change it.
use crate::algebra::poly;
use crate::bls::Bls12381;
use crate::curve::{Curve, Point, Scalar};
use crate::dkg::params::{exceeds_bound, pads_to};
use crate::parse::views;
use crate::sim::malice::Malice;
use crate::sim::phase::Phase;
use crate::sim::session::{
    acceptable, corrupting, dishonest, least_stray, malice_at, refused, sent, shifts, threshold,
    DkgSession, Event, Pending, Tampering, ZShare,
};
use crate::sim::tree::law_root;
use crate::text::decimal;
use vstd::arithmetic::power2::pow2;
use vstd::prelude::*;

verus! {

broadcast use {vstd::laws_cmp::group_laws_cmp, vstd::std_specs::btree::group_btree_axioms};

/// The degree is the one asked for, but at least one; without any it is half the number of
/// participants, but at least one.
pub proof fn law_degree(n: int, d: usize)
    ensures
        d >= 1 ==> threshold(n, Some(d)) == d,
        threshold(n, Some(0)) == 1,
        n >= 2 ==> threshold(n, None) == n / 2,
        0 <= n < 2 ==> threshold(n, None) == 1,
{
}

/// A configuration is taken if it has two to ten participants, a degree below their number, and
/// nobody dishonest beyond them; honest entries do not matter.
pub proof fn law_configuration_taken(
    n: int,
    degree: Option<usize>,
    malice: Map<usize, Malice>,
)
    ensures
        acceptable(n, degree, malice) <==> {
            &&& 2 <= n <= 10
            &&& degree is Some ==> degree->0 < n
            &&& forall|i: usize| #[trigger]
                malice.contains_key(i) && malice[i] != Malice::Honest ==> i < n
        },
        forall|i: usize| #[trigger]
            dishonest(malice).contains_key(i) <==> malice.contains_key(i) && malice[i]
                != Malice::Honest,
        forall|i: usize| #[trigger]
            dishonest(malice).contains_key(i) ==> dishonest(malice)[i] == malice[i],
{
    if acceptable(n, degree, malice) {
        assert forall|i: usize| #[trigger] malice.contains_key(i) && malice[i]
            != Malice::Honest implies i < n by {
            assert(dishonest(malice).contains_key(i));
        }
    }
    if forall|i: usize| #[trigger]
        malice.contains_key(i) && malice[i] != Malice::Honest ==> i < n {
        assert forall|i: usize| #[trigger] dishonest(malice).contains_key(i) implies i < n by {
            assert(malice.contains_key(i));
        }
    }
}

/// Why a configuration is refused: a wrong number of participants first, then a degree that is too
/// large, then the least dishonest participant out of range; the message gives the numbers.
pub proof fn law_configuration_refused(
    n: nat,
    degree: Option<usize>,
    malice: Map<usize, Malice>,
    why: Seq<char>,
    id: usize,
)
    requires
        refused(n as int, degree, malice, why),
    ensures
        n < 2 || n > 10 ==> why == "n must be between 2 and 10 (got "@ + decimal(n) + ")"@,
        2 <= n <= 10 && degree is Some && degree->0 >= n ==> why
            == "threshold/degree t must satisfy 1 <= t < n (got t="@ + decimal(degree->0 as nat)
            + ", n="@ + decimal(n) + ")"@,
        2 <= n <= 10 && (degree is Some ==> degree->0 < n) && malice.contains_key(id) && malice[id]
            != Malice::Honest && id >= n && (forall|i: usize| #[trigger]
            malice.contains_key(i) && malice[i] != Malice::Honest && i >= n ==> id <= i) ==> why
            == "malicious id "@ + decimal(id as nat) + " out of range [0,"@ + decimal(n) + ")"@,
{
    if 2 <= n <= 10 && (degree is Some ==> degree->0 < n) && malice.contains_key(id) && malice[id]
        != Malice::Honest && id >= n && (forall|i: usize| #[trigger]
        malice.contains_key(i) && malice[i] != Malice::Honest && i >= n ==> id <= i) {
        let x = choose|x: usize| #[trigger]
            least_stray(malice, n as int, x) && why == crate::sim::session::stray_text(
                x as int,
                n as int,
            );
        assert(dishonest(malice).contains_key(id));
        assert(dishonest(malice).contains_key(x));
        assert(malice.contains_key(x));
        assert(x == id);
    }
}

/// The threshold leaves the adversary bound where the faults that it allows, one fewer than the
/// threshold, are at least half of the participants.
pub proof fn law_bound(t: int, n: int)
    requires
        n >= 1,
        t >= 0,
    ensures
        exceeds_bound(t, n) <==> 2 * (t - 1) >= n,
        exceeds_bound(t, n) ==> exceeds_bound(t + 1, n),
{
}

/// The domain is the least power of two that holds everybody.
pub proof fn law_domain(n: int, m: int, k: nat)
    requires
        n >= 1,
        pads_to(n, m),
    ensures
        exists|q: nat| m == #[trigger] pow2(q),
        m >= n,
        pow2(k) >= n ==> m <= pow2(k),
{
    let q = choose|q: nat| m == #[trigger] pow2(q);
    if pow2(k) >= n && m > pow2(k) {
        vstd::arithmetic::power2::lemma_pow2_pos(k);
        if q <= k {
            if q < k {
                vstd::arithmetic::power2::lemma_pow2_strictly_increases(q, k);
            }
        } else {
            vstd::arithmetic::power2::lemma_pow2_unfold((k + 1) as nat);
            if k + 1 < q {
                vstd::arithmetic::power2::lemma_pow2_strictly_increases((k + 1) as nat, q);
            }
        }
    }
}

/// A participant without an entry is honest; the Pedersen layer is corrupted by those whose mode says
/// so.
pub proof fn law_conduct(malice: Map<usize, Malice>, i: usize)
    ensures
        malice.contains_key(i) ==> malice_at(malice, i) == malice[i],
        !malice.contains_key(i) ==> malice_at(malice, i) == Malice::Honest,
        corrupting(malice).contains(i) <==> malice_at(malice, i) == Malice::PedersenShare
            || malice_at(malice, i) == Malice::Both,
{
}

/// Who corrupts the layer for `z` publishes another commitment, and nobody else does; the rest of the
/// share stays. Who corrupts the Pedersen layer shifts the share of its victim by the offset drawn
/// for it.
pub proof fn law_tampering(
    malice: Map<usize, Malice>,
    i: usize,
    dealt: ZShare,
    drawn: Point<Bls12381>,
    offsets: Seq<Scalar<Bls12381>>,
)
    requires
        i < offsets.len(),
    ensures
        ({
            let m = malice_at(malice, i);
            let share = sent(m, dealt, drawn);
            &&& share.size == dealt.size
            &&& m == Malice::ZCommitment || m == Malice::Both ==> share.c_i == drawn
            &&& m == Malice::Honest || m == Malice::PedersenShare ==> share.c_i == dealt.c_i
            &&& m == Malice::PedersenShare || m == Malice::Both ==> shifts(
                malice,
                offsets,
            ).contains_key(i) && shifts(malice, offsets)[i] == offsets[i as int]
            &&& m == Malice::Honest || m == Malice::ZCommitment ==> !shifts(
                malice,
                offsets,
            ).contains_key(i)
        }),
{
}

/// A session waits for the shares at the start, then for their verification, and once the tree is
/// folded for the approvals if there is anything to approve; otherwise for nothing.
pub proof fn law_waits_for(s: DkgSession, i: usize)
    requires
        s.wf(),
    ensures
        s.awaits() == Pending::Shares <==> s.phase == Phase::Setup,
        s.awaits() == Pending::Verification <==> s.phase == Phase::Distribution,
        s.awaits() == Pending::Approvals ==> s.phase == Phase::ZAggregation && !s.z_done
            && s.z_levels_done == s.z_tree_plan.len(),
        s.phase == Phase::ZAggregation && !s.z_done && s.z_levels_done == s.z_tree_plan.len() && i
            < s.common.n && s.z_leaf_results@[i] ==> s.awaits() == Pending::Approvals,
        s.awaits() == Pending::Approvals ==> exists|j: usize|
            j < s.common.n && #[trigger] s.z_leaf_results@[j],
{
    if s.phase == Phase::ZAggregation {
        assert(s.qagg@.contains(i) <==> i < s.common.n && !s.z_leaf_results@[i]);
        if s.awaits() == Pending::Approvals {
            let j = choose|j: usize| j < s.common.n && !#[trigger] s.qagg@.contains(j);
            assert(s.z_leaf_results@[j]);
        }
    }
}

/// A session takes exactly what it waits for, with one entry for every participant.
pub proof fn law_takes(s: DkgSession, event: Event)
    ensures
        event matches Event::Dealt(v) ==> (s.fits(event) <==> s.awaits() == Pending::Shares && v.len()
            == s.common.n),
        event matches Event::Verified(v) ==> (s.fits(event) <==> s.awaits() == Pending::Verification
            && v.len() == s.common.n),
        event matches Event::Approved(v) ==> (s.fits(event) <==> s.awaits() == Pending::Approvals
            && v.len() == s.common.n),
        event is Continue ==> (s.fits(event) <==> s.awaits() == Pending::Nothing),
{
}

/// The phases follow each other in order, the aggregation being left only when all levels are folded
/// and the broadcast is over; a finished session stays as it is.
pub proof fn law_phases(s: DkgSession, event: Event, next: DkgSession)
    requires
        s.wf(),
        next.wf(),
        s.steps_to(event, next),
    ensures
        s.phase == Phase::Setup ==> next.phase == Phase::Distribution,
        s.phase == Phase::Distribution ==> next.phase == Phase::ZAggregation,
        s.phase == Phase::ZAggregation ==> next.phase == if s.z_done {
            Phase::Verification
        } else {
            Phase::ZAggregation
        },
        s.phase == Phase::Verification ==> next.phase == Phase::Complaints,
        s.phase == Phase::Complaints ==> next.phase == Phase::KeyGeneration,
        s.phase == Phase::KeyGeneration ==> next.phase == Phase::Done,
        s.phase == Phase::Done ==> next == s,
{
}

/// A step never rewrites what is past: the configuration stays, the log only grows, what the dealers
/// published and their secrets stay once they have dealt, and so do the answers of the layer for `z`
/// once they are there.
pub proof fn law_past_is_kept(s: DkgSession, event: Event, next: DkgSession, k: int)
    requires
        s.wf(),
        next.wf(),
        s.steps_to(event, next),
    ensures
        next.common == s.common,
        s.log.len() <= next.log.len(),
        s.phase != Phase::Done ==> s.log.len() < next.log.len(),
        0 <= k < s.log.len() ==> next.log[k]@ == s.log[k]@,
        s.phase != Phase::Setup ==> next.published == s.published && next.z_secrets == s.z_secrets,
        s.phase != Phase::Setup && s.phase != Phase::Distribution ==> next.z_leaf_results
            == s.z_leaf_results && next.qagg@ == s.qagg@,
        s.z_approvals is Some ==> next.z_approvals == s.z_approvals,
{
    let (log, log2) = (views(s.log@), views(next.log@));
    assert(log.len() == s.log.len() && log2.len() == next.log.len());
    assert(log.len() <= log2.len() && (0 <= k < log.len() ==> log2[k] == log[k])) by {
        law_root(s.common.n as int);
    }
    if 0 <= k < s.log.len() {
        assert(log2[k] == next.log[k]@);
        assert(log[k] == s.log[k]@);
    }
    if s.phase != Phase::Setup && s.phase != Phase::Distribution && s.phase != Phase::Done {
        assert forall|i: usize| #[trigger] next.qagg@.contains(i) <==> s.qagg@.contains(i) by {
            assert(s.qagg@.contains(i) <==> i < s.common.n && !s.z_leaf_results@[i]);
            assert(next.qagg@.contains(i) <==> i < s.common.n && !next.z_leaf_results@[i]);
        }
        assert(next.qagg@ =~= s.qagg@);
    }
}

/// In the distribution every dealer publishes the share of `z` that was dealt for it, with its size and,
/// unless the dealer corrupts it, its commitment; keeps the secret that was dealt with it; and shows
/// that secret in its contribution to the key.
pub proof fn law_distribution(s: DkgSession, event: Event, next: DkgSession, i: usize)
    requires
        s.wf(),
        next.wf(),
        s.phase == Phase::Setup,
        s.steps_to(event, next),
        i < s.common.n,
    ensures
        event is Dealt,
        ({
            let z = event->Dealt_0[i as int];
            let (c, m) = (next.published.contributions@[i], malice_at(s.common.malice@, i));
            &&& next.z_secrets[i as int] == z.z_i
            &&& c.dkg_share.size == z.dkg_share.size
            &&& m == Malice::Honest || m == Malice::PedersenShare ==> c.dkg_share.c_i
                == z.dkg_share.c_i
            &&& c.c3_i@ == (s.common.suite.generators.g1@ * z.z_i@) % Bls12381::order()
        }),
{
    let z = event->Dealt_0;
    let tampering = choose|tampering: Tampering| #[trigger] next.distributed(z@, tampering);
    assert(next.published_as(z@, tampering.points@, i));
    assert(next.published.contributions@[i].c3_i@ == (next.common.suite.generators.g1@
        * next.z_secrets[i as int]@) % Bls12381::order());
}

/// A dealer that does not corrupt the Pedersen layer deals every share as its polynomials give it, and
/// one that does all but the share of its victim, the next participant.
pub proof fn law_honest_shares(s: DkgSession, i: usize, j: int)
    requires
        s.wf(),
        s.phase != Phase::Setup,
        i < s.common.n,
        0 <= j < s.common.n,
        malice_at(s.common.malice@, i) == Malice::Honest || malice_at(s.common.malice@, i)
            == Malice::ZCommitment || !(j == i + 1 || (i == s.common.n - 1 && j == 0)),
    ensures
        ({
            let d = s.published.dealings[i as int];
            let (share, m) = (d.distribution.shares[j], Bls12381::order());
            &&& share.sf@ == poly(d.secrets.f.coefficients(), j + 1) % m
            &&& share.sf_prime@ == poly(d.secrets.f_prime.coefficients(), j + 1) % m
            &&& share.sg@ == poly(d.secrets.g.coefficients(), j + 1) % m
            &&& share.sg_prime@ == poly(d.secrets.g_prime.coefficients(), j + 1) % m
        }),
{
    let n = s.common.n as int;
    crate::laws::rounds::law_victims(i as int, i as int, n);
    assert(s.published.dealings[i as int].honest_to(j));
}

/// The layer for `z` rejects those dealers whose shares it did not verify, and no others.
pub proof fn law_rejected(s: DkgSession, event: Event, next: DkgSession, i: usize)
    requires
        s.wf(),
        next.wf(),
        s.phase == Phase::Distribution,
        s.steps_to(event, next),
        i < s.common.n,
    ensures
        event is Verified,
        next.qagg@.contains(i) <==> !event->Verified_0[i as int],
{
    assert(next.z_leaf_results@[i] == event->Verified_0[i as int]);
    assert(next.qagg@.contains(i) <==> i < next.common.n && !next.z_leaf_results@[i]);
}

/// Each step of the aggregation folds one level, and the approvals are those that came.
pub proof fn law_aggregation_steps(s: DkgSession, event: Event, next: DkgSession)
    requires
        s.wf(),
        next.wf(),
        s.phase == Phase::ZAggregation,
        s.fits(event),
        s.steps_to(event, next),
    ensures
        s.z_levels_done < s.z_tree_plan.len() ==> next.z_levels_done == s.z_levels_done + 1
            && !next.z_done,
        s.z_levels_done == s.z_tree_plan.len() && !s.z_done ==> next.z_done,
        event matches Event::Approved(v) ==> next.z_approvals == Some(v),
        s.z_levels_done == s.z_tree_plan.len() && !s.z_done && event is Continue
            ==> next.z_approvals is None && forall|i: usize|
            i < s.common.n ==> !#[trigger] s.z_leaf_results@[i],
{
    if s.z_levels_done == s.z_tree_plan.len() && !s.z_done && event is Continue {
        assert forall|i: usize| i < s.common.n implies !#[trigger] s.z_leaf_results@[i] by {
            assert(s.qagg@.contains(i) <==> i < s.common.n && !s.z_leaf_results@[i]);
        }
    }
}

} // verus!
