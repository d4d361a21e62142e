//! The session: its state, what may happen to it, and its steps.
//!
//! The layer for `z` is not part of it. A session tells what it waits for, and is handed what that
//! layer returned: the shares it dealt, which of them verified, and who approved the folded
//! transcript.
use crate::bls::Bls12381;
use crate::collections::{ascending, first_out_of_range, keys_ascending, lemma_take_set, listed};
use crate::curve::{Curve, Point, Scalar};
use crate::dkg::accusations::{
    accused, complainers, failing_dealers, failing_receivers, failures, lemma_failures, one_each,
};
use crate::dkg::complaint::{pairs, Complaint, ComplaintOutcome, DisqualificationReason};
use crate::dkg::dmkg::{aggregated, PublicKey, ZDealing};
use crate::dkg::errors::VssError;
use crate::dkg::params::{
    bound_exceeded, exceeds_bound, neutral_count, next_power_of_two, pads_to,
};
use crate::dkg::published::{
    law_rejected_never_qualifies, law_tampering_detected, law_uncorrupted_is_sound,
    lemma_honest_but, victim_of, victims, Published,
};
use crate::dkg::round::{
    complaints_of, file_complaints, law_honest_is_sound, soundness, unsound_dealers,
    unsound_receivers,
};
use crate::dkg::suite::Suite;
use crate::dkg::tampering::telling;
use crate::parse::views;
use crate::sim::lines::{
    approval_line, approval_text, bound_line, bound_text, broadcast_line, broadcast_text,
    complaint_line, complaint_text, dealt_line, dealt_text, disqualified_line, disqualified_text,
    group_line, group_text, leaf_line, leaf_text, level_line, level_text, malice_desc, malice_text,
    qagg_line, qagg_text, qual_line, qual_text, reconstruction_line, reconstruction_text,
    setup_line, setup_text,
};
use crate::sim::malice::Malice;
use crate::sim::phase::Phase;
use crate::sim::tree::{build_z_tree_plan, height, is_plan, law_root, z_root, ZTreePlanNode};
use crate::text::{dec, decimal};
use rand_chacha::ChaCha20Rng;
use std::collections::{BTreeMap, BTreeSet};
use vstd::prelude::*;

verus! {

broadcast use {vstd::laws_cmp::group_laws_cmp, vstd::std_specs::btree::group_btree_axioms};

/// What the layer for `z` set up, as encodings: its reference, and each participant's signature keys,
/// secret and public.
pub struct ZSetup {
    pub g_g1: Vec<u8>,
    pub h_g2: Vec<u8>,
    pub u_1: Vec<u8>,
    pub keys: Vec<(Vec<u8>, Vec<u8>)>,
}

/// A published share of the layer for `z`: the commitment to the secret, and the size of the whole in
/// bytes.
pub struct ZShare {
    pub c_i: Point<Bls12381>,
    pub size: u32,
}

/// What a session waits for.
#[derive(Clone, Copy, Debug, PartialEq, Eq, Structural)]
pub enum Pending {
    /// The shares of the layer for `z`, one per participant.
    Shares,
    /// Whether each participant's published share verifies.
    Verification,
    /// Each participant's approval of the folded transcript.
    Approvals,
    /// Nothing.
    Nothing,
}

/// What happened outside of the session.
pub enum Event {
    /// The layer for `z` dealt, for each participant.
    Dealt(Vec<ZDealing<Bls12381, ZShare>>),
    /// It verified the published shares, or rejected them.
    Verified(Vec<bool>),
    /// Each participant approved the folded transcript and holds the given secret, as an encoding, or
    /// rejected it.
    Approved(Vec<Option<Vec<u8>>>),
    /// Nothing.
    Continue,
}

/// What does not change during a session.
pub struct Common {
    pub n: usize,
    pub degree: usize,
    /// The dishonest participants.
    pub malice: BTreeMap<usize, Malice>,
    /// The size of the evaluation domain of the layer for `z`.
    pub domain_size: usize,
    pub suite: Suite<Bls12381>,
    pub setup: ZSetup,
}

/// How participant `i` behaves.
pub open spec fn malice_at(malice: Map<usize, Malice>, i: usize) -> Malice {
    if malice.contains_key(i) {
        malice[i]
    } else {
        Malice::Honest
    }
}

/// The participants that corrupt the Pedersen layer.
pub open spec fn corrupting(malice: Map<usize, Malice>) -> Set<usize> {
    malice.dom().filter(
        |i: usize| malice[i] == Malice::PedersenShare || malice[i] == Malice::Both,
    )
}

/// What participants tamper with where they are dishonest, one entry per participant: the point that
/// replaces the commitment to `z`, and the offset by which the share of the victim is shifted.
pub struct Tampering {
    pub points: Vec<Point<Bls12381>>,
    pub offsets: Vec<Scalar<Bls12381>>,
}

impl Tampering {
    /// There is an entry for each of `n` participants.
    pub open spec fn fits(self, n: int) -> bool {
        &&& self.points.len() == n
        &&& self.offsets.len() == n
    }

    /// Draws the entries at random.
    pub fn draw(n: usize, rng: &mut ChaCha20Rng) -> (r: Self)
        ensures
            r.fits(n as int),
    {
        let mut points: Vec<Point<Bls12381>> = Vec::new();
        let mut offsets: Vec<Scalar<Bls12381>> = Vec::new();
        for i in 0..n
            invariant
                points.len() == i,
                offsets.len() == i,
        {
            points.push(Point::random(rng));
            offsets.push(Scalar::random(rng));
        }
        Tampering { points, offsets }
    }
}

/// The offsets of the participants that corrupt the Pedersen layer.
pub open spec fn shifts(malice: Map<usize, Malice>, offsets: Seq<Scalar<Bls12381>>) -> Map<
    usize,
    Scalar<Bls12381>,
> {
    Map::new(
        |i: usize| corrupting(malice).contains(i) && i < offsets.len(),
        |i: usize| offsets[i as int],
    )
}

/// The share of the layer for `z` that a participant publishes: the one dealt, with the commitment
/// replaced by the drawn point where it corrupts that layer.
pub open spec fn sent(malice: Malice, dealt: ZShare, drawn: Point<Bls12381>) -> ZShare {
    ZShare {
        c_i: if malice == Malice::ZCommitment || malice == Malice::Both {
            drawn
        } else {
            dealt.c_i
        },
        size: dealt.size,
    }
}

/// The share that a participant publishes.
pub fn sent_share(malice: Malice, dealt: ZShare, drawn: Point<Bls12381>) -> (r: ZShare)
    ensures
        r == sent(malice, dealt, drawn),
{
    if malice.corrupt_z() {
        ZShare { c_i: drawn, size: dealt.size }
    } else {
        dealt
    }
}

impl Common {
    pub open spec fn wf(self) -> bool {
        &&& 2 <= self.n <= 10
        &&& 1 <= self.degree < self.n
        &&& forall|i: usize| #[trigger]
            self.malice@.contains_key(i) ==> i < self.n && self.malice@[i] != Malice::Honest
        &&& pads_to(self.n as int, self.domain_size as int)
        &&& self.suite.ready(self.n as int)
        &&& self.suite.hashed()
        &&& self.setup.keys.len() == self.n
    }

    /// How participant `i` behaves.
    pub fn malice_of(&self, i: usize) -> (r: Malice)
        ensures
            r == malice_at(self.malice@, i),
    {
        match self.malice.get(&i) {
            Some(m) => *m,
            None => Malice::Honest,
        }
    }
}

/// A session.
pub struct DkgSession {
    pub common: Common,
    pub phase: Phase,
    pub log: Vec<String>,
    /// What the dealers published, and the sharings behind it.
    pub published: Published<Bls12381, ZShare>,
    /// The dealers' secrets of the layer for `z`.
    pub z_secrets: Vec<Scalar<Bls12381>>,
    /// Whether each dealer's share of `z` verified.
    pub z_leaf_results: BTreeMap<usize, bool>,
    /// The dealers that the layer for `z` rejected.
    pub qagg: BTreeSet<usize>,
    /// The tree of the aggregation, by levels from the leaves.
    pub z_tree_plan: Vec<Vec<ZTreePlanNode>>,
    /// How many levels of it are folded.
    pub z_levels_done: usize,
    /// Whether the last step of the layer for `z` is done, with a transcript to broadcast or without.
    pub z_done: bool,
    /// Whether the root has broadcast the folded transcript, for the participants to approve.
    pub z_transcript_broadcast: bool,
    /// The participants' secrets from the transcript, for those who approved it.
    pub z_approvals: Option<Vec<Option<Vec<u8>>>>,
    pub complaints: Vec<Complaint>,
    pub qual: BTreeSet<usize>,
    pub disqualified: BTreeMap<usize, DisqualificationReason>,
    pub pk: Option<PublicKey<Bls12381>>,
    pub reconstructed_ok: Option<bool>,
}

/// The configuration that a request asks for: the threshold, by default half of `n` and at least one.
pub open spec fn threshold(n: int, degree: Option<usize>) -> int {
    let t = match degree {
        Some(d) => d as int,
        None => n / 2,
    };
    if t >= 1 {
        t
    } else {
        1
    }
}

/// The dishonest entries.
pub open spec fn dishonest(malice: Map<usize, Malice>) -> Map<usize, Malice> {
    malice.restrict(malice.dom().filter(|i: usize| malice[i] != Malice::Honest))
}

/// `id` is the least id of a dishonest participant that is out of range.
pub open spec fn least_stray(malice: Map<usize, Malice>, n: int, id: usize) -> bool {
    &&& dishonest(malice).contains_key(id)
    &&& id >= n
    &&& forall|i: usize| #[trigger] dishonest(malice).contains_key(i) && i >= n ==> id <= i
}

pub open spec fn size_text(n: int) -> Seq<char> {
    "n must be between 2 and 10 (got "@ + decimal(n as nat) + ")"@
}

pub open spec fn threshold_text(t: int, n: int) -> Seq<char> {
    "threshold/degree t must satisfy 1 <= t < n (got t="@ + decimal(t as nat) + ", n="@ + decimal(
        n as nat,
    ) + ")"@
}

pub open spec fn stray_text(id: int, n: int) -> Seq<char> {
    "malicious id "@ + decimal(id as nat) + " out of range [0,"@ + decimal(n as nat) + ")"@
}

/// Why a configuration is refused: the number of participants, else the threshold, else a dishonest
/// participant out of range.
pub open spec fn refused(
    n: int,
    degree: Option<usize>,
    malice: Map<usize, Malice>,
    why: Seq<char>,
) -> bool {
    if !(2 <= n <= 10) {
        why == size_text(n)
    } else if threshold(n, degree) >= n {
        why == threshold_text(threshold(n, degree), n)
    } else {
        exists|id: usize| #[trigger]
            least_stray(malice, n, id) && why == stray_text(id as int, n)
    }
}

/// The configuration is one that a session can have.
pub open spec fn acceptable(n: int, degree: Option<usize>, malice: Map<usize, Malice>) -> bool {
    &&& 2 <= n <= 10
    &&& threshold(n, degree) < n
    &&& forall|i: usize| #[trigger] dishonest(malice).contains_key(i) ==> i < n
}

fn size_error(n: usize) -> (r: String)
    ensures
        r@ == size_text(n as int),
{
    let mut r = "n must be between 2 and 10 (got ".to_owned();
    r.append(dec(n).as_str());
    r.append(")");
    r
}

fn threshold_error(t: usize, n: usize) -> (r: String)
    ensures
        r@ == threshold_text(t as int, n as int),
{
    let mut r = "threshold/degree t must satisfy 1 <= t < n (got t=".to_owned();
    r.append(dec(t).as_str());
    r.append(", n=");
    r.append(dec(n).as_str());
    r.append(")");
    r
}

fn stray_error(id: usize, n: usize) -> (r: String)
    ensures
        r@ == stray_text(id as int, n as int),
{
    let mut r = "malicious id ".to_owned();
    r.append(dec(id).as_str());
    r.append(" out of range [0,");
    r.append(dec(n).as_str());
    r.append(")");
    r
}

/// The entries of dishonest participants.
fn drop_honest(malice: &BTreeMap<usize, Malice>) -> (r: BTreeMap<usize, Malice>)
    ensures
        r@ == dishonest(malice@),
{
    let ids = keys_ascending(malice);
    let mut r: BTreeMap<usize, Malice> = BTreeMap::new();
    for k in 0..ids.len()
        invariant
            ids@.to_set() == malice@.dom(),
            forall|i: usize| #[trigger]
                r@.contains_key(i) <==> ids@.take(k as int).to_set().contains(i) && malice@[i]
                    != Malice::Honest,
            forall|i: usize| #[trigger] r@.contains_key(i) ==> r@[i] == malice@[i],
    {
        proof {
            lemma_take_set(ids@, k as int);
            assert(ids@.to_set().contains(ids@[k as int]));
        }
        match malice.get(&ids[k]) {
            Some(m) => {
                if m.is_malicious() {
                    r.insert(ids[k], *m);
                }
            },
            None => {},
        }
    }
    proof {
        assert(ids@.take(ids.len() as int) =~= ids@);
        assert(r@ =~= dishonest(malice@));
    }
    r
}

/// Checks a configuration; gives the threshold and the dishonest participants.
pub fn check_config(n: usize, degree: Option<usize>, malice: &BTreeMap<usize, Malice>) -> (r: Result<
    (usize, BTreeMap<usize, Malice>),
    String,
>)
    ensures
        match r {
            Ok((t, kept)) => {
                &&& acceptable(n as int, degree, malice@)
                &&& t == threshold(n as int, degree)
                &&& kept@ == dishonest(malice@)
            },
            Err(why) => refused(n as int, degree, malice@, why@) && !acceptable(
                n as int,
                degree,
                malice@,
            ),
        },
{
    if !(2 <= n && n <= 10) {
        return Err(size_error(n));
    }
    let asked: usize = match degree {
        Some(d) => d,
        None => n / 2,
    };
    let t: usize = if asked >= 1 {
        asked
    } else {
        1
    };
    if t >= n {
        return Err(threshold_error(t, n));
    }
    let kept = drop_honest(malice);
    if let Some(bad) = first_out_of_range(&kept, n) {
        assert(least_stray(malice@, n as int, bad));
        return Err(stray_error(bad, n));
    }
    Ok((t, kept))
}

/// The first lines of the log.
pub open spec fn setup_lines(n: int, t: int, malice: Map<usize, Malice>) -> Seq<Seq<char>> {
    let first = setup_text(n, t, malice_text(listed(malice.dom()), malice));
    if exceeds_bound(t, n) {
        seq![first, bound_text(n, t)]
    } else {
        seq![first]
    }
}

fn note(log: &mut Vec<String>, line: String)
    ensures
        views(final(log)@) == views(old(log)@).push(line@),
{
    let ghost before = log@;
    log.push(line);
    assert(views(log@) =~= views(before).push(line@));
}

impl DkgSession {
    /// The phases up to the current one are done as they are to be. From the distribution on the
    /// dealings are valid, and honest but for the corrupt; from the aggregation on the tree and the
    /// rejected dealers are there; from the verification on the complaints are those over shares
    /// that do not check; from the complaints on the accepted dealers all of whose shares check
    /// qualify; from the key generation on the key is the sum over these and reconstructs.
    pub open spec fn wf(self) -> bool {
        &&& self.common.wf()
        &&& self.wf_dealt()
        &&& self.wf_tree()
        &&& self.wf_verdicts()
        &&& self.wf_key()
    }

    pub open spec fn wf_dealt(self) -> bool {
        let (n, m) = (self.common.n, Bls12381::order());
        if self.phase == Phase::Setup {
            &&& self.published.contributions@.dom() == Set::<usize>::empty()
            &&& self.published.dealings.len() == 0
            &&& self.z_secrets.len() == 0
        } else {
            &&& self.published.valid(self.common.suite, self.common.degree as int)
            &&& self.published.honest_but(corrupting(self.common.malice@), n as int)
            &&& self.z_secrets.len() == n
            &&& forall|i: usize|
                i < n ==> (#[trigger] self.published.contributions@[i]).c3_i@ == (
                self.common.suite.generators.g1@ * self.z_secrets[i as int]@) % m
        }
    }

    pub open spec fn wf_tree(self) -> bool {
        let n = self.common.n;
        if self.phase.rank() < Phase::ZAggregation.rank() {
            &&& self.z_tree_plan.len() == 0
            &&& self.z_levels_done == 0
            &&& self.z_leaf_results@.dom() == Set::<usize>::empty()
            &&& self.qagg@ == Set::<usize>::empty()
            &&& !self.z_done
            &&& !self.z_transcript_broadcast
            &&& self.z_approvals is None
        } else {
            &&& is_plan(self.z_tree_plan@, n as int)
            &&& 1 <= self.z_levels_done <= height(n as int)
            &&& forall|i: usize| #[trigger] self.z_leaf_results@.contains_key(i) <==> i < n
            &&& forall|i: usize| #[trigger]
                self.qagg@.contains(i) <==> i < n && !self.z_leaf_results@[i]
            &&& self.z_done ==> self.z_levels_done == height(n as int)
            &&& self.z_transcript_broadcast == self.z_approvals is Some
            &&& self.z_approvals matches Some(v) ==> self.z_done && v.len() == n
            &&& self.phase.rank() >= Phase::Verification.rank() ==> self.z_done
        }
    }

    pub open spec fn wf_verdicts(self) -> bool {
        let suite = self.common.suite;
        &&& self.complaints@ == if self.phase.rank() >= Phase::Verification.rank() {
            complaints_of(self.published.dealings@, suite.generators)
        } else {
            Seq::empty()
        }
        &&& if self.phase.rank() >= Phase::Complaints.rank() {
            self.published.resolved(
                suite,
                self.common.degree,
                self.qagg@,
                (ComplaintOutcome { qual: self.qual, disqualified: self.disqualified }),
            )
        } else {
            &&& self.qual@ == Set::<usize>::empty()
            &&& self.disqualified@.dom() == Set::<usize>::empty()
        }
    }

    pub open spec fn wf_key(self) -> bool {
        if self.phase.rank() >= Phase::KeyGeneration.rank() && self.qual@.len() > 0 {
            &&& self.pk matches Some(pk) && aggregated(
                pk,
                self.published.contributions@,
                self.qual@,
            )
            &&& self.reconstructed_ok == Some(true)
        } else {
            &&& self.pk is None
            &&& self.reconstructed_ok is None
        }
    }

    /// A session in its first phase.
    pub fn new(
        n: usize,
        degree: Option<usize>,
        malice: BTreeMap<usize, Malice>,
        setup: ZSetup,
        rng: &mut ChaCha20Rng,
    ) -> (r: Result<Self, String>)
        requires
            acceptable(n as int, degree, malice@) ==> setup.keys.len() == n,
        ensures
            match r {
                Ok(s) => {
                    &&& acceptable(n as int, degree, malice@)
                    &&& s.wf()
                    &&& s.phase == Phase::Setup
                    &&& s.common.n == n
                    &&& s.common.degree == threshold(n as int, degree)
                    &&& s.common.malice@ == dishonest(malice@)
                    &&& s.common.setup == setup
                    &&& views(s.log@) == setup_lines(
                        n as int,
                        threshold(n as int, degree),
                        dishonest(malice@),
                    )
                },
                Err(why) => refused(n as int, degree, malice@, why@) && !acceptable(
                    n as int,
                    degree,
                    malice@,
                ),
            },
    {
        let (t, kept) = check_config(n, degree, &malice)?;
        let mut suite: Suite<Bls12381> = match Suite::setup() {
            Ok(s) => s,
            Err(_) => {
                assert(false);
                return Err(String::new());
            },
        };
        for i in 0..n
            invariant
                suite.ready(i as int),
                suite.hashed(),
        {
            suite.enrol(rng);
        }
        let domain_size = next_power_of_two(n);
        let ids = keys_ascending(&kept);
        assert forall|k: int| 0 <= k < ids.len() implies kept@.contains_key(#[trigger] ids[k]) by {
            assert(ids@.to_set().contains(ids@[k]));
        }
        let desc = malice_desc(&ids, &kept);
        let mut log: Vec<String> = Vec::new();
        note(&mut log, setup_line(n, t, desc.as_str()));
        if bound_exceeded(t, n) {
            note(&mut log, bound_line(n, t));
        }
        assert(views(log@) =~= setup_lines(n as int, t as int, kept@));
        let s = DkgSession {
            common: Common { n, degree: t, malice: kept, domain_size, suite, setup },
            phase: Phase::Setup,
            log,
            published: Published::nothing(),
            z_secrets: Vec::new(),
            z_leaf_results: BTreeMap::new(),
            qagg: BTreeSet::new(),
            z_tree_plan: Vec::new(),
            z_levels_done: 0,
            z_done: false,
            z_transcript_broadcast: false,
            z_approvals: None,
            complaints: Vec::new(),
            qual: BTreeSet::new(),
            disqualified: BTreeMap::new(),
            pk: None,
            reconstructed_ok: None,
        };
        Ok(s)
    }

    /// What the session waits for. The transcript is there to be approved once all levels are folded,
    /// unless every dealer was rejected.
    pub open spec fn awaits(self) -> Pending {
        match self.phase {
            Phase::Setup => Pending::Shares,
            Phase::Distribution => Pending::Verification,
            Phase::ZAggregation => if self.z_levels_done == height(self.common.n as int)
                && !self.z_done && self.some_accepted() {
                Pending::Approvals
            } else {
                Pending::Nothing
            },
            _ => Pending::Nothing,
        }
    }

    /// Some dealer's share of `z` verified.
    pub open spec fn some_accepted(self) -> bool {
        exists|i: usize| i < self.common.n && !#[trigger] self.qagg@.contains(i)
    }

    fn has_accepted(&self) -> (r: bool)
        ensures
            r == self.some_accepted(),
    {
        for i in 0..self.common.n
            invariant
                forall|k: usize| k < i ==> #[trigger] self.qagg@.contains(k),
        {
            if !self.qagg.contains(&i) {
                return true;
            }
        }
        false
    }

    /// Tells what the session waits for.
    pub fn pending(&self) -> (r: Pending)
        requires
            self.wf(),
        ensures
            r == self.awaits(),
    {
        match self.phase {
            Phase::Setup => Pending::Shares,
            Phase::Distribution => Pending::Verification,
            Phase::ZAggregation => if self.z_levels_done == self.z_tree_plan.len()
                && !self.z_done && self.has_accepted() {
                Pending::Approvals
            } else {
                Pending::Nothing
            },
            _ => Pending::Nothing,
        }
    }

    /// The event is what the session waits for, one entry per participant.
    pub open spec fn fits(self, event: Event) -> bool {
        match (self.awaits(), event) {
            (Pending::Shares, Event::Dealt(v)) => v.len() == self.common.n,
            (Pending::Verification, Event::Verified(v)) => v.len() == self.common.n,
            (Pending::Approvals, Event::Approved(v)) => v.len() == self.common.n,
            (Pending::Nothing, Event::Continue) => true,
            _ => false,
        }
    }

    /// What a step leaves alone after the distribution.
    pub open spec fn keeps(self, before: Self) -> bool {
        &&& self.common == before.common
        &&& self.published == before.published
        &&& self.z_secrets == before.z_secrets
    }

    /// The lines of the distribution.
    pub open spec fn distribution_lines(self) -> Seq<Seq<char>> {
        let n = self.common.n as int;
        Seq::new(
            n as nat,
            |i: int|
                dealt_text(
                    i,
                    malice_at(self.common.malice@, i as usize),
                    (i + 1) % n + 1,
                    self.common.degree + 1,
                    n,
                ),
        )
    }

    /// The published share of dealer `i` is the one that the layer for `z` dealt, with the drawn point
    /// for a commitment where the dealer corrupts it.
    pub open spec fn published_as(
        self,
        z: Seq<ZDealing<Bls12381, ZShare>>,
        points: Seq<Point<Bls12381>>,
        i: usize,
    ) -> bool {
        &&& self.published.contributions@[i].dkg_share == sent(
            malice_at(self.common.malice@, i),
            z[i as int].dkg_share,
            points[i as int],
        )
        &&& self.z_secrets[i as int] == z[i as int].z_i
    }

    /// The dealers that corrupt the Pedersen layer shift the shares of their victims by these
    /// offsets, and no other share is off.
    pub open spec fn tampered_with(self, offsets: Seq<Scalar<Bls12381>>) -> bool {
        self.published.tampered(shifts(self.common.malice@, offsets), self.common.n as int)
    }

    /// The dealers published what the layer for `z` dealt and their Pedersen shares, tampering with
    /// the given entries where they are dishonest.
    pub open spec fn distributed(
        self,
        z: Seq<ZDealing<Bls12381, ZShare>>,
        tampering: Tampering,
    ) -> bool {
        &&& tampering.fits(self.common.n as int)
        &&& self.tampered_with(tampering.offsets@)
        &&& forall|i: usize|
            i < self.common.n ==> #[trigger] self.published_as(z, tampering.points@, i)
    }

    /// Distribution: the dealers publish the shares of `z`, tampered with by those who corrupt that
    /// layer, and deal and encrypt their Pedersen shares.
    pub fn do_distribution(
        &mut self,
        z: Vec<ZDealing<Bls12381, ZShare>>,
        tampering: Tampering,
        rng: &mut ChaCha20Rng,
    ) -> (r: Result<(), VssError>)
        requires
            old(self).wf(),
            old(self).phase == Phase::Setup,
            z.len() == old(self).common.n,
            tampering.fits(z.len() as int),
        ensures
            r is Ok,
            final(self).wf(),
            final(self).phase == Phase::Distribution,
            final(self).common == old(self).common,
            views(final(self).log@) == views(old(self).log@) + old(self).distribution_lines(),
            final(self).distributed(z@, tampering),
    {
        let n = self.common.n;
        let ghost given = z@;
        let mut rest = z;
        let mut out: Vec<ZDealing<Bls12381, ZShare>> = Vec::new();
        let mut secrets: Vec<Scalar<Bls12381>> = Vec::new();
        let mut offsets: BTreeMap<usize, Scalar<Bls12381>> = BTreeMap::new();
        let ghost lines = self.distribution_lines();
        let ghost before = views(self.log@);
        let ghost malice = self.common.malice@;
        for i in 0..n
            invariant
                n == self.common.n,
                self.common == old(self).common,
                self.common.wf(),
                self.phase == Phase::Setup,
                self.wf(),
                malice == self.common.malice@,
                given.len() == n,
                tampering.fits(n as int),
                rest@ == given.skip(i as int),
                out.len() == i,
                secrets.len() == i,
                lines == old(self).distribution_lines(),
                lines == self.distribution_lines(),
                views(self.log@) == before + lines.take(i as int),
                forall|k: int|
                    0 <= k < i ==> {
                        &&& (#[trigger] out[k]).z_i == given[k].z_i
                        &&& out[k].dkg_share == sent(
                            malice_at(malice, k as usize),
                            given[k].dkg_share,
                            tampering.points[k],
                        )
                    },
                forall|k: int| 0 <= k < i ==> #[trigger] secrets[k] == given[k].z_i,
                forall|d: usize| #[trigger]
                    offsets@.contains_key(d) <==> d < i && corrupting(malice).contains(d),
                forall|d: usize| #[trigger]
                    offsets@.contains_key(d) ==> offsets@[d] == tampering.offsets[d as int],
        {
            assert(rest@[0] == given[i as int]);
            let ZDealing { z_i, dkg_share } = rest.remove(0);
            assert(rest@ =~= given.skip(i + 1));
            let behaviour = self.common.malice_of(i);
            let victim = (i + 1) % n;
            let share = sent_share(behaviour, dkg_share, tampering.points[i]);
            if behaviour.corrupt_pedersen() {
                offsets.insert(i, tampering.offsets[i]);
            }
            let ghost (o, z) = (out@, secrets@);
            out.push(ZDealing { z_i, dkg_share: share });
            secrets.push(z_i);
            assert forall|k: int| 0 <= k <= i implies {
                &&& (#[trigger] out[k]).z_i == given[k].z_i
                &&& out[k].dkg_share == sent(
                    malice_at(malice, k as usize),
                    given[k].dkg_share,
                    tampering.points[k],
                )
            } by {
                if k < i {
                    assert(out[k] == o[k]);
                }
            }
            assert forall|k: int| 0 <= k <= i implies #[trigger] secrets[k] == given[k].z_i by {
                if k < i {
                    assert(secrets[k] == z[k]);
                }
            }
            let line = dealt_line(i, behaviour, victim + 1, self.common.degree + 1, n);
            note(&mut self.log, line);
            assert(lines.take(i + 1) =~= lines.take(i as int).push(lines[i as int]));
            assert(views(self.log@) =~= before + lines.take(i + 1));
        }
        assert(lines.take(n as int) =~= lines);
        let ghost dealt = out@;
        proof {
            assert forall|d: usize| #[trigger] offsets@.contains_key(d) == shifts(
                malice,
                tampering.offsets@,
            ).contains_key(d) by {
            }
            assert(offsets@ =~= shifts(malice, tampering.offsets@));
            assert(offsets@.dom() =~= corrupting(malice));
        }
        let published = Published::publish(
            &self.common.suite,
            self.common.degree,
            out,
            &offsets,
            rng,
        )?;
        proof {
            lemma_honest_but(
                published,
                self.common.suite,
                self.common.degree as int,
                offsets@,
            );
            assert forall|i: usize| i < n implies
                (#[trigger] published.contributions@[i]).c3_i@ == (
            self.common.suite.generators.g1@ * secrets[i as int]@) % Bls12381::order() by {
                assert(published.carries(self.common.suite, dealt, i));
                assert(dealt[i as int].z_i == given[i as int].z_i);
                assert(secrets[i as int] == given[i as int].z_i);
            }
        }
        self.published = published;
        self.z_secrets = secrets;
        self.phase = Phase::Distribution;
        proof {
            assert forall|i: usize| i < n implies #[trigger] self.published_as(
                given,
                tampering.points@,
                i,
            ) by {
                assert(published.carries(self.common.suite, dealt, i));
                assert(dealt[i as int].z_i == given[i as int].z_i);
                assert(secrets[i as int] == given[i as int].z_i);
            }
        }
        Ok(())
    }

    /// The lines of the verification of shares of `z`.
    pub open spec fn leaf_lines(n: int, ok: Seq<bool>, qagg: Set<usize>) -> Seq<Seq<char>> {
        seq!["z-Aggregation [level 0 - leaf verification]:"@] + Seq::new(
            n as nat,
            |i: int| leaf_text(i, ok[i]),
        ) + seq![qagg_text(listed(qagg))]
    }

    /// The first level of the aggregation: the dealers whose share of `z` does not verify are
    /// rejected, and the tree is laid out.
    fn do_z_tree_init(&mut self, ok: Vec<bool>)
        requires
            old(self).wf(),
            old(self).phase == Phase::Distribution,
            ok.len() == old(self).common.n,
        ensures
            final(self).wf(),
            final(self).phase == Phase::ZAggregation,
            final(self).keeps(*old(self)),
            final(self).z_levels_done == 1,
            !final(self).z_done,
            final(self).z_approvals is None,
            forall|i: usize| i < ok.len() ==> #[trigger] final(self).z_leaf_results@[i] == ok[i as int],
            views(final(self).log@) == views(old(self).log@) + Self::leaf_lines(
                ok.len() as int,
                ok@,
                final(self).qagg@,
            ),
    {
        let n = self.common.n;
        let plan = build_z_tree_plan(n);
        let ghost before = views(self.log@);
        let ghost head = "z-Aggregation [level 0 - leaf verification]:"@;
        let ghost texts = Seq::new(n as nat, |i: int| leaf_text(i, ok[i]));
        let mut leaf: BTreeMap<usize, bool> = BTreeMap::new();
        let mut rejected: BTreeSet<usize> = BTreeSet::new();
        note(&mut self.log, "z-Aggregation [level 0 - leaf verification]:".to_owned());
        assert(views(self.log@) =~= before.push(head) + texts.take(0));
        for i in 0..n
            invariant
                n == self.common.n,
                ok.len() == n,
                self.wf(),
                self.phase == Phase::Distribution,
                self.keeps(*old(self)),
                texts == Seq::new(n as nat, |i: int| leaf_text(i, ok[i])),
                views(self.log@) == before.push(head) + texts.take(i as int),
                forall|k: usize| #[trigger] leaf@.contains_key(k) <==> k < i,
                forall|k: usize| k < i ==> #[trigger] leaf@[k] == ok[k as int],
                forall|k: usize| #[trigger] rejected@.contains(k) <==> k < i && !ok[k as int],
        {
            leaf.insert(i, ok[i]);
            if !ok[i] {
                rejected.insert(i);
            }
            let line = leaf_line(i, ok[i]);
            note(&mut self.log, line);
            assert(texts.take(i + 1) =~= texts.take(i as int).push(texts[i as int]));
            assert(views(self.log@) =~= before.push(head) + texts.take(i + 1));
        }
        assert(texts.take(n as int) =~= texts);
        let ids = ascending(&rejected);
        note(&mut self.log, qagg_line(&ids));
        assert(views(self.log@) =~= before + Self::leaf_lines(n as int, ok@, rejected@));
        self.z_tree_plan = plan;
        self.z_leaf_results = leaf;
        self.qagg = rejected;
        self.z_levels_done = 1;
        self.phase = Phase::ZAggregation;
        proof {
            law_root(n as int);
        }
    }

    /// Whether some member of a group was rejected.
    pub open spec fn tainted(members: Seq<usize>, qagg: Set<usize>) -> bool {
        exists|k: int| 0 <= k < members.len() && qagg.contains(#[trigger] members[k])
    }

    fn is_tainted(members: &Vec<usize>, qagg: &BTreeSet<usize>) -> (r: bool)
        ensures
            r == Self::tainted(members@, qagg@),
    {
        for k in 0..members.len()
            invariant
                forall|q: int| 0 <= q < k ==> !qagg@.contains(#[trigger] members[q]),
        {
            if qagg.contains(&members[k]) {
                return true;
            }
        }
        false
    }

    /// The lines of a level of the tree.
    pub open spec fn level_lines(
        nodes: Seq<ZTreePlanNode>,
        level: int,
        qagg: Set<usize>,
    ) -> Seq<Seq<char>> {
        seq![level_text(level, nodes.len() as int)] + Seq::new(
            nodes.len(),
            |j: int|
                group_text(
                    j,
                    nodes[j].real@,
                    nodes[j].aggregator,
                    Self::tainted(nodes[j].real@, qagg),
                ),
        )
    }

    /// Folds the next level of the tree.
    fn do_z_tree_level(&mut self)
        requires
            old(self).wf(),
            old(self).phase == Phase::ZAggregation,
            old(self).z_levels_done < height(old(self).common.n as int),
        ensures
            final(self).wf(),
            final(self).phase == Phase::ZAggregation,
            final(self).keeps(*old(self)),
            final(self).z_leaf_results == old(self).z_leaf_results,
            final(self).z_levels_done == old(self).z_levels_done + 1,
            final(self).z_done == old(self).z_done,
            final(self).z_approvals == old(self).z_approvals,
            views(final(self).log@) == views(old(self).log@) + Self::level_lines(
                old(self).z_tree_plan[old(self).z_levels_done as int]@,
                old(self).z_levels_done as int,
                old(self).qagg@,
            ),
    {
        let level = self.z_levels_done;
        let count = self.z_tree_plan[level].len();
        let ghost before = views(self.log@);
        let ghost nodes = self.z_tree_plan[level as int]@;
        let ghost lines = Self::level_lines(nodes, level as int, self.qagg@);
        note(&mut self.log, level_line(level, count));
        assert(views(self.log@) =~= before + lines.take(1));
        for j in 0..count
            invariant
                level == old(self).z_levels_done,
                level < self.z_tree_plan.len(),
                self.wf(),
                self.phase == Phase::ZAggregation,
                self.keeps(*old(self)),
                self.z_leaf_results == old(self).z_leaf_results,
                self.z_levels_done == old(self).z_levels_done,
                self.z_done == old(self).z_done,
                self.z_approvals == old(self).z_approvals,
                self.qagg == old(self).qagg,
                self.z_tree_plan == old(self).z_tree_plan,
                nodes == self.z_tree_plan[level as int]@,
                count == nodes.len(),
                lines == Self::level_lines(nodes, level as int, self.qagg@),
                views(self.log@) == before + lines.take(j + 1),
        {
            let node = &self.z_tree_plan[level][j];
            let bad = Self::is_tainted(&node.real, &self.qagg);
            let line = group_line(j, &node.real, node.aggregator, bad);
            assert(line@ == lines[j + 1]);
            note(&mut self.log, line);
            assert(lines.take(j + 2) =~= lines.take(j + 1).push(lines[j + 1]));
            assert(views(self.log@) =~= before + lines.take(j + 2));
        }
        assert(lines.take(count + 1) =~= lines);
        self.z_levels_done = level + 1;
    }

    /// The lines of the broadcast of the transcript.
    pub open spec fn broadcast_lines(n: int, approvals: Seq<Option<Vec<u8>>>) -> Seq<Seq<char>> {
        seq![broadcast_text(n - 1, n)] + Seq::new(
            n as nat,
            |i: int| approval_text(i, approvals[i] is Some),
        )
    }

    /// The root broadcasts the folded transcript, and each participant approves or rejects it.
    fn do_z_transcript_broadcast(&mut self, approvals: Vec<Option<Vec<u8>>>)
        requires
            old(self).wf(),
            old(self).phase == Phase::ZAggregation,
            old(self).z_levels_done == height(old(self).common.n as int),
            approvals.len() == old(self).common.n,
        ensures
            final(self).wf(),
            final(self).phase == Phase::ZAggregation,
            final(self).keeps(*old(self)),
            final(self).z_leaf_results == old(self).z_leaf_results,
            final(self).z_levels_done == old(self).z_levels_done,
            final(self).z_done,
            final(self).z_approvals == Some(approvals),
            views(final(self).log@) == views(old(self).log@) + Self::broadcast_lines(
                approvals.len() as int,
                approvals@,
            ),
    {
        let n = self.common.n;
        let ghost before = views(self.log@);
        let ghost lines = Self::broadcast_lines(n as int, approvals@);
        match z_root(&self.z_tree_plan, n) {
            Some(root) => {
                note(&mut self.log, broadcast_line(root, n));
            },
            None => {
                assert(false);
            },
        }
        assert(views(self.log@) =~= before + lines.take(1));
        for i in 0..n
            invariant
                n == self.common.n,
                approvals.len() == n,
                self.wf(),
                self.phase == Phase::ZAggregation,
                self.keeps(*old(self)),
                self.z_leaf_results == old(self).z_leaf_results,
                self.z_levels_done == old(self).z_levels_done,
                lines == Self::broadcast_lines(n as int, approvals@),
                views(self.log@) == before + lines.take(i + 1),
        {
            let line = approval_line(i, approvals[i].is_some());
            assert(line@ == lines[i + 1]);
            note(&mut self.log, line);
            assert(lines.take(i + 2) =~= lines.take(i + 1).push(lines[i + 1]));
            assert(views(self.log@) =~= before + lines.take(i + 2));
        }
        assert(lines.take(n + 1) =~= lines);
        self.z_done = true;
        self.z_transcript_broadcast = true;
        self.z_approvals = Some(approvals);
    }

    /// Where every dealer was rejected, there is no transcript to broadcast.
    fn skip_z_transcript_broadcast(&mut self)
        requires
            old(self).wf(),
            old(self).phase == Phase::ZAggregation,
            old(self).z_levels_done == height(old(self).common.n as int),
            !old(self).z_done,
        ensures
            final(self).wf(),
            final(self).phase == Phase::ZAggregation,
            final(self).keeps(*old(self)),
            final(self).z_leaf_results == old(self).z_leaf_results,
            final(self).z_levels_done == old(self).z_levels_done,
            final(self).z_done,
            final(self).z_approvals == old(self).z_approvals,
            views(final(self).log@) == views(old(self).log@).push(
                "z-Transcript broadcast: no valid transcript to broadcast (all dealers in Qagg)."@,
            ),
    {
        note(
            &mut self.log,
            "z-Transcript broadcast: no valid transcript to broadcast (all dealers in Qagg).".to_owned(),
        );
        self.z_done = true;
    }

    /// The lines of the verification of Pedersen shares.
    pub open spec fn verification_lines(complaints: Seq<Complaint>) -> Seq<Seq<char>> {
        seq![
            "z-Aggregation complete. Moving to Pedersen share verification."@,
            "Verification (Pedersen layer):"@,
        ] + if complaints.len() == 0 {
            seq!["  All Pedersen shares verified - no complaints."@]
        } else {
            complaints.map_values(
                |c: Complaint| complaint_text(c.dealer as int, c.complainer as int),
            )
        }
    }

    /// Every receiver decrypts and checks every dealer's share, and complains of those that fail.
    fn do_pedersen_verification(&mut self)
        requires
            old(self).wf(),
            old(self).phase == Phase::ZAggregation,
            old(self).z_done,
        ensures
            final(self).wf(),
            final(self).phase == Phase::Verification,
            final(self).keeps(*old(self)),
            final(self).z_leaf_results == old(self).z_leaf_results,
            final(self).z_approvals == old(self).z_approvals,
            views(final(self).log@) == views(old(self).log@) + Self::verification_lines(
                final(self).complaints@,
            ),
    {
        let ghost before = views(self.log@);
        let complaints = file_complaints(
            &self.published.dealings,
            &self.common.suite.generators,
            &self.common.suite.base,
            &self.common.suite.receiver_pks,
            self.common.degree,
            &self.common.suite.elgamal,
        );
        let ghost lines = Self::verification_lines(complaints@);
        note(
            &mut self.log,
            "z-Aggregation complete. Moving to Pedersen share verification.".to_owned(),
        );
        note(&mut self.log, "Verification (Pedersen layer):".to_owned());
        assert(views(self.log@) =~= before + lines.take(2));
        for k in 0..complaints.len()
            invariant
                self.wf(),
                self.phase == Phase::ZAggregation,
                self.z_done,
                self.keeps(*old(self)),
                self.z_leaf_results == old(self).z_leaf_results,
                self.z_approvals == old(self).z_approvals,
                lines == Self::verification_lines(complaints@),
                views(self.log@) == before + lines.take(k + 2),
        {
            let line = complaint_line(complaints[k].dealer, complaints[k].complainer);
            assert(line@ == lines[k + 2]);
            note(&mut self.log, line);
            assert(lines.take(k + 3) =~= lines.take(k + 2).push(lines[k + 2]));
            assert(views(self.log@) =~= before + lines.take(k + 3));
        }
        if complaints.len() == 0 {
            note(&mut self.log, "  All Pedersen shares verified - no complaints.".to_owned());
        }
        assert(views(self.log@) =~= before + lines);
        self.complaints = complaints;
        self.phase = Phase::Verification;
    }

    /// The lines of the complaint phase.
    pub open spec fn complaint_lines(
        disqualified: Map<usize, DisqualificationReason>,
        qual: Set<usize>,
    ) -> Seq<Seq<char>> {
        listed(disqualified.dom()).map_values(
            |id: usize| disqualified_text(id as int, disqualified[id]),
        ) + seq![qual_text(listed(qual))]
    }

    /// Resolves the complaints.
    fn do_complaints(&mut self, rng: &mut ChaCha20Rng) -> (r: Result<(), VssError>)
        requires
            old(self).wf(),
            old(self).phase == Phase::Verification,
        ensures
            r is Ok,
            final(self).wf(),
            final(self).phase == Phase::Complaints,
            final(self).keeps(*old(self)),
            final(self).z_leaf_results == old(self).z_leaf_results,
            final(self).z_approvals == old(self).z_approvals,
            views(final(self).log@) == views(old(self).log@) + Self::complaint_lines(
                final(self).disqualified@,
                final(self).qual@,
            ),
    {
        let ghost before = views(self.log@);
        let ComplaintOutcome { qual, disqualified } = self.published.resolve(
            &self.common.suite,
            self.common.degree,
            &self.qagg,
            &self.complaints,
            neutral_count(self.common.n),
            rng,
        )?;
        let ids = keys_ascending(&disqualified);
        let ghost lines = Self::complaint_lines(disqualified@, qual@);
        assert(views(self.log@) =~= before + lines.take(0));
        for k in 0..ids.len()
            invariant
                self.wf(),
                self.phase == Phase::Verification,
                self.keeps(*old(self)),
                self.z_leaf_results == old(self).z_leaf_results,
                self.z_approvals == old(self).z_approvals,
                self.qagg == old(self).qagg,
                ids@ == listed(disqualified@.dom()),
                ids@.to_set() == disqualified@.dom(),
                lines == Self::complaint_lines(disqualified@, qual@),
                views(self.log@) == before + lines.take(k as int),
        {
            assert(ids@.to_set().contains(ids@[k as int]));
            match disqualified.get(&ids[k]) {
                Some(reason) => {
                    let line = disqualified_line(ids[k], *reason);
                    assert(line@ == lines[k as int]);
                    note(&mut self.log, line);
                },
                None => {
                    assert(false);
                },
            }
            assert(lines.take(k + 1) =~= lines.take(k as int).push(lines[k as int]));
            assert(views(self.log@) =~= before + lines.take(k + 1));
        }
        let qualified = ascending(&qual);
        note(&mut self.log, qual_line(&qualified));
        assert(views(self.log@) =~= before + lines);
        self.qual = qual;
        self.disqualified = disqualified;
        self.phase = Phase::Complaints;
        Ok(())
    }

    /// The lines of the key generation.
    pub open spec fn key_lines(degree: int, qual: Set<usize>) -> Seq<Seq<char>> {
        if qual.len() == 0 {
            seq!["KeyGeneration: QUAL is empty - no key can be formed."@]
        } else {
            seq![
                "KeyGeneration: aggregated pk = (c1,c2,c3) over QUAL."@,
                reconstruction_text(degree + 1, true),
            ]
        }
    }

    /// Generates the key and reconstructs it.
    fn do_key_generation(&mut self)
        requires
            old(self).wf(),
            old(self).phase == Phase::Complaints,
        ensures
            final(self).wf(),
            final(self).phase == Phase::KeyGeneration,
            final(self).keeps(*old(self)),
            final(self).z_leaf_results == old(self).z_leaf_results,
            final(self).z_approvals == old(self).z_approvals,
            views(final(self).log@) == views(old(self).log@) + Self::key_lines(
                old(self).common.degree as int,
                final(self).qual@,
            ),
    {
        let ghost before = views(self.log@);
        if self.qual.len() == 0 {
            note(
                &mut self.log,
                "KeyGeneration: QUAL is empty - no key can be formed.".to_owned(),
            );
            assert(views(self.log@) =~= before + Self::key_lines(
                self.common.degree as int,
                self.qual@,
            ));
            self.phase = Phase::KeyGeneration;
            return ;
        }
        proof {
            let outcome = ComplaintOutcome { qual: self.qual, disqualified: self.disqualified };
            assert forall|d: usize| #[trigger] self.qual@.contains(d) implies d
                < self.published.dealings.len()
                && self.published.dealings[d as int].sound_throughout(
                self.common.suite.generators,
            ) by {
                assert(outcome.qual@.contains(d));
            }
        }
        let (pk, ok) = self.published.generate_key(
            &self.common.suite,
            self.common.degree,
            &self.qual,
        );
        note(&mut self.log, "KeyGeneration: aggregated pk = (c1,c2,c3) over QUAL.".to_owned());
        if let Some(b) = ok {
            note(&mut self.log, reconstruction_line(self.common.degree + 1, b));
        }
        assert(views(self.log@) =~= before + Self::key_lines(
            self.common.degree as int,
            self.qual@,
        ));
        self.reconstructed_ok = ok;
        self.pk = Some(pk);
        self.phase = Phase::KeyGeneration;
    }

    /// What a step does, by the phase it starts in.
    pub open spec fn steps_to(self, event: Event, next: Self) -> bool {
        let n = self.common.n as int;
        let (log, log2) = (views(self.log@), views(next.log@));
        match self.phase {
            Phase::Setup => {
                &&& next.phase == Phase::Distribution
                &&& next.common == self.common
                &&& event matches Event::Dealt(z) && exists|tampering: Tampering| #[trigger]
                    next.distributed(z@, tampering)
                &&& log2 == log + self.distribution_lines()
            },
            Phase::Distribution => {
                &&& next.phase == Phase::ZAggregation
                &&& next.keeps(self)
                &&& next.z_levels_done == 1
                &&& !next.z_done
                &&& event matches Event::Verified(ok) && {
                    &&& forall|i: usize|
                        i < n ==> #[trigger] next.z_leaf_results@[i] == ok[i as int]
                    &&& log2 == log + Self::leaf_lines(n, ok@, next.qagg@)
                }
            },
            Phase::ZAggregation => {
                &&& next.keeps(self)
                &&& next.z_leaf_results == self.z_leaf_results
                &&& if self.z_levels_done < height(n) {
                    &&& next.phase == Phase::ZAggregation
                    &&& next.z_levels_done == self.z_levels_done + 1
                    &&& !next.z_done
                    &&& log2 == log + Self::level_lines(
                        self.z_tree_plan[self.z_levels_done as int]@,
                        self.z_levels_done as int,
                        self.qagg@,
                    )
                } else if !self.z_done {
                    &&& next.phase == Phase::ZAggregation
                    &&& next.z_levels_done == self.z_levels_done
                    &&& next.z_done
                    &&& match event {
                        Event::Approved(v) => {
                            &&& next.z_approvals == Some(v)
                            &&& log2 == log + Self::broadcast_lines(n, v@)
                        },
                        _ => {
                            &&& next.z_approvals is None
                            &&& log2 == log.push(
                                "z-Transcript broadcast: no valid transcript to broadcast (all dealers in Qagg)."@,
                            )
                        },
                    }
                } else {
                    &&& next.phase == Phase::Verification
                    &&& next.z_approvals == self.z_approvals
                    &&& log2 == log + Self::verification_lines(next.complaints@)
                }
            },
            Phase::Verification => {
                &&& next.phase == Phase::Complaints
                &&& next.keeps(self)
                &&& next.z_leaf_results == self.z_leaf_results
                &&& next.z_approvals == self.z_approvals
                &&& log2 == log + Self::complaint_lines(next.disqualified@, next.qual@)
            },
            Phase::Complaints => {
                &&& next.phase == Phase::KeyGeneration
                &&& next.keeps(self)
                &&& next.z_leaf_results == self.z_leaf_results
                &&& next.z_approvals == self.z_approvals
                &&& log2 == log + Self::key_lines(self.common.degree as int, next.qual@)
            },
            Phase::KeyGeneration => {
                &&& next.phase == Phase::Done
                &&& next.keeps(self)
                &&& next.z_leaf_results == self.z_leaf_results
                &&& next.z_approvals == self.z_approvals
                &&& log2 == log.push("Protocol complete."@)
            },
            Phase::Done => next == self,
        }
    }

    /// Advances by one phase, or during the aggregation by one level of the tree. An event other than
    /// the one that the session waits for is refused.
    pub fn advance(&mut self, event: Event, rng: &mut ChaCha20Rng) -> (r: Result<(), String>)
        requires
            old(self).wf(),
        ensures
            match r {
                Ok(_) => {
                    &&& old(self).fits(event)
                    &&& final(self).wf()
                    &&& old(self).steps_to(event, *final(self))
                },
                Err(why) => {
                    &&& !old(self).fits(event)
                    &&& *final(self) == *old(self)
                    &&& why@ == "the event is not what the session waits for"@
                },
            },
    {
        let waits = self.pending();
        let n = self.common.n;
        match (waits, event) {
            (Pending::Shares, Event::Dealt(z)) => {
                if z.len() == n {
                    let tampering = Tampering::draw(n, rng);
                    let r = self.do_distribution(z, tampering, rng);
                    assert(r is Ok);
                    return Ok(());
                }
            },
            (Pending::Verification, Event::Verified(ok)) => {
                if ok.len() == n {
                    self.do_z_tree_init(ok);
                    return Ok(());
                }
            },
            (Pending::Approvals, Event::Approved(v)) => {
                if v.len() == n {
                    self.do_z_transcript_broadcast(v);
                    return Ok(());
                }
            },
            (Pending::Nothing, Event::Continue) => {
                self.proceed(rng);
                return Ok(());
            },
            _ => {},
        }
        Err("the event is not what the session waits for".to_owned())
    }

    /// A step for which nothing outside of the session is needed.
    fn proceed(&mut self, rng: &mut ChaCha20Rng)
        requires
            old(self).wf(),
            old(self).awaits() == Pending::Nothing,
        ensures
            final(self).wf(),
            old(self).steps_to(Event::Continue, *final(self)),
    {
        match self.phase {
            Phase::ZAggregation => {
                if self.z_levels_done < self.z_tree_plan.len() {
                    self.do_z_tree_level();
                } else if !self.z_done {
                    self.skip_z_transcript_broadcast();
                } else {
                    self.do_pedersen_verification();
                }
            },
            Phase::Verification => {
                let r = self.do_complaints(rng);
                assert(r is Ok);
            },
            Phase::Complaints => {
                self.do_key_generation();
            },
            Phase::KeyGeneration => {
                note(&mut self.log, "Protocol complete.".to_owned());
                self.phase = Phase::Done;
            },
            _ => {},
        }
    }
}

impl DkgSession {
    /// How many steps the session is from its end.
    pub open spec fn steps_left(self) -> int {
        let h = height(self.common.n as int);
        match self.phase {
            Phase::Setup => h + 6,
            Phase::Distribution => h + 5,
            Phase::ZAggregation => h - self.z_levels_done + if self.z_done {
                4int
            } else {
                5
            },
            Phase::Verification => 3,
            Phase::Complaints => 2,
            Phase::KeyGeneration => 1,
            Phase::Done => 0,
        }
    }
}

/// Every step brings a session one closer to its end, and the end is the last phase; a session of `n`
/// participants takes `ceil(log2 n) + 7` steps in all.
pub proof fn law_steps_count_down(s: DkgSession, event: Event, next: DkgSession)
    requires
        s.wf(),
        s.steps_to(event, next),
        next.wf(),
    ensures
        s.phase != Phase::Done ==> next.steps_left() == s.steps_left() - 1,
        s.steps_left() >= 0,
        s.steps_left() == 0 <==> s.phase == Phase::Done,
        s.phase == Phase::Setup ==> s.steps_left() == height(s.common.n as int) + 6,
{
    law_root(s.common.n as int);
}

/// A dealer whose share of `z` verified and who does not corrupt the Pedersen layer qualifies.
pub proof fn law_honest_dealer_qualifies(s: DkgSession, i: usize)
    requires
        s.wf(),
        s.phase.rank() >= Phase::Complaints.rank(),
        i < s.common.n,
        s.z_leaf_results@[i],
        !corrupting(s.common.malice@).contains(i),
    ensures
        s.qual@.contains(i),
{
    law_uncorrupted_is_sound(
        s.published,
        s.common.suite,
        s.common.degree as int,
        corrupting(s.common.malice@),
        i,
    );
    let outcome = ComplaintOutcome { qual: s.qual, disqualified: s.disqualified };
    assert(!s.qagg@.contains(i));
    assert(s.published.qualifies(s.common.suite, s.qagg@, i));
    assert(outcome.qual@.contains(i));
}

/// A dealer whose share of `z` was rejected never qualifies, and the reason given is that rejection.
pub proof fn law_rejected_dealer_is_out(s: DkgSession, i: usize)
    requires
        s.wf(),
        s.phase.rank() >= Phase::Complaints.rank(),
        i < s.common.n,
        !s.z_leaf_results@[i],
    ensures
        !s.qual@.contains(i),
        s.disqualified@.contains_key(i),
        s.disqualified@[i] == DisqualificationReason::InQagg,
{
    let outcome = ComplaintOutcome { qual: s.qual, disqualified: s.disqualified };
    assert(s.qagg@.contains(i));
    law_rejected_never_qualifies(
        s.published,
        s.common.suite,
        s.common.degree,
        s.qagg@,
        outcome,
    );
    assert(!outcome.qual@.contains(i));
}

/// The qualified and the disqualified are a partition of the dealers.
pub proof fn law_qualified_or_not(s: DkgSession, i: usize)
    requires
        s.wf(),
        s.phase.rank() >= Phase::Complaints.rank(),
    ensures
        s.qual@.contains(i) || s.disqualified@.contains_key(i) <==> i < s.common.n,
        !(s.qual@.contains(i) && s.disqualified@.contains_key(i)),
{
    let outcome = ComplaintOutcome { qual: s.qual, disqualified: s.disqualified };
    assert(outcome.qual@.contains(i) <==> s.published.qualifies(s.common.suite, s.qagg@, i));
    assert(outcome.disqualified@.contains_key(i) <==> s.qagg@.contains(i) || unsound_dealers(
        s.published.dealings@,
        s.common.suite.generators,
    ).contains(i));
}

/// Nobody complains but the victims of the dealers that corrupt the Pedersen layer, each of its own
/// dealer.
pub proof fn law_complaints_name_cheaters(s: DkgSession, k: int)
    requires
        s.wf(),
        s.phase.rank() >= Phase::Verification.rank(),
        0 <= k < s.complaints.len(),
    ensures
        corrupting(s.common.malice@).contains(s.complaints[k].dealer),
        s.complaints[k].complainer == victim_of(
            s.complaints[k].dealer as int,
            s.common.n as int,
        ) + 1,
{
    let n = s.common.n as int;
    let generators = s.common.suite.generators;
    let sound = soundness(s.published.dealings@, generators);
    let list = failures(sound, n);
    lemma_failures(sound, n);
    let (d, c) = list[k];
    assert(s.complaints[k] == Complaint { dealer: d, complainer: c });
    assert(accused(list).contains(d));
    assert(failing_dealers(sound, n).contains(d));
    assert(complainers(list, d).contains(c));
    assert(failing_receivers(sound, n, d as int).contains(c));
    let dealing = s.published.dealings[d as int];
    assert(!dealing.sound(generators, c - 1));
    if !corrupting(s.common.malice@).contains(d) || c - 1 != victim_of(d as int, n) {
        assert(s.published.dealings[d as int].honest_to(c - 1));
        assert(dealing.valid(
            generators,
            s.common.suite.base,
            s.common.suite.receiver_pks@,
            s.common.degree as int,
        ));
        law_honest_is_sound(dealing, generators, c - 1);
    }
}

/// A dealer whose share of `z` verified and whose victim holds a share that does not check is out: it
/// loses the disputation, or where the threshold tolerates no complaint at all has one too many.
pub proof fn law_detected_dealer_is_out(s: DkgSession, i: usize)
    requires
        s.wf(),
        s.phase.rank() >= Phase::Complaints.rank(),
        i < s.common.n,
        s.z_leaf_results@[i],
        !s.published.dealings[i as int].sound(
            s.common.suite.generators,
            victim_of(i as int, s.common.n as int),
        ),
    ensures
        !s.qual@.contains(i),
        s.disqualified@.contains_key(i),
        s.disqualified@[i] == if s.common.degree >= 2 {
            DisqualificationReason::LostDisputation
        } else {
            DisqualificationReason::TooManyComplaints
        },
{
    let n = s.common.n as int;
    let generators = s.common.suite.generators;
    let outcome = ComplaintOutcome { qual: s.qual, disqualified: s.disqualified };
    let dealing = s.published.dealings[i as int];
    let v = victim_of(i as int, n);
    assert(0 <= v < n);
    assert(dealing.valid(
        generators,
        s.common.suite.base,
        s.common.suite.receiver_pks@,
        s.common.degree as int,
    ));
    assert(!dealing.sound_throughout(generators));
    assert(!s.published.qualifies(s.common.suite, s.qagg@, i));
    assert(!outcome.qual@.contains(i));
    assert(outcome.disqualified@.contains_key(i));
    let bad = unsound_receivers(s.published.dealings@, generators, i as int);
    let sound = soundness(s.published.dealings@, generators);
    let only = (v + 1) as usize;
    assert forall|c: usize| bad.contains(c) == (c == only) by {
        if bad.contains(c) {
            assert(!dealing.sound(generators, c - 1));
            if c != only {
                assert(s.published.dealings[i as int].honest_to(c - 1));
                law_honest_is_sound(dealing, generators, c - 1);
            }
        }
        if c == only {
            assert(!sound(i as int, c - 1));
        }
    }
    assert(bad =~= Set::empty().insert(only));
}

/// Where every offset shows, the complaints are exactly one per dealer that corrupts the Pedersen
/// layer, of its victim; and a dealer qualifies exactly where its share of `z` verified and it does
/// not corrupt the Pedersen layer. Of the others, those whose share of `z` was rejected are out for
/// that, and the rest for their tampering.
pub proof fn law_session_by_malice(s: DkgSession, offsets: Seq<Scalar<Bls12381>>)
    requires
        s.wf(),
        s.phase.rank() >= Phase::Complaints.rank(),
        offsets.len() == s.common.n,
        s.tampered_with(offsets),
        telling(shifts(s.common.malice@, offsets), s.common.suite.generators.g1@),
    ensures
        pairs(s.complaints@) == one_each(
            corrupting(s.common.malice@),
            victims(s.common.n as int),
            s.common.n as int,
        ),
        s.complaints.len() == corrupting(s.common.malice@).len(),
        forall|i: usize| #[trigger]
            s.qual@.contains(i) <==> i < s.common.n && s.z_leaf_results@[i] && !corrupting(
                s.common.malice@,
            ).contains(i),
        forall|i: usize| #[trigger]
            s.disqualified@.contains_key(i) <==> i < s.common.n && (!s.z_leaf_results@[i]
                || corrupting(s.common.malice@).contains(i)),
        forall|i: usize| #[trigger]
            s.disqualified@.contains_key(i) ==> s.disqualified@[i] == if !s.z_leaf_results@[i] {
                DisqualificationReason::InQagg
            } else if s.common.degree >= 2 {
                DisqualificationReason::LostDisputation
            } else {
                DisqualificationReason::TooManyComplaints
            },
        s.phase.rank() >= Phase::KeyGeneration.rank() && s.qual@.len() > 0
            ==> s.reconstructed_ok == Some(true),
{
    let n = s.common.n as int;
    let bad = corrupting(s.common.malice@);
    let moved = shifts(s.common.malice@, offsets);
    let outcome = ComplaintOutcome { qual: s.qual, disqualified: s.disqualified };
    assert forall|i: usize| bad.contains(i) implies i < n by {
        assert(s.common.malice@.contains_key(i));
    }
    assert(moved.dom() =~= bad);
    law_tampering_detected(s.published, s.common.suite, s.common.degree as int, moved);
    assert forall|i: usize| #[trigger] s.qual@.contains(i) <==> i < n && s.z_leaf_results@[i]
        && !bad.contains(i) by {
        assert(outcome.qual@.contains(i) <==> s.published.qualifies(
            s.common.suite,
            s.qagg@,
            i,
        ));
        assert(s.qagg@.contains(i) <==> i < n && !s.z_leaf_results@[i]);
        assert(moved.contains_key(i) == bad.contains(i));
    }
    assert forall|i: usize| #[trigger] s.disqualified@.contains_key(i) <==> i < n && (
    !s.z_leaf_results@[i] || bad.contains(i)) by {
        law_qualified_or_not(s, i);
        assert(s.qual@.contains(i) <==> i < n && s.z_leaf_results@[i] && !bad.contains(i));
    }
    assert forall|i: usize| #[trigger] s.disqualified@.contains_key(i) implies s.disqualified@[i]
        == if !s.z_leaf_results@[i] {
        DisqualificationReason::InQagg
    } else if s.common.degree >= 2 {
        DisqualificationReason::LostDisputation
    } else {
        DisqualificationReason::TooManyComplaints
    } by {
        if !s.z_leaf_results@[i] {
            law_rejected_dealer_is_out(s, i);
        } else {
            assert(moved.contains_key(i));
            let v = victim_of(i as int, n);
            vstd::arithmetic::div_mod::lemma_mod_bound(i + 1, n);
            let failing = unsound_receivers(
                s.published.dealings@,
                s.common.suite.generators,
                i as int,
            );
            assert(failing.contains((v + 1) as usize));
            assert(!s.published.dealings[i as int].sound(s.common.suite.generators, v));
            law_detected_dealer_is_out(s, i);
        }
    }
}

/// Where all participants are honest and the layer for `z` accepts them, everybody qualifies, nobody
/// complains, and the key reconstructs.
pub proof fn law_honest_run(s: DkgSession)
    requires
        s.wf(),
        s.phase == Phase::Done,
        s.common.malice@.dom() == Set::<usize>::empty(),
        forall|i: usize| i < s.common.n ==> #[trigger] s.z_leaf_results@[i],
    ensures
        forall|i: usize| #[trigger] s.qual@.contains(i) <==> i < s.common.n,
        s.complaints.len() == 0,
        s.pk is Some,
        s.reconstructed_ok == Some(true),
{
    let n = s.common.n;
    let corrupt = corrupting(s.common.malice@);
    assert forall|i: usize| i < n implies #[trigger] s.qual@.contains(i) by {
        assert(s.z_leaf_results@[i]);
        law_honest_dealer_qualifies(s, i);
    }
    assert forall|i: usize| #[trigger] s.qual@.contains(i) implies i < n by {
        law_qualified_or_not(s, i);
    }
    let sound = soundness(s.published.dealings@, s.common.suite.generators);
    lemma_failures(sound, n as int);
    let list = failures(sound, n as int);
    if list.len() > 0 {
        let d = list[0].0;
        assert(accused(list).contains(d));
        assert(failing_dealers(sound, n as int).contains(d));
        law_uncorrupted_is_sound(
            s.published,
            s.common.suite,
            s.common.degree as int,
            corrupt,
            d,
        );
        let j = choose|j: int| 0 <= j < n && !#[trigger] sound(d as int, j);
        assert(s.published.dealings[d as int].valid(
            s.common.suite.generators,
            s.common.suite.base,
            s.common.suite.receiver_pks@,
            s.common.degree as int,
        ));
        assert(s.published.dealings[d as int].sound(s.common.suite.generators, j));
    }
    let everybody = Seq::new(n as nat, |i: int| i as usize);
    assert forall|i: usize| s.qual@.contains(i) implies everybody.to_set().contains(i) by {
        assert(everybody[i as int] == i);
    }
    assert(s.qual@ =~= everybody.to_set());
    vstd::seq_lib::seq_to_set_is_finite(everybody);
    assert(s.qual@.contains(0));
    if s.qual@.len() == 0 {
        s.qual@.lemma_len0_is_empty();
    }
}

} // verus!
