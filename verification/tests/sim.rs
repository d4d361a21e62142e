use dmkg::bls::Bls12381;
use dmkg::curve::{Point, Scalar};
use dmkg::dkg::complaint::DisqualificationReason;
use dmkg::dkg::dmkg::ZDealing;
use dmkg::sim::malice::Malice;
use dmkg::sim::phase::Phase;
use dmkg::sim::session::{
    check_config, sent_share, DkgSession, Event, Pending, Tampering, ZSetup, ZShare,
};
use dmkg::sim::tree::{build_z_tree_plan, z_root, z_tree_counts};
use dmkg::sim::view::Field;
use rand_chacha::rand_core::SeedableRng;
use rand_chacha::ChaCha20Rng;
use std::collections::BTreeMap;

// A layer for `z` that publishes `base^z` and rejects every other commitment.
struct Layer {
    base: Point<Bls12381>,
    secrets: Vec<Scalar<Bls12381>>,
}

impl Layer {
    fn new(rng: &mut ChaCha20Rng) -> Layer {
        Layer { base: Point::random(rng), secrets: vec![] }
    }

    fn setup(&self, n: usize) -> ZSetup {
        ZSetup {
            g_g1: self.base.to_bytes(),
            h_g2: vec![2; 96],
            u_1: vec![3; 96],
            keys: (0..n).map(|i| (vec![i as u8; 32], vec![i as u8; 96])).collect(),
        }
    }

    fn event(&mut self, s: &DkgSession, rng: &mut ChaCha20Rng) -> Event {
        let n = s.common.n;
        match s.pending() {
            Pending::Shares => {
                self.secrets = (0..n).map(|_| Scalar::random(rng)).collect();
                Event::Dealt(
                    self.secrets
                        .iter()
                        .map(|z| ZDealing {
                            z_i: *z,
                            dkg_share: ZShare { c_i: self.base.mul(z), size: 1500 },
                        })
                        .collect(),
                )
            }
            Pending::Verification => Event::Verified(
                (0..n)
                    .map(|i| {
                        let c_i = s.published.contributions[&i].dkg_share.c_i;
                        c_i == self.base.mul(&self.secrets[i])
                    })
                    .collect(),
            ),
            Pending::Approvals => Event::Approved((0..n).map(|i| Some(vec![i as u8; 96])).collect()),
            Pending::Nothing => Event::Continue,
        }
    }
}

struct Run {
    session: DkgSession,
    layer: Layer,
    rng: ChaCha20Rng,
}

impl Run {
    fn new(n: usize, degree: Option<usize>, malice: BTreeMap<usize, Malice>) -> Result<Run, String> {
        let mut rng = ChaCha20Rng::from_entropy();
        let layer = Layer::new(&mut rng);
        let setup = layer.setup(n);
        let session = DkgSession::new(n, degree, malice, setup, &mut rng)?;
        Ok(Run { session, layer, rng })
    }

    fn advance(&mut self) -> Result<(), String> {
        let event = self.layer.event(&self.session, &mut self.rng);
        self.session.advance(event, &mut self.rng)
    }

    fn finish(&mut self) -> usize {
        let mut steps = 0;
        while self.session.phase != Phase::Done {
            self.advance().unwrap();
            steps += 1;
        }
        steps
    }
}

#[test]
fn test_full_run_honest() {
    let mut s = Run::new(4, Some(2), BTreeMap::new()).unwrap();
    s.finish();
    let snap = s.session.snapshot();
    assert_eq!(snap.phase, "Done");
    assert_eq!(snap.qual.len(), 4);
    assert!(snap.qagg.is_empty());
    assert_eq!(snap.public_key.as_ref().unwrap().reconstructed_ok, Some(true));
}

#[test]
fn test_z_tree_levels() {
    // The z-tree for n=4 has 3 levels (leaf, one aggregation, root).
    let mut s = Run::new(4, Some(2), BTreeMap::new()).unwrap();
    // Setup -> Distribution
    s.advance().unwrap();
    assert_eq!(s.session.phase, Phase::Distribution);
    // Distribution -> ZAggregation (level 0 done)
    s.advance().unwrap();
    assert_eq!(s.session.phase, Phase::ZAggregation);
    assert_eq!(s.session.z_levels_done, 1);
    let snap = s.session.snapshot();
    assert_eq!(snap.z_total_levels, 3); // leaf + 2 aggregation levels
    assert_eq!(snap.z_levels_done, 1);
    // Advance through remaining tree levels.
    s.advance().unwrap();
    assert_eq!(s.session.z_levels_done, 2);
    s.advance().unwrap();
    assert_eq!(s.session.z_levels_done, 3);
    // Next advance is the transcript broadcast & approval step (still ZAgg).
    s.advance().unwrap();
    assert_eq!(s.session.phase, Phase::ZAggregation);
    assert!(s.session.z_transcript_broadcast);
    let snap = s.session.snapshot();
    assert_eq!(snap.z_approvals.len(), 4);
    assert!(snap.z_approvals.iter().all(|(_, ok)| *ok));
    assert_eq!(snap.z_root, Some(3)); // rightmost real participant
                                      // Then the next advance transitions to Verification.
    s.advance().unwrap();
    assert_eq!(s.session.phase, Phase::Verification);
}

#[test]
fn test_run_with_malicious() {
    let mut mal = BTreeMap::new();
    mal.insert(1usize, Malice::Both);
    let mut s = Run::new(5, Some(2), mal).unwrap();
    s.finish();
    let snap = s.session.snapshot();
    // The malicious dealer is reported and excluded.
    assert!(snap.qagg.contains(&1));
    assert!(!snap.qual.contains(&1));
    // Honest dealers survive and the key still reconstructs.
    for h in [0usize, 2, 3, 4] {
        assert!(snap.qual.contains(&h));
    }
    assert_eq!(snap.public_key.as_ref().unwrap().reconstructed_ok, Some(true));
}

// A dealer malicious only in the `z` layer is caught by the public z
// verification (lands in Qagg) - before z is aggregated - with no complaint.
#[test]
fn test_z_only_malice_caught_by_qagg() {
    let mut mal = BTreeMap::new();
    mal.insert(1usize, Malice::ZCommitment);
    let mut s = Run::new(5, Some(2), mal).unwrap();
    s.finish();
    let snap = s.session.snapshot();
    assert!(snap.qagg.contains(&1));
    // Honest in the Pedersen layer, so nobody complains.
    assert!(snap.complaints.is_empty());
    assert!(!snap.qual.contains(&1));
    assert_eq!(snap.participants[1].disqualified_reason.as_deref(), Some("InQagg"));
    assert_eq!(snap.public_key.as_ref().unwrap().reconstructed_ok, Some(true));
}

// A dealer malicious only in the Pedersen layer is honest in `z` (never in
// Qagg), so it is caught only by the complaint/disputation phase - after Qagg
// is resolved - and the Qagg short-circuit does not apply.
#[test]
fn test_pedersen_only_malice_caught_by_disputation() {
    let mut mal = BTreeMap::new();
    mal.insert(1usize, Malice::PedersenShare);
    let mut s = Run::new(5, Some(2), mal).unwrap();
    s.finish();
    let snap = s.session.snapshot();
    assert!(!snap.qagg.contains(&1));
    assert!(snap.complaints.iter().any(|(dealer, _)| *dealer == 1));
    assert!(!snap.qual.contains(&1));
    assert_eq!(snap.participants[1].disqualified_reason.as_deref(), Some("LostDisputation"));
    for h in [0usize, 2, 3, 4] {
        assert!(snap.qual.contains(&h));
    }
    assert_eq!(snap.public_key.as_ref().unwrap().reconstructed_ok, Some(true));
}

#[test]
fn test_config_validation() {
    assert!(Run::new(1, None, BTreeMap::new()).is_err());
    assert!(Run::new(11, None, BTreeMap::new()).is_err());
    assert!(Run::new(4, Some(4), BTreeMap::new()).is_err()); // t must be < n
}

#[test]
fn refusals_say_why() {
    assert_eq!(
        Run::new(1, None, BTreeMap::new()).err(),
        Some("n must be between 2 and 10 (got 1)".to_string())
    );
    assert_eq!(
        Run::new(4, Some(4), BTreeMap::new()).err(),
        Some("threshold/degree t must satisfy 1 <= t < n (got t=4, n=4)".to_string())
    );
    let mut mal = BTreeMap::new();
    mal.insert(9usize, Malice::Both);
    mal.insert(7usize, Malice::ZCommitment);
    mal.insert(5usize, Malice::Honest);
    assert_eq!(
        Run::new(4, None, mal).err(),
        Some("malicious id 7 out of range [0,4)".to_string())
    );
}

#[test]
fn defaults_of_the_configuration() {
    let mut mal = BTreeMap::new();
    mal.insert(0usize, Malice::Honest);
    mal.insert(2usize, Malice::PedersenShare);
    let (t, kept) = check_config(7, None, &mal).unwrap();
    assert_eq!(t, 3);
    assert_eq!(kept.len(), 1);
    assert_eq!(kept[&2], Malice::PedersenShare);
    assert_eq!(check_config(2, Some(0), &mal).unwrap_err(), "malicious id 2 out of range [0,2)");
    assert_eq!(check_config(2, Some(0), &BTreeMap::new()).unwrap().0, 1);
}

#[test]
fn log_of_a_run() {
    let mut mal = BTreeMap::new();
    mal.insert(1usize, Malice::Both);
    mal.insert(2usize, Malice::PedersenShare);
    let mut s = Run::new(4, Some(2), mal).unwrap();
    let steps = s.finish();
    // Distribution, leaves, two levels, broadcast, verification, complaints, key, done.
    assert_eq!(steps, 9);
    let expected = [
        "Setup: n=4, threshold t=2 (reconstruct from t+1=3), malicious=[P1=both, P2=pedersen].",
        "Distribution: dealer 0 dealt 3 commitments and 4 encrypted shares.",
        "Distribution: dealer 1 (malicious) tampered its z commitment (→ Qagg) AND its Pedersen \
         share to receiver 3 (→ complaint).",
        "Distribution: dealer 2 (malicious) dealt an inconsistent Pedersen share to receiver 4 \
         (→ complaint); its z share is honest.",
        "Distribution: dealer 3 dealt 3 commitments and 4 encrypted shares.",
        "z-Aggregation [level 0 - leaf verification]:",
        "  P0 z-share verified ✓ (added to transcript)",
        "  P1 z-share REJECTED ✗ → added to Qagg",
        "  P2 z-share verified ✓ (added to transcript)",
        "  P3 z-share verified ✓ (added to transcript)",
        "  Qagg = {P1}.",
        "z-Aggregation [level 1 - 2 groups aggregate pairwise]:",
        "  group 0: [P0+P1] → aggregator: P1 (contains Qagg member)",
        "  group 1: [P2+P3] → aggregator: P3",
        "z-Aggregation [level 2 - root]: all remaining transcripts folded into one.",
        "  group 0: [P0+P1+P2+P3] → aggregator: P3 (contains Qagg member)",
        "z-Transcript broadcast: root P3 broadcasts the candidate transcript to all 4 \
         participants for approval.",
        "  P0 verified & approved the transcript ✓",
        "  P1 verified & approved the transcript ✓",
        "  P2 verified & approved the transcript ✓",
        "  P3 verified & approved the transcript ✓",
        "z-Aggregation complete. Moving to Pedersen share verification.",
        "Verification (Pedersen layer):",
        "  P3 could not verify P1's Pedersen share → complaint filed.",
        "  P4 could not verify P2's Pedersen share → complaint filed.",
        "Complaints: dealer 1 disqualified (InQagg).",
        "Complaints: dealer 2 disqualified (LostDisputation).",
        "Complaints: QUAL = [0, 3].",
        "KeyGeneration: aggregated pk = (c1,c2,c3) over QUAL.",
        "KeyGeneration: reconstructed (c1,c2) from t+1=3 receivers - match: true.",
        "Protocol complete.",
    ];
    assert_eq!(s.session.log.len(), expected.len());
    for (line, want) in s.session.log.iter().zip(expected.iter()) {
        assert_eq!(line.as_str(), *want);
    }
    assert_eq!(s.session.disqualified[&2], DisqualificationReason::LostDisputation);
}

#[test]
fn everybody_rejected_leaves_no_key() {
    let mal: BTreeMap<usize, Malice> = (0..2).map(|i| (i, Malice::ZCommitment)).collect();
    let mut s = Run::new(2, Some(1), mal).unwrap();
    s.finish();
    let snap = s.session.snapshot();
    assert!(snap.qual.is_empty());
    assert!(snap.public_key.is_none());
    assert!(snap.z_approvals.is_empty());
    // Nothing was broadcast, and nobody shows a broadcast.
    assert!(!snap.z_transcript_broadcast);
    for p in snap.participants.iter() {
        assert_eq!(value(&p.communication, "z-tree · final transcript"), None);
    }
    assert!(snap.log.contains(
        &"z-Transcript broadcast: no valid transcript to broadcast (all dealers in Qagg)."
            .to_string()
    ));
    assert!(snap
        .log
        .contains(&"KeyGeneration: QUAL is empty - no key can be formed.".to_string()));
}

#[test]
fn note_on_a_high_threshold() {
    let s = Run::new(4, Some(3), BTreeMap::new()).unwrap();
    assert_eq!(s.session.log.len(), 2);
    assert_eq!(
        s.session.log[1],
        "Note: t-1=2 is not < n/2=2; the paper's adversary bound is exceeded."
    );
}

#[test]
fn unexpected_events_are_refused() {
    let mut s = Run::new(3, None, BTreeMap::new()).unwrap();
    let refused = Err("the event is not what the session waits for".to_string());
    assert_eq!(s.session.advance(Event::Continue, &mut s.rng), refused);
    assert_eq!(s.session.advance(Event::Dealt(vec![]), &mut s.rng), refused);
    assert_eq!(s.session.phase, Phase::Setup);
    s.advance().unwrap();
    assert_eq!(s.session.advance(Event::Verified(vec![true; 2]), &mut s.rng), refused);
    assert_eq!(s.session.pending(), Pending::Verification);
}

fn value<'a>(fields: &'a [Field], label: &str) -> Option<&'a str> {
    fields.iter().find(|f| f.label == label).map(|f| f.value.as_str())
}

#[test]
fn participants_show_public_and_private_state() {
    let mut mal = BTreeMap::new();
    mal.insert(0usize, Malice::PedersenShare);
    let mut s = Run::new(3, Some(2), mal).unwrap();
    let snap = s.session.snapshot();
    assert_eq!(snap.next_phase.as_deref(), Some("Distribution"));
    assert_eq!(snap.participants[2].public.len(), 3);
    assert_eq!(snap.participants[2].private.len(), 2);
    assert!(snap.participants[2].communication.is_empty());
    assert_eq!(snap.common.domain_size, 4);
    assert_eq!(snap.malice, vec![(0, "pedersen".to_string())]);
    s.finish();
    let snap = s.session.snapshot();
    assert_eq!(snap.next_phase, None);
    assert!(!snap.can_advance);
    assert_eq!(snap.reconstruction_threshold, 3);
    let p = &snap.participants[1];
    assert_eq!(value(&p.public, "Participant ID"), Some("1"));
    assert_eq!(
        value(&p.public, "Signature public key (G2)"),
        Some("0x0101010101010101…01010101 (96 B)")
    );
    assert_eq!(
        value(&p.public, "z-share verification"),
        Some("✓ accepted (in transcript)")
    );
    assert_eq!(
        value(&p.public, "z-transcript approval (broadcast)"),
        Some("✓ approved final transcript")
    );
    assert!(value(&p.public, "Pedersen commitments CM_0..CM_2")
        .unwrap()
        .starts_with("3 commitments, CM_0 = 0x"));
    assert_eq!(
        value(&p.public, "Encrypted shares dealt"),
        Some("3 ciphertexts (one per receiver)")
    );
    assert_eq!(
        value(&p.private, "Decrypted Pedersen shares (group elements)"),
        Some("from dealer 0: FAILED (complaint); from dealer 1: verified; from dealer 2: verified")
    );
    assert!(value(&p.private, "secret z_i (Fr)").unwrap().ends_with(" (32 B)"));
    assert_eq!(
        value(&p.private, "Accumulated z-secret share (G2)"),
        Some("0x0101010101010101…01010101 (96 B)")
    );
    assert_eq!(
        value(&p.communication, "z-layer · PVSS share sent"),
        Some("1 broadcast (1.5 KiB)")
    );
    assert_eq!(
        value(&p.communication, "Pedersen · encrypted shares dealt"),
        Some("3 sent → every receiver (1.1 KiB total)")
    );
    assert_eq!(
        value(&p.communication, "z-tree · gossip (aggregation)"),
        Some("1 partial transcript(s) sent up, 1 received")
    );
    assert_eq!(
        value(&p.communication, "z-tree · final transcript"),
        Some("1 received ← root P2")
    );
    let root = &snap.participants[2];
    assert_eq!(
        value(&root.communication, "z-tree · final transcript"),
        Some("root: broadcast to 2 peers")
    );
    let bad = &snap.participants[0];
    assert!(bad.malicious && !bad.in_qual && !bad.in_qagg);
    assert_eq!(bad.complaints_against, 1);
    assert_eq!(bad.malice_label, "corrupt Pedersen share (→ complaint)");
    assert_eq!(snap.complaints, vec![(0, 2)]);
}

#[test]
fn steps_are_announced() {
    let mut s = Run::new(3, Some(1), BTreeMap::new()).unwrap();
    let mut announced = vec![];
    while s.session.phase != Phase::Done {
        announced.push(s.session.snapshot().next_phase.unwrap());
        s.advance().unwrap();
    }
    assert_eq!(
        announced,
        vec![
            "Distribution",
            "z-Aggregation",
            "z-Aggregation (level 1/2)",
            "z-Aggregation (root, level 2/2)",
            "z-Transcript broadcast & approval",
            "Verification",
            "Complaints",
            "KeyGeneration",
            "Done",
        ]
    );
}

#[test]
fn tree_views_describe_their_levels() {
    let mut mal = BTreeMap::new();
    mal.insert(2usize, Malice::ZCommitment);
    let mut s = Run::new(5, Some(2), mal).unwrap();
    s.finish();
    let tree = s.session.snapshot().z_tree;
    assert_eq!(tree.len(), 4);
    assert_eq!(
        tree[0].description,
        "Individual z-share verification - each dealer's PVSS share is checked"
    );
    assert_eq!(tree[1].description, "3 groups aggregate pairwise (⌈log₂ n⌉ round 1)");
    assert_eq!(
        tree[3].description,
        "Root - 1 transcript(s) folded into the final aggregated transcript"
    );
    assert!(tree[0].is_leaf_level && tree[3].is_root_level);
    assert_eq!(tree[0].nodes[2].leaf_ok, Some(false));
    assert_eq!(tree[0].nodes[3].leaf_ok, Some(true));
    assert_eq!(tree[1].nodes[0].leaf_ok, None);
    assert_eq!(tree[2].nodes[0].real_participants, vec![0, 1, 2, 3]);
    assert_eq!(tree[2].nodes[1].real_participants, vec![4]);
    assert_eq!(tree[2].nodes[1].aggregator, Some(4));
}

#[test]
fn tree_plan_counts_messages() {
    for n in 1..12usize {
        let plan = build_z_tree_plan(n);
        let levels = plan.len();
        assert_eq!(z_root(&plan, n), Some(n - 1));
        let mut sent = 0;
        let mut received = 0;
        for i in 0..n {
            let (s, r) = z_tree_counts(&plan, n, levels, i);
            assert_eq!(s, if i == n - 1 { 0 } else { 1 });
            sent += s;
            received += r;
        }
        assert_eq!(sent, n - 1);
        assert_eq!(received, n - 1);
    }
    assert_eq!(z_root(&vec![], 3), None);
    assert_eq!(z_tree_counts(&vec![], 3, 0, 1), (0, 0));
}

#[test]
fn malice_tags_and_phases() {
    for m in [Malice::Honest, Malice::ZCommitment, Malice::PedersenShare, Malice::Both] {
        assert_eq!(Malice::from_tag(m.tag()), m);
    }
    assert_eq!(Malice::from_tag("?"), Malice::Honest);
    assert_eq!(Malice::ZCommitment.label(), "corrupt z (→ Qagg)");
    assert!(Malice::Both.corrupt_z() && Malice::Both.corrupt_pedersen());
    assert!(!Malice::PedersenShare.corrupt_z() && !Malice::ZCommitment.corrupt_pedersen());
    let mut p = Phase::Setup;
    let mut names = vec![];
    for i in 0..7 {
        assert_eq!(p.index(), i);
        names.push(p.name());
        p = p.next();
    }
    assert_eq!(p, Phase::Done);
    assert_eq!(names[2], "z-Aggregation");
}

#[test]
fn lowest_threshold_tolerates_no_complaint() {
    let mut mal = BTreeMap::new();
    mal.insert(2usize, Malice::PedersenShare);
    let mut s = Run::new(4, Some(1), mal).unwrap();
    s.finish();
    let snap = s.session.snapshot();
    // The victim of dealer 2 is the receiver at index 3, counted from one.
    assert_eq!(snap.complaints, vec![(2, 4)]);
    assert_eq!(snap.participants[2].disqualified_reason.as_deref(), Some("TooManyComplaints"));
    assert_eq!(snap.qual, vec![0, 1, 3]);
}

#[test]
fn tampering_is_what_was_drawn() {
    let mal: BTreeMap<usize, Malice> =
        [(0, Malice::ZCommitment), (1, Malice::Both), (2, Malice::PedersenShare)]
            .into_iter()
            .collect();
    let mut s = Run::new(4, Some(2), mal).unwrap();
    let tampering = Tampering {
        points: (0..4).map(|_| Point::random(&mut s.rng)).collect(),
        offsets: (1..5).map(Scalar::from_u64).collect(),
    };
    let points = tampering.points.clone();
    let z = match s.layer.event(&s.session, &mut s.rng) {
        Event::Dealt(z) => z,
        _ => unreachable!(),
    };
    s.session.do_distribution(z, tampering, &mut s.rng).unwrap();
    let published = &s.session.published;
    for i in 0..4usize {
        let honest = s.layer.base.mul(&s.layer.secrets[i]);
        let c_i = published.contributions[&i].dkg_share.c_i;
        assert_eq!(c_i, if i < 2 { points[i] } else { honest });
        for j in 0..4usize {
            let dealing = &published.dealings[i];
            let value = dealing.secrets.f.evaluate_at(j as i64 + 1);
            let shift = if (i == 1 || i == 2) && j == (i + 1) % 4 { i as u64 + 1 } else { 0 };
            assert_eq!(dealing.distribution.shares[j].sf, value.add(&Scalar::from_u64(shift)));
        }
    }
    s.finish();
    let snap = s.session.snapshot();
    assert_eq!(snap.qagg, vec![0, 1]);
    assert_eq!(snap.complaints, vec![(1, 3), (2, 4)]);
    assert_eq!(snap.qual, vec![3]);
    assert_eq!(snap.participants[1].disqualified_reason.as_deref(), Some("InQagg"));
    assert_eq!(snap.participants[2].disqualified_reason.as_deref(), Some("LostDisputation"));
    let drawn = points[0];
    let dealt = ZShare { c_i: s.layer.base, size: 9 };
    let sent = sent_share(Malice::PedersenShare, dealt, drawn);
    assert_eq!(sent.c_i, s.layer.base);
    assert_eq!(sent_share(Malice::Both, sent, drawn).c_i, drawn);
}
