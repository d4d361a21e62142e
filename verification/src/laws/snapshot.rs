//! What a session shows, in terms of what it holds.
use crate::algebra::{lemma_sum_eq, sum};
use crate::bls::Bls12381;
use crate::collections::{enumerates, increasing, law_listed};
use crate::curve::{encoded, scalar_encoded, Curve};
use crate::dkg::complaint::{Complaint, DisqualificationReason};
use crate::dkg::dmkg::{aggregates, part_sum, DMKGContribution};
use crate::laws::texts::law_hex_text_tells_apart;
use crate::parse::views;
use crate::sim::malice::Malice;
use crate::sim::phase::Phase;
use crate::sim::session::{DkgSession, ZShare};
use crate::sim::tree::{height, high, hits, is_level, is_node, law_root, low, width};
use crate::sim::view::{complained, complaints_about, shown, ParticipantView, Snapshot};
use crate::text::{bytes_text, decimal, hex_text, joined};
use vstd::arithmetic::power2::pow2;
use vstd::prelude::*;

verus! {

broadcast use {vstd::laws_cmp::group_laws_cmp, vstd::std_specs::btree::group_btree_axioms};

/// Each point of the key is shown by its own encoding, once a key is there: from the key generation
/// on, if anybody qualifies.
pub proof fn law_key_shown(s: DkgSession, v: Snapshot)
    requires
        s.wf(),
        s.shows_all(v),
    ensures
        v.public_key is Some <==> (s.phase == Phase::KeyGeneration || s.phase == Phase::Done)
            && s.qual@.len() > 0,
        v.public_key is Some ==> {
            let (key, pk) = (v.public_key->0, s.pk->0);
            &&& s.pk is Some
            &&& key.c1@ == hex_text(encoded(pk.c1))
            &&& key.c2@ == hex_text(encoded(pk.c2))
            &&& key.c3@ == hex_text(encoded(pk.c3))
            &&& key.reconstructed_ok == Some(true)
        },
{
}

/// Each point of the key is the sum of that point over the contributions of the dealers that are
/// shown as qualified.
pub proof fn law_key_is_sum_over_qualified(s: DkgSession, v: Snapshot)
    requires
        s.wf(),
        s.shows_all(v),
        v.public_key is Some,
    ensures
        ({
            let (all, n, m) = (
                s.published.contributions@,
                v.qual.len() as int,
                Bls12381::order(),
            );
            let pk = s.pk->0;
            &&& pk.c1@ == sum(|k: int| all[v.qual[k]].c1_i@, 0, n) % m
            &&& pk.c2@ == sum(|k: int| all[v.qual[k]].c2_i@, 0, n) % m
            &&& pk.c3@ == sum(|k: int| all[v.qual[k]].c3_i@, 0, n) % m
        }),
{
    let (all, n) = (s.published.contributions@, v.qual.len() as int);
    let pk = s.pk->0;
    let order = choose|order: Seq<usize>|
        #[trigger] enumerates(order, s.qual@) && aggregates(pk, all, order);
    crate::collections::lemma_listed(order);
    assert(order == v.qual@);
    let (p1, p2, p3) = (
        |c: DMKGContribution<Bls12381, ZShare>| c.c1_i@,
        |c: DMKGContribution<Bls12381, ZShare>| c.c2_i@,
        |c: DMKGContribution<Bls12381, ZShare>| c.c3_i@,
    );
    assert forall|k: int| 0 <= k < n implies all.contains_key(#[trigger] order[k]) by {
        assert(order.to_set().contains(order[k]));
        crate::sim::session::law_qualified_or_not(s, order[k]);
    }
    lemma_part(all, order, p1, |k: int| all[v.qual[k]].c1_i@);
    lemma_part(all, order, p2, |k: int| all[v.qual[k]].c2_i@);
    lemma_part(all, order, p3, |k: int| all[v.qual[k]].c3_i@);
}

proof fn lemma_part(
    all: Map<usize, DMKGContribution<Bls12381, ZShare>>,
    order: Seq<usize>,
    part: spec_fn(DMKGContribution<Bls12381, ZShare>) -> int,
    term: spec_fn(int) -> int,
)
    requires
        forall|k: int| 0 <= k < order.len() ==> all.contains_key(#[trigger] order[k]),
        forall|k: int| 0 <= k < order.len() ==> #[trigger] term(k) == part(all[order[k]]),
    ensures
        part_sum(all, order, part, order.len() as int) == sum(term, 0, order.len() as int),
{
    let f = |k: int|
        if all.contains_key(order[k]) {
            part(all[order[k]])
        } else {
            0
        };
    assert forall|k: int| 0 <= k < order.len() implies #[trigger] f(k) == term(k) by {
        assert(all.contains_key(order[k]));
    }
    lemma_sum_eq(f, term, 0, order.len() as int);
}

/// Sessions whose keys differ in a point, in a byte of its encoding that is displayed, show different
/// texts for that point.
pub proof fn law_different_keys_shown_apart(
    s: DkgSession,
    v: Snapshot,
    other: DkgSession,
    w: Snapshot,
    i: int,
)
    requires
        s.wf(),
        s.shows_all(v),
        other.wf(),
        other.shows_all(w),
        v.public_key is Some,
        w.public_key is Some,
        0 <= i < 48,
        i < 8 || i >= 44,
    ensures
        ({
            let (a, b) = (encoded(s.pk->0.c1), encoded(other.pk->0.c1));
            a.len() == 48 && b.len() == 48 && a[i] != b[i] ==> v.public_key->0.c1@
                != w.public_key->0.c1@
        }),
        ({
            let (a, b) = (encoded(s.pk->0.c2), encoded(other.pk->0.c2));
            a.len() == 48 && b.len() == 48 && a[i] != b[i] ==> v.public_key->0.c2@
                != w.public_key->0.c2@
        }),
        ({
            let (a, b) = (encoded(s.pk->0.c3), encoded(other.pk->0.c3));
            a.len() == 48 && b.len() == 48 && a[i] != b[i] ==> v.public_key->0.c3@
                != w.public_key->0.c3@
        }),
{
    let (p, q) = (s.pk->0, other.pk->0);
    if encoded(p.c1).len() == 48 && encoded(q.c1).len() == 48 && encoded(p.c1)[i] != encoded(
        q.c1,
    )[i] {
        law_hex_text_tells_apart(encoded(p.c1), encoded(q.c1), i);
    }
    if encoded(p.c2).len() == 48 && encoded(q.c2).len() == 48 && encoded(p.c2)[i] != encoded(
        q.c2,
    )[i] {
        law_hex_text_tells_apart(encoded(p.c2), encoded(q.c2), i);
    }
    if encoded(p.c3).len() == 48 && encoded(q.c3).len() == 48 && encoded(p.c3)[i] != encoded(
        q.c3,
    )[i] {
        law_hex_text_tells_apart(encoded(p.c3), encoded(q.c3), i);
    }
}

/// The lists show their sets: every member once, in ascending order, and nobody else.
pub proof fn law_sets_shown(s: DkgSession, v: Snapshot, i: usize)
    requires
        s.shows_all(v),
    ensures
        increasing(v.qual@),
        v.qual@.contains(i) <==> s.qual@.contains(i),
        increasing(v.qagg@),
        v.qagg@.contains(i) <==> s.qagg@.contains(i),
        increasing(v.malicious@),
        v.malicious@.contains(i) <==> s.common.malice@.contains_key(i),
        v.malice.len() == v.malicious.len(),
        forall|k: int|
            0 <= k < v.malice.len() ==> (#[trigger] v.malice[k]).0 == v.malicious[k] && {
                let m = s.common.malice@[v.malicious[k]];
                &&& m == Malice::ZCommitment ==> v.malice[k].1@ == "z"@
                &&& m == Malice::PedersenShare ==> v.malice[k].1@ == "pedersen"@
                &&& m == Malice::Both ==> v.malice[k].1@ == "both"@
            },
{
    law_listed(s.qual@);
    law_listed(s.qagg@);
    law_listed(s.common.malice@.dom());
    let tags = v.malice@.map_values(|t: (usize, String)| (t.0, t.1@));
    assert(tags == s.tags());
    assert forall|k: int| 0 <= k < v.malice.len() implies (#[trigger] v.malice[k]).0
        == v.malicious[k] && v.malice[k].1@ == s.common.malice@[v.malicious[k]].tag_text() by {
        assert(tags[k] == (v.malice[k].0, v.malice[k].1@));
        assert(tags[k] == s.tags()[k]);
    }
}

/// The configuration, the complaints and the log are shown as they are.
pub proof fn law_state_shown(s: DkgSession, v: Snapshot)
    requires
        s.shows_all(v),
    ensures
        v.n == s.common.n,
        v.degree == s.common.degree,
        v.reconstruction_threshold == s.common.degree + 1,
        v.participants.len() == s.common.n,
        v.complaints.len() == s.complaints.len(),
        forall|k: int|
            0 <= k < v.complaints.len() ==> (#[trigger] v.complaints[k]).0 == s.complaints[k].dealer
                && v.complaints[k].1 == s.complaints[k].complainer,
        v.log.len() == s.log.len(),
        forall|k: int| 0 <= k < v.log.len() ==> (#[trigger] v.log[k])@ == s.log[k]@,
{
    let pairs = s.complaints@.map_values(|c: Complaint| (c.dealer, c.complainer));
    assert forall|k: int| 0 <= k < v.complaints.len() implies (#[trigger] v.complaints[k]).0
        == s.complaints[k].dealer && v.complaints[k].1 == s.complaints[k].complainer by {
        assert(pairs[k] == v.complaints[k]);
    }
    assert(views(v.log@).len() == v.log.len());
    assert(views(s.log@).len() == s.log.len());
    assert forall|k: int| 0 <= k < v.log.len() implies (#[trigger] v.log[k])@ == s.log[k]@ by {
        assert(views(v.log@)[k] == v.log[k]@);
        assert(views(s.log@)[k] == s.log[k]@);
    }
}

/// The phase is shown by its name and its number, and only a finished session cannot go on.
pub proof fn law_phase_shown(s: DkgSession, v: Snapshot)
    requires
        s.shows_all(v),
    ensures
        s.phase == Phase::Setup ==> v.phase@ == "Setup"@ && v.phase_index == 0,
        s.phase == Phase::Distribution ==> v.phase@ == "Distribution"@ && v.phase_index == 1,
        s.phase == Phase::ZAggregation ==> v.phase@ == "z-Aggregation"@ && v.phase_index == 2,
        s.phase == Phase::Verification ==> v.phase@ == "Verification"@ && v.phase_index == 3,
        s.phase == Phase::Complaints ==> v.phase@ == "Complaints"@ && v.phase_index == 4,
        s.phase == Phase::KeyGeneration ==> v.phase@ == "KeyGeneration"@ && v.phase_index == 5,
        s.phase == Phase::Done ==> v.phase@ == "Done"@ && v.phase_index == 6,
        v.can_advance <==> s.phase != Phase::Done,
        v.next_phase is Some <==> v.can_advance,
{
}

/// The next step is announced: the next phase, or within the aggregation the next level of the tree,
/// then the broadcast, then the verification.
pub proof fn law_next_step_shown(s: DkgSession, v: Snapshot)
    requires
        s.wf(),
        s.shows_all(v),
        s.phase != Phase::Done,
    ensures
        ({
            let text = v.next_phase->0@;
            let (done, total) = (s.z_levels_done as nat, s.z_tree_plan.len() as nat);
            &&& s.phase == Phase::Setup ==> text == "Distribution"@
            &&& s.phase == Phase::Distribution ==> text == "z-Aggregation"@
            &&& s.phase == Phase::Verification ==> text == "Complaints"@
            &&& s.phase == Phase::Complaints ==> text == "KeyGeneration"@
            &&& s.phase == Phase::KeyGeneration ==> text == "Done"@
            &&& s.phase == Phase::ZAggregation && done < total - 1 ==> text
                == "z-Aggregation (level "@ + decimal(done) + "/"@ + decimal((total - 1) as nat)
                + ")"@
            &&& s.phase == Phase::ZAggregation && done == total - 1 ==> text
                == "z-Aggregation (root, level "@ + decimal(done) + "/"@ + decimal(
                (total - 1) as nat,
            ) + ")"@
            &&& s.phase == Phase::ZAggregation && done == total && !s.z_done ==> text
                == "z-Transcript broadcast & approval"@
            &&& s.phase == Phase::ZAggregation && done == total && s.z_done ==> text
                == "Verification"@
        }),
{
}

/// The state of the aggregation is shown: the levels, those folded, the root once there is a tree, and
/// every participant's answer once the transcript is broadcast.
pub proof fn law_aggregation_shown(s: DkgSession, v: Snapshot, i: int)
    requires
        s.wf(),
        s.shows_all(v),
        0 <= i < s.common.n,
    ensures
        v.z_total_levels == s.z_tree_plan.len(),
        v.z_tree.len() == s.z_tree_plan.len(),
        v.z_levels_done == s.z_levels_done,
        v.z_root is Some <==> s.z_tree_plan.len() > 0,
        v.z_root is Some ==> v.z_root->0 == s.common.n - 1,
        v.z_transcript_broadcast <==> s.z_approvals is Some,
        s.z_approvals is None ==> v.z_approvals.len() == 0,
        s.z_approvals is Some ==> v.z_approvals.len() == s.common.n && v.z_approvals[i].0 == i
            && (v.z_approvals[i].1 <==> s.z_approvals->0[i] is Some),
{
}

/// Participant `i` stands in the node at place `i / 2^k` of level `k` of the tree and in no other; the
/// nodes list their participants in ascending order, and the last of these aggregates.
pub proof fn law_tree_shown(s: DkgSession, v: Snapshot, k: int, j: int, i: usize)
    requires
        s.wf(),
        s.shows_all(v),
        0 <= k < v.z_tree.len(),
        0 <= j < v.z_tree[k].nodes.len(),
    ensures
        ({
            let level = v.z_tree[k];
            let node = level.nodes[j];
            &&& level.level == k
            &&& level.is_leaf_level <==> k == 0
            &&& (level.nodes.len() - 1) * pow2(k as nat) < s.common.n <= level.nodes.len() * pow2(
                k as nat,
            )
            &&& level.is_root_level <==> k == v.z_tree.len() - 1
            &&& k == 0 ==> level.description@
                == "Individual z-share verification - each dealer's PVSS share is checked"@
            &&& 0 < k < v.z_tree.len() - 1 ==> level.description@ == decimal(
                level.nodes.len() as nat,
            ) + " groups aggregate pairwise (⌈log₂ n⌉ round "@ + decimal(k as nat) + ")"@
            &&& 0 < k == v.z_tree.len() - 1 ==> level.description@ == "Root - "@ + decimal(1)
                + " transcript(s) folded into the final aggregated transcript"@
            &&& node.position == j
            &&& node.real_participants.len() > 0
            &&& increasing(node.real_participants@)
            &&& node.real_participants@.contains(i) <==> i < s.common.n && i as int / (
            pow2(k as nat) as int) == j
            &&& node.aggregator == Some(node.real_participants@.last())
            &&& k == 0 ==> node.leaf_ok == Some(s.z_leaf_results@[j as usize])
            &&& k > 0 ==> node.leaf_ok is None
            &&& k == v.z_tree.len() - 1 ==> level.nodes.len() == 1 && node.real_participants.len()
                == s.common.n
        }),
{
    let n = s.common.n as int;
    let level = v.z_tree[k];
    assert(s.shows_level(k, level));
    assert(s.shows_node(k, j, level.nodes[j]));
    assert(is_level(s.z_tree_plan[k]@, n, k as nat));
    assert(is_node(s.z_tree_plan[k]@[j], n, k as nat, j));
    let members = level.nodes[j].real_participants@;
    let w = pow2(k as nat) as int;
    vstd::arithmetic::power2::lemma_pow2_pos(k as nat);
    let (lo, hi) = (low(k as nat, j), high(n, k as nat, j));
    crate::sim::tree::lemma_width(n, k as nat);
    assert(0 <= lo < hi <= n) by {
        assert(0 <= j * w <= (width(n, k as nat) - 1) * w && j * w < (j + 1) * w)
            by (nonlinear_arith)
            requires
                0 <= j <= width(n, k as nat) - 1,
                w > 0,
        ;
    }
    assert(members == crate::sim::tree::span(lo, hi));
    assert(members.contains(i) <==> lo <= i < hi) by {
        if lo <= i < hi {
            assert(members[i - lo] == i);
        }
    }
    if i < n {
        vstd::arithmetic::div_mod::lemma_fundamental_div_mod(i as int, w);
        let q = i as int / w;
        assert(w * q <= i < w * q + w);
        assert(w * q == q * w && (q + 1) * w == q * w + w && (j + 1) * w == j * w + w)
            by (nonlinear_arith);
        if q == j {
        } else if q < j {
            assert(q * w + w <= j * w) by (nonlinear_arith)
                requires
                    q + 1 <= j,
                    w > 0,
            ;
        } else {
            assert(j * w + w <= q * w) by (nonlinear_arith)
                requires
                    j + 1 <= q,
                    w > 0,
            ;
        }
    }
    law_root(n);
}

/// The parts of the common reference are each shown by their own encoding.
pub proof fn law_reference_shown(s: DkgSession, v: Snapshot)
    requires
        s.shows_all(v),
    ensures
        v.common.g_g1@ == hex_text(s.common.setup.g_g1@),
        v.common.h_g2@ == hex_text(s.common.setup.h_g2@),
        v.common.u_1@ == hex_text(s.common.setup.u_1@),
        v.common.ped_g1@ == hex_text(encoded(s.common.suite.generators.g1)),
        v.common.ped_g2@ == hex_text(encoded(s.common.suite.generators.g2)),
        v.common.ped_h1@ == hex_text(encoded(s.common.suite.generators.h1)),
        v.common.ped_h2@ == hex_text(encoded(s.common.suite.generators.h2)),
        v.common.elgamal_base@ == hex_text(encoded(s.common.suite.base.g)),
        v.common.domain_size == s.common.domain_size,
{
}

/// The filter keeps as many complaints as name the dealer.
proof fn lemma_complaints_about(complaints: Seq<Complaint>, i: usize)
    ensures
        complaints_about(complaints, i) == sum(
            |k: int|
                if complaints[k].dealer == i {
                    1
                } else {
                    0
                },
            0,
            complaints.len() as int,
        ),
    decreases complaints.len(),
{
    let p = |c: Complaint| c.dealer == i;
    reveal_with_fuel(Seq::filter, 1);
    if complaints.len() > 0 {
        let less = complaints.drop_last();
        lemma_complaints_about(less, i);
        let f = |k: int|
            if complaints[k].dealer == i {
                1
            } else {
                0
            };
        let g = |k: int|
            if less[k].dealer == i {
                1
            } else {
                0
            };
        lemma_sum_eq(f, g, 0, less.len() as int);
    }
}

/// What is known of a participant's conduct and fate.
pub proof fn law_participant_shown(s: DkgSession, i: usize, v: ParticipantView)
    requires
        s.wf(),
        i < s.common.n,
        s.shows(i, v),
    ensures
        v.id == i,
        v.malicious <==> s.common.malice@.contains_key(i),
        !v.malicious ==> v.malice@ == "honest"@ && v.malice_label@ == "honest"@,
        v.malicious ==> {
            let m = s.common.malice@[i];
            &&& m == Malice::ZCommitment ==> v.malice@ == "z"@ && v.malice_label@
                == "corrupt z (→ Qagg)"@
            &&& m == Malice::PedersenShare ==> v.malice@ == "pedersen"@ && v.malice_label@
                == "corrupt Pedersen share (→ complaint)"@
            &&& m == Malice::Both ==> v.malice@ == "both"@ && v.malice_label@ == "corrupt both"@
        },
        v.in_qagg <==> s.qagg@.contains(i),
        v.in_qual <==> s.qual@.contains(i),
        v.complaints_against == sum(
            |k: int|
                if s.complaints[k].dealer == i {
                    1
                } else {
                    0
                },
            0,
            s.complaints.len() as int,
        ),
        v.disqualified_reason is Some <==> s.disqualified@.contains_key(i),
        v.disqualified_reason is Some ==> {
            let (text, reason) = (v.disqualified_reason->0@, s.disqualified@[i]);
            &&& reason == DisqualificationReason::InQagg ==> text == "InQagg"@
            &&& reason == DisqualificationReason::TooManyComplaints ==> text
                == "TooManyComplaints"@
            &&& reason == DisqualificationReason::LostDisputation ==> text == "LostDisputation"@
        },
{
    lemma_complaints_about(s.complaints@, i);
    lemma_sum_eq(
        |k: int|
            if s.complaints@[k].dealer == i {
                1
            } else {
                0
            },
        |k: int|
            if s.complaints[k].dealer == i {
                1
            } else {
                0
            },
        0,
        s.complaints.len() as int,
    );
}

/// What everybody knows of a participant: its number, its public keys, the outcome of the layer for
/// `z`, and once it has dealt its contribution, each under its own label.
pub proof fn law_public_fields(s: DkgSession, i: usize, v: ParticipantView)
    requires
        s.wf(),
        i < s.common.n,
        s.shows(i, v),
    ensures
        ({
            let fields = shown(v.public@);
            let c = s.published.contributions@[i];
            let checked: int = if s.z_leaf_results@.contains_key(i) {
                1
            } else {
                0
            };
            let answered: int = if s.z_approvals is Some {
                1
            } else {
                0
            };
            let at = 3 + checked + answered;
            &&& fields[0] == ("Participant ID"@, decimal(i as nat))
            &&& fields[1] == (
                "Signature public key (G2)"@,
                hex_text(s.common.setup.keys[i as int].1@),
            )
            &&& fields[2] == (
                "ElGamal public key (G1)"@,
                hex_text(encoded(s.common.suite.elgamal[i as int].pk)),
            )
            &&& checked == 1 && s.z_leaf_results@[i] ==> fields[3] == (
                "z-share verification"@,
                "✓ accepted (in transcript)"@,
            )
            &&& checked == 1 && !s.z_leaf_results@[i] ==> fields[3] == (
                "z-share verification"@,
                "✗ rejected → Qagg"@,
            )
            &&& answered == 1 && s.z_approvals->0[i as int] is Some ==> fields[3 + checked] == (
                "z-transcript approval (broadcast)"@,
                "✓ approved final transcript"@,
            )
            &&& answered == 1 && s.z_approvals->0[i as int] is None ==> fields[3 + checked] == (
                "z-transcript approval (broadcast)"@,
                "✗ rejected final transcript"@,
            )
            &&& s.phase == Phase::Setup ==> fields.len() == at
            &&& s.phase != Phase::Setup ==> {
                &&& fields.len() == at + 6
                &&& fields[at] == ("z commitment c_i (G1)"@, hex_text(encoded(c.dkg_share.c_i)))
                &&& fields[at + 1] == (
                    "Pedersen commitments CM_0..CM_"@ + decimal(s.common.degree as nat),
                    decimal(c.commitments.len() as nat) + " commitments, CM_0 = "@ + hex_text(
                        encoded(c.commitments[0]),
                    ),
                )
                &&& fields[at + 2] == ("pk contribution c1_i (G1)"@, hex_text(encoded(c.c1_i)))
                &&& fields[at + 3] == ("pk contribution c2_i (G1)"@, hex_text(encoded(c.c2_i)))
                &&& fields[at + 4] == (
                    "pk contribution c3_i = g1^{z_i} (G1)"@,
                    hex_text(encoded(c.c3_i)),
                )
                &&& fields[at + 5] == (
                    "Encrypted shares dealt"@,
                    decimal(c.encrypted_shares.len() as nat) + " ciphertexts (one per receiver)"@,
                )
            }
        }),
{
    let c = s.published.contributions@[i];
    if s.phase != Phase::Setup {
        assert(s.published.contributions@.contains_key(i));
        assert(s.published.dealings[i as int].valid(
            s.common.suite.generators,
            s.common.suite.base,
            s.common.suite.receiver_pks@,
            s.common.degree as int,
        ));
        assert(c.commitments.len() == s.common.degree + 1);
        assert(c.encrypted_shares.len() == s.common.n);
    }
}

/// What a participant knows alone: its secret keys, and once it has dealt its five secrets, each under
/// its own label.
pub proof fn law_private_fields(s: DkgSession, i: usize, v: ParticipantView)
    requires
        s.wf(),
        i < s.common.n,
        s.shows(i, v),
    ensures
        ({
            let fields = shown(v.private@);
            let secrets = s.published.dealings[i as int].secrets;
            let dealt: int = if s.phase == Phase::Setup {
                0
            } else {
                5
            };
            let checks: int = if s.phase == Phase::Setup || s.phase == Phase::Distribution
                || s.phase == Phase::ZAggregation {
                0
            } else {
                1
            };
            let approves = s.z_approvals is Some && s.z_approvals->0[i as int] is Some;
            &&& fields[0] == (
                "Signature secret key (Fr)"@,
                hex_text(s.common.setup.keys[i as int].0@),
            )
            &&& fields[1] == (
                "ElGamal secret key (Fr)"@,
                hex_text(scalar_encoded(s.common.suite.elgamal[i as int].sk)),
            )
            &&& s.phase != Phase::Setup ==> {
                &&& fields[2] == (
                    "secret z_i (Fr)"@,
                    hex_text(scalar_encoded(s.z_secrets[i as int])),
                )
                &&& fields[3] == ("secret x1 (Fr)"@, hex_text(scalar_encoded(secrets.x1)))
                &&& fields[4] == ("secret x2 (Fr)"@, hex_text(scalar_encoded(secrets.x2)))
                &&& fields[5] == ("secret y1 (Fr)"@, hex_text(scalar_encoded(secrets.y1)))
                &&& fields[6] == ("secret y2 (Fr)"@, hex_text(scalar_encoded(secrets.y2)))
            }
            &&& checks == 1 ==> fields[2 + dealt].0 == "Decrypted Pedersen shares (group elements)"@
            &&& approves ==> fields[2 + dealt + checks] == (
                "Accumulated z-secret share (G2)"@,
                hex_text(s.z_approvals->0[i as int]->0@),
            )
            &&& fields.len() == 2 + dealt + checks + if approves {
                1int
            } else {
                0
            }
        }),
{
}

/// From the verification on a participant shows for every dealer, in order, whether the share that it
/// had from the dealer checked, which it does unless the participant complained.
pub proof fn law_receipts(s: DkgSession, i: usize, v: ParticipantView, d: usize)
    requires
        s.wf(),
        i < s.common.n,
        d < s.common.n,
        s.shows(i, v),
        s.phase != Phase::Setup,
        s.phase != Phase::Distribution,
        s.phase != Phase::ZAggregation,
    ensures
        ({
            let lines = s.receipts(i);
            &&& shown(v.private@)[7].1 == joined(lines, "; "@)
            &&& lines.len() == s.common.n
            &&& complained(s.complaints@, d, (i + 1) as usize) ==> lines[d as int]
                == "from dealer "@ + decimal(d as nat) + ": "@ + "FAILED (complaint)"@
            &&& !complained(s.complaints@, d, (i + 1) as usize) ==> lines[d as int]
                == "from dealer "@ + decimal(d as nat) + ": "@ + "verified"@
        }),
{
}

/// The messages of a participant that has dealt: the share of `z` with its size, an encrypted share
/// for everybody, eight encoded points each, and as many received.
pub proof fn law_dealing_messages(s: DkgSession, i: usize, v: ParticipantView)
    requires
        s.wf(),
        i < s.common.n,
        s.shows(i, v),
        s.phase != Phase::Setup,
    ensures
        ({
            let fields = shown(v.communication@);
            let (n, c) = (s.common.n, s.published.contributions@[i]);
            &&& fields[0] == (
                "z-layer · PVSS share sent"@,
                "1 broadcast ("@ + bytes_text(c.dkg_share.size as int) + ")"@,
            )
            &&& fields[1] == (
                "Pedersen · encrypted shares dealt"@,
                decimal(n as nat) + " sent → every receiver ("@ + bytes_text(384 * n) + " total)"@,
            )
            &&& fields[2] == (
                "Pedersen · encrypted shares received"@,
                decimal(n as nat) + " received ← every dealer"@,
            )
        }),
{
    assert(8 * Bls12381::encoding_len() == 384);
}

/// Once the tree is folded the participants show what they sent up it: the root nothing, everybody
/// else one transcript; and once the transcript is broadcast, the root says so to the others.
pub proof fn law_folding_messages(s: DkgSession, i: usize, v: ParticipantView)
    requires
        s.wf(),
        i < s.common.n,
        s.shows(i, v),
        s.z_approvals is Some,
    ensures
        ({
            let (fields, n) = (shown(v.communication@), s.common.n);
            let label = "z-tree · final transcript"@;
            &&& fields.len() >= 4
            &&& i == n - 1 ==> fields.last() == (
                label,
                "root: broadcast to "@ + decimal((n - 1) as nat) + " peers"@,
            )
            &&& i < n - 1 ==> fields.last() == (
                label,
                "1 received ← root "@ + ("P"@ + decimal((n - 1) as nat)),
            )
            &&& i < n - 1 ==> fields[3] == (
                "z-tree · gossip (aggregation)"@,
                "1"@ + " partial transcript(s) sent up, "@ + decimal(
                    hits(n as int, i as int, 1, height(n as int) - 1) as nat,
                ) + " received"@,
            )
        }),
{
    let n = s.common.n as int;
    crate::sim::tree::law_everybody_sends_once(n, i as int);
    reveal_strlit("1");
    assert(decimal(1) =~= "1"@);
    if i < n - 1 {
        let fields = shown(v.communication@);
        assert(s.dealing_fields(i).len() == 3);
        assert(fields[3] == s.gossip_fields(i)[0]);
    }
}

/// While the tree is folded a participant shows what it has sent up and received on the levels that
/// are folded, if it is anything.
pub proof fn law_gossip_messages(s: DkgSession, i: usize, v: ParticipantView)
    requires
        s.wf(),
        i < s.common.n,
        s.shows(i, v),
        s.phase != Phase::Setup,
    ensures
        ({
            let (fields, n) = (shown(v.communication@), s.common.n as int);
            let (sent, received) = (
                hits(n, i as int, 0, s.z_levels_done - 1),
                hits(n, i as int, 1, s.z_levels_done - 1),
            );
            let broadcast: int = if s.z_approvals is Some {
                1
            } else {
                0
            };
            &&& sent > 0 || received > 0 ==> fields.len() == 4 + broadcast && fields[3] == (
                "z-tree · gossip (aggregation)"@,
                decimal(sent as nat) + " partial transcript(s) sent up, "@ + decimal(
                    received as nat,
                ) + " received"@,
            )
            &&& !(sent > 0 || received > 0) ==> fields.len() == 3 + broadcast
        }),
{
}

} // verus!
