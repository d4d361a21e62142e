//! What the lines of a session's log, and the descriptions of errors, say.
use crate::collections::listed;
use crate::dkg::complaint::{Complaint, DisqualificationReason};
use crate::dkg::errors::{raised, DKGError, VssError};
use crate::laws::texts::{law_decimal_tells_apart, law_joined};
use crate::sim::lines::{malice_text, name_text, names_text};
use crate::sim::malice::Malice;
use crate::sim::session::{malice_at, setup_lines, DkgSession};
use crate::sim::tree::ZTreePlanNode;
use crate::text::{decimal, numbers_text};
use vstd::prelude::*;

verus! {

/// A participant is named by a `P` and its number, and different participants differently.
pub proof fn law_names(a: nat, b: nat)
    ensures
        name_text(a as int).len() == decimal(a).len() + 1,
        name_text(a as int)[0] == 'P',
        name_text(a as int).skip(1) == decimal(a),
        name_text(a as int) == name_text(b as int) ==> a == b,
{
    reveal_strlit("P");
    assert(name_text(a as int).skip(1) =~= decimal(a));
    assert(name_text(b as int).skip(1) =~= decimal(b));
    if name_text(a as int) == name_text(b as int) {
        law_decimal_tells_apart(a, b);
    }
}

/// Participants are listed by their names, in the order given and with the separator between them.
pub proof fn law_names_listed(ids: Seq<usize>, sep: Seq<char>, last: usize)
    ensures
        names_text(Seq::empty(), sep) == Seq::<char>::empty(),
        names_text(seq![last], sep) == "P"@ + decimal(last as nat),
        ids.len() > 0 ==> names_text(ids.push(last), sep) == names_text(ids, sep) + sep + ("P"@
            + decimal(last as nat)),
{
    let f = |id: usize| name_text(id as int);
    assert(Seq::<usize>::empty().map_values(f) =~= Seq::empty());
    assert(seq![last].map_values(f) =~= seq![name_text(last as int)]);
    assert(ids.push(last).map_values(f) =~= ids.map_values(f).push(name_text(last as int)));
    law_joined(ids.map_values(f), sep, name_text(last as int));
}

/// Who misbehaves is listed as name and tag, in the order given; where nobody does, the word is
/// `none`.
pub proof fn law_misbehaviour_listed(ids: Seq<usize>, malice: Map<usize, Malice>, last: usize)
    ensures
        malice_text(Seq::empty(), malice) == "none"@,
        malice[last] == Malice::ZCommitment ==> malice_text(seq![last], malice) == "P"@ + decimal(
            last as nat,
        ) + "="@ + "z"@,
        malice[last] == Malice::PedersenShare ==> malice_text(seq![last], malice) == "P"@ + decimal(
            last as nat,
        ) + "="@ + "pedersen"@,
        malice[last] == Malice::Both ==> malice_text(seq![last], malice) == "P"@ + decimal(
            last as nat,
        ) + "="@ + "both"@,
        ids.len() > 0 ==> malice_text(ids.push(last), malice) == malice_text(ids, malice) + ", "@
            + malice_text(seq![last], malice),
{
    let f = |id: usize| name_text(id as int) + "="@ + malice[id].tag_text();
    assert(seq![last].map_values(f) =~= seq![f(last)]);
    assert(ids.push(last).map_values(f) =~= ids.map_values(f).push(f(last)));
    law_joined(ids.map_values(f), ", "@, f(last));
}

/// The log starts with the configuration, and a note where twice the number of faults that the
/// threshold allows reaches the number of participants.
pub proof fn law_first_lines(n: int, t: int, malice: Map<usize, Malice>)
    requires
        n >= 1,
        t >= 1,
    ensures
        ({
            let lines = setup_lines(n, t, malice);
            let who = malice_text(listed(malice.dom()), malice);
            &&& lines[0] == "Setup: n="@ + decimal(n as nat) + ", threshold t="@ + decimal(t as nat)
                + " (reconstruct from t+1="@ + decimal((t + 1) as nat) + "), malicious=["@ + who
                + "]."@
            &&& 2 * (t - 1) < n ==> lines.len() == 1
            &&& 2 * (t - 1) >= n ==> lines.len() == 2 && lines[1] == "Note: t-1="@ + decimal(
                (t - 1) as nat,
            ) + " is not < n/2="@ + decimal((n / 2) as nat)
                + "; the paper's adversary bound is exceeded."@
        }),
{
}

/// Every dealer has a line on what it dealt, which says how it misbehaved and to whom: its victim is
/// the next participant, the first one's number being one.
pub proof fn law_distribution_lines(s: DkgSession, i: usize)
    requires
        s.wf(),
        i < s.common.n,
    ensures
        ({
            let lines = s.distribution_lines();
            let (n, who) = (s.common.n as nat, malice_at(s.common.malice@, i));
            let victim: nat = if i == n - 1 {
                1
            } else {
                (i + 2) as nat
            };
            let line = lines[i as int];
            &&& lines.len() == n
            &&& who == Malice::Honest ==> line == "Distribution: dealer "@ + decimal(i as nat)
                + " dealt "@ + decimal((s.common.degree + 1) as nat) + " commitments and "@
                + decimal(n) + " encrypted shares."@
            &&& who == Malice::ZCommitment ==> line == "Distribution: dealer "@ + decimal(i as nat)
                + " (malicious) tampered its z commitment (→ Qagg); its Pedersen shares are honest."@
            &&& who == Malice::PedersenShare ==> line == "Distribution: dealer "@ + decimal(
                i as nat,
            ) + " (malicious) dealt an inconsistent Pedersen share to receiver "@ + decimal(victim)
                + " (→ complaint); its z share is honest."@
            &&& who == Malice::Both ==> line == "Distribution: dealer "@ + decimal(i as nat)
                + " (malicious) tampered its z commitment (→ Qagg) AND its Pedersen share to receiver "@
                + decimal(victim) + " (→ complaint)."@
        }),
{
    let n = s.common.n as int;
    if i == n - 1 {
        vstd::arithmetic::div_mod::lemma_mod_self_0(n);
    } else {
        assert((i + 1) % n == i + 1) by {
            vstd::arithmetic::div_mod::lemma_small_mod((i + 1) as nat, n as nat);
        }
    }
}

/// The verification of shares of `z` has a heading, a line for every dealer and one with all that
/// were rejected.
pub proof fn law_leaf_lines(n: int, ok: Seq<bool>, qagg: Set<usize>, i: int)
    requires
        0 <= i < n,
    ensures
        ({
            let lines = DkgSession::leaf_lines(n, ok, qagg);
            &&& lines.len() == n + 2
            &&& lines[0] == "z-Aggregation [level 0 - leaf verification]:"@
            &&& ok[i] ==> lines[i + 1] == "  "@ + ("P"@ + decimal(i as nat))
                + " z-share verified ✓ (added to transcript)"@
            &&& !ok[i] ==> lines[i + 1] == "  "@ + ("P"@ + decimal(i as nat))
                + " z-share REJECTED ✗ → added to Qagg"@
            &&& listed(qagg).len() == 0 ==> lines[n + 1] == "  All shares accepted - Qagg = ∅."@
            &&& listed(qagg).len() > 0 ==> lines[n + 1] == "  Qagg = {"@ + names_text(
                listed(qagg),
                ", "@,
            ) + "}."@
        }),
{
}

/// A level of the tree has a heading and a line for every group, with its members, who aggregates and
/// whether a rejected dealer is among them.
pub proof fn law_level_lines(nodes: Seq<ZTreePlanNode>, level: int, qagg: Set<usize>, j: int)
    requires
        0 <= j < nodes.len(),
    ensures
        ({
            let lines = DkgSession::level_lines(nodes, level, qagg);
            let start = "  group "@ + decimal(j as nat) + ": ["@ + names_text(nodes[j].real@, "+"@)
                + "] → aggregator: "@;
            let who = match nodes[j].aggregator {
                Some(a) => "P"@ + decimal(a as nat),
                None => "-"@,
            };
            let bad = exists|k: int|
                0 <= k < nodes[j].real.len() && qagg.contains(#[trigger] nodes[j].real[k]);
            &&& lines.len() == nodes.len() + 1
            &&& nodes.len() == 1 ==> lines[0] == "z-Aggregation [level "@ + decimal(level as nat)
                + " - root]: all remaining transcripts folded into one."@
            &&& nodes.len() > 1 ==> lines[0] == "z-Aggregation [level "@ + decimal(level as nat)
                + " - "@ + decimal(nodes.len()) + " groups aggregate pairwise]:"@
            &&& bad ==> lines[j + 1] == start + who + " (contains Qagg member)"@
            &&& !bad ==> lines[j + 1] == start + who + ""@
        }),
{
    let members = nodes[j].real@;
    let bad = exists|k: int|
        0 <= k < nodes[j].real.len() && qagg.contains(#[trigger] nodes[j].real[k]);
    if DkgSession::tainted(members, qagg) {
        let k = choose|k: int| 0 <= k < members.len() && qagg.contains(#[trigger] members[k]);
        assert(qagg.contains(nodes[j].real[k]));
    }
    if bad {
        let k = choose|k: int|
            0 <= k < nodes[j].real.len() && qagg.contains(#[trigger] nodes[j].real[k]);
        assert(qagg.contains(members[k]));
    }
}

/// The broadcast has a line for the root, who is the last participant, and one for everybody's answer.
pub proof fn law_broadcast_lines(n: int, approvals: Seq<Option<Vec<u8>>>, i: int)
    requires
        0 <= i < n,
    ensures
        ({
            let lines = DkgSession::broadcast_lines(n, approvals);
            &&& lines.len() == n + 1
            &&& lines[0] == "z-Transcript broadcast: root "@ + ("P"@ + decimal((n - 1) as nat))
                + " broadcasts the candidate transcript to all "@ + decimal(n as nat)
                + " participants for approval."@
            &&& approvals[i] is Some ==> lines[i + 1] == "  "@ + ("P"@ + decimal(i as nat))
                + " verified & approved the transcript ✓"@
            &&& approvals[i] is None ==> lines[i + 1] == "  "@ + ("P"@ + decimal(i as nat))
                + " rejected the transcript ✗"@
        }),
{
}

/// The verification of Pedersen shares has two headings and a line for every complaint, or one that
/// there is none.
pub proof fn law_verification_lines(complaints: Seq<Complaint>, k: int)
    ensures
        ({
            let lines = DkgSession::verification_lines(complaints);
            &&& lines[0] == "z-Aggregation complete. Moving to Pedersen share verification."@
            &&& lines[1] == "Verification (Pedersen layer):"@
            &&& complaints.len() == 0 ==> lines.len() == 3 && lines[2]
                == "  All Pedersen shares verified - no complaints."@
            &&& complaints.len() > 0 ==> lines.len() == complaints.len() + 2
            &&& 0 <= k < complaints.len() ==> lines[k + 2] == "  "@ + ("P"@ + decimal(
                complaints[k].complainer as nat,
            )) + " could not verify "@ + ("P"@ + decimal(complaints[k].dealer as nat))
                + "'s Pedersen share → complaint filed."@
        }),
{
}

/// The complaint phase has a line for every disqualified dealer, in ascending order and with the
/// reason, and one with the qualified ones.
pub proof fn law_complaint_lines(
    disqualified: Map<usize, DisqualificationReason>,
    qual: Set<usize>,
    k: int,
)
    ensures
        ({
            let lines = DkgSession::complaint_lines(disqualified, qual);
            let ids = listed(disqualified.dom());
            let start = "Complaints: dealer "@ + decimal(ids[k] as nat) + " disqualified ("@;
            &&& lines.len() == ids.len() + 1
            &&& lines.last() == "Complaints: QUAL = "@ + ("["@ + numbers_text(listed(qual), ", "@)
                + "]"@) + "."@
            &&& 0 <= k < ids.len() ==> {
                let reason = disqualified[ids[k]];
                &&& reason == DisqualificationReason::InQagg ==> lines[k] == start + "InQagg"@
                    + ")."@
                &&& reason == DisqualificationReason::TooManyComplaints ==> lines[k] == start
                    + "TooManyComplaints"@ + ")."@
                &&& reason == DisqualificationReason::LostDisputation ==> lines[k] == start
                    + "LostDisputation"@ + ")."@
            }
        }),
{
}

/// The key generation says that there is no key where nobody qualifies, and else that the key is
/// there and was reconstructed from one receiver more than the degree.
pub proof fn law_key_lines(degree: nat, qual: Set<usize>)
    ensures
        ({
            let lines = DkgSession::key_lines(degree as int, qual);
            &&& qual.len() == 0 ==> lines == seq![
                "KeyGeneration: QUAL is empty - no key can be formed."@,
            ]
            &&& qual.len() > 0 ==> lines == seq![
                "KeyGeneration: aggregated pk = (c1,c2,c3) over QUAL."@,
                "KeyGeneration: reconstructed (c1,c2) from t+1="@ + decimal(degree + 1)
                    + " receivers - match: "@ + "true"@ + "."@,
            ]
        }),
{
}

/// An error of the sharing layer becomes the error of the same kind, with what it carries.
pub proof fn law_errors_raised(j: usize, s: &'static str)
    ensures
        raised(VssError::ShareCheck(j)) == DKGError::PedersenShareCheckError(j),
        raised(VssError::Malformed(s)) == DKGError::PedersenMalformed(s),
        raised(VssError::BadIndices) == DKGError::MSSBadIndices,
        raised(VssError::InsufficientDegree(j)) == DKGError::MSSInsufficientDegree(j),
{
}

/// The errors of the sharing layer are described by what went wrong and where.
pub proof fn law_sharing_errors(j: usize, s: &'static str)
    ensures
        VssError::ShareCheck(j).text() == "Share check failed for receiver "@ + decimal(j as nat),
        VssError::Malformed(s).text() == "VSS distribution malformed: "@ + s@,
        VssError::BadIndices.text()
            == "Lagrange recovery received duplicate or insufficient evaluation indices"@,
        VssError::InsufficientDegree(j).text() == "Polynomial degree too small: "@ + decimal(
            j as nat,
        ),
{
}

/// The errors of the key generation are described by what went wrong and where.
pub proof fn law_errors(j: usize, s: &'static str, t: String, a: usize, b: usize, c: usize)
    ensures
        DKGError::RatioIncorrect.text() == "Ratio incorrect"@,
        DKGError::EvaluationsCheckError(t).text() == "Evaluations are wrong: product = "@ + t@,
        DKGError::EvaluationDomainError.text() == "Could not generate evaluation domain"@,
        DKGError::DifferentSRS.text() == "Config, dealer and nodes had different SRSes"@,
        DKGError::SignatureError(t).text() == "Signature error: "@ + t@,
        DKGError::SerializationError(t).text() == "Serialization error: "@ + t@,
        DKGError::InvalidParticipantId(j).text() == "Invalid participant ID: "@ + decimal(j as nat),
        DKGError::TranscriptDifferentConfig(j, a, b, c).text()
            == "Transcripts have different degree or number of participants: self.degree="@
            + decimal(j as nat) + ", other.degree="@ + decimal(a as nat)
            + ", self.num_participants="@ + decimal(b as nat) + ", self.num_participants="@
            + decimal(c as nat),
        DKGError::TranscriptDifferentCommitments.text()
            == "Transcripts have different commitments"@,
        DKGError::MSSInsufficientDegree(j).text()
            == "MSS polynomial degree too small (need >= 1 to pin two points): "@ + decimal(
            j as nat,
        ),
        DKGError::MSSBadIndices.text()
            == "MSS recovery received duplicate or insufficient evaluation indices"@,
        DKGError::PedersenShareCheckError(j).text()
            == "Pedersen share check (Eq. 1) failed for receiver "@ + decimal(j as nat),
        DKGError::PedersenMalformed(s).text() == "Pedersen distribution malformed: "@ + s@,
        DKGError::FeldmanShareCheckError(j).text()
            == "Feldman share check (g^s = prod C_k^{j^k}) failed for receiver "@ + decimal(
            j as nat,
        ),
        DKGError::FeldmanInsufficientDegree(j).text()
            == "Feldman/Shamir polynomial degree too small (need >= 1): "@ + decimal(j as nat),
{
}

} // verus!
