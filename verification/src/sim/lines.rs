//! The lines of a session's log.
use crate::dkg::complaint::DisqualificationReason;
use crate::parse::views;
use crate::sim::malice::Malice;
use crate::text::{dec, decimal, join, join_numbers, joined, numbers_text};
use std::collections::BTreeMap;
use vstd::prelude::*;

verus! {

broadcast use {vstd::laws_cmp::group_laws_cmp, vstd::std_specs::btree::group_btree_axioms};

/// A participant, `P3`.
pub open spec fn name_text(id: int) -> Seq<char> {
    "P"@ + decimal(id as nat)
}

pub fn name_of(id: usize) -> (r: String)
    ensures
        r@ == name_text(id as int),
{
    let mut r = "P".to_owned();
    r.append(dec(id).as_str());
    r
}

/// Participants, with a separator between them.
pub open spec fn names_text(ids: Seq<usize>, sep: Seq<char>) -> Seq<char> {
    joined(ids.map_values(|id: usize| name_text(id as int)), sep)
}

pub fn names_of(ids: &Vec<usize>, sep: &str) -> (r: String)
    ensures
        r@ == names_text(ids@, sep@),
{
    let mut parts: Vec<String> = Vec::new();
    for i in 0..ids.len()
        invariant
            parts.len() == i,
            forall|k: int| 0 <= k < i ==> #[trigger] parts[k]@ == name_text(ids[k] as int),
    {
        parts.push(name_of(ids[i]));
    }
    assert(views(parts@) =~= ids@.map_values(|id: usize| name_text(id as int)));
    join(&parts, sep)
}

/// Numbers in brackets, `[0, 2]`.
pub open spec fn list_text(ids: Seq<usize>) -> Seq<char> {
    "["@ + numbers_text(ids, ", "@) + "]"@
}

pub fn list_of(ids: &Vec<usize>) -> (r: String)
    ensures
        r@ == list_text(ids@),
{
    let mut r = "[".to_owned();
    r.append(join_numbers(ids, ", ").as_str());
    r.append("]");
    r
}

/// Who misbehaves, and how, for the dishonest participants `ids`.
pub open spec fn malice_text(ids: Seq<usize>, malice: Map<usize, Malice>) -> Seq<char> {
    if ids.len() == 0 {
        "none"@
    } else {
        joined(
            ids.map_values(|id: usize| name_text(id as int) + "="@ + malice[id].tag_text()),
            ", "@,
        )
    }
}

pub fn malice_desc(ids: &Vec<usize>, malice: &BTreeMap<usize, Malice>) -> (r: String)
    requires
        forall|k: int| 0 <= k < ids.len() ==> malice@.contains_key(#[trigger] ids[k]),
    ensures
        r@ == malice_text(ids@, malice@),
{
    if ids.len() == 0 {
        return "none".to_owned();
    }
    let mut parts: Vec<String> = Vec::new();
    for i in 0..ids.len()
        invariant
            forall|k: int| 0 <= k < ids.len() ==> malice@.contains_key(#[trigger] ids[k]),
            parts.len() == i,
            forall|k: int|
                0 <= k < i ==> #[trigger] parts[k]@ == name_text(ids[k] as int) + "="@
                    + malice@[ids[k]].tag_text(),
    {
        let mut part = name_of(ids[i]);
        part.append("=");
        assert(malice@.contains_key(ids[i as int]));
        match malice.get(&ids[i]) {
            Some(m) => {
                part.append(m.tag());
            },
            None => {},
        }
        parts.push(part);
    }
    assert(views(parts@) =~= ids@.map_values(
        |id: usize| name_text(id as int) + "="@ + malice@[id].tag_text(),
    ));
    join(&parts, ", ")
}

/// The first line of a log.
pub open spec fn setup_text(n: int, t: int, desc: Seq<char>) -> Seq<char> {
    "Setup: n="@ + decimal(n as nat) + ", threshold t="@ + decimal(t as nat)
        + " (reconstruct from t+1="@ + decimal((t + 1) as nat) + "), malicious=["@ + desc + "]."@
}

pub fn setup_line(n: usize, t: usize, desc: &str) -> (r: String)
    requires
        t < usize::MAX,
    ensures
        r@ == setup_text(n as int, t as int, desc@),
{
    let mut r = "Setup: n=".to_owned();
    r.append(dec(n).as_str());
    r.append(", threshold t=");
    r.append(dec(t).as_str());
    r.append(" (reconstruct from t+1=");
    r.append(dec(t + 1).as_str());
    r.append("), malicious=[");
    r.append(desc);
    r.append("].");
    r
}

/// The note on a threshold beyond the adversary bound.
pub open spec fn bound_text(n: int, t: int) -> Seq<char> {
    "Note: t-1="@ + decimal((t - 1) as nat) + " is not < n/2="@ + decimal((n / 2) as nat)
        + "; the paper's adversary bound is exceeded."@
}

pub fn bound_line(n: usize, t: usize) -> (r: String)
    requires
        t >= 1,
    ensures
        r@ == bound_text(n as int, t as int),
{
    let mut r = "Note: t-1=".to_owned();
    r.append(dec(t - 1).as_str());
    r.append(" is not < n/2=");
    r.append(dec(n / 2).as_str());
    r.append("; the paper's adversary bound is exceeded.");
    r
}

/// What dealer `i` dealt, `commitments` being the number of its commitments and `victim` the receiver,
/// counted from one, of a bad share.
pub open spec fn dealt_text(
    i: int,
    malice: Malice,
    victim: int,
    commitments: int,
    n: int,
) -> Seq<char> {
    match malice {
        Malice::Both => "Distribution: dealer "@ + decimal(i as nat)
            + " (malicious) tampered its z commitment (→ Qagg) AND its Pedersen share to receiver "@
            + decimal(victim as nat) + " (→ complaint)."@,
        Malice::ZCommitment => "Distribution: dealer "@ + decimal(i as nat)
            + " (malicious) tampered its z commitment (→ Qagg); its Pedersen shares are honest."@,
        Malice::PedersenShare => "Distribution: dealer "@ + decimal(i as nat)
            + " (malicious) dealt an inconsistent Pedersen share to receiver "@ + decimal(
            victim as nat,
        ) + " (→ complaint); its z share is honest."@,
        Malice::Honest => "Distribution: dealer "@ + decimal(i as nat) + " dealt "@ + decimal(
            commitments as nat,
        ) + " commitments and "@ + decimal(n as nat) + " encrypted shares."@,
    }
}

pub fn dealt_line(i: usize, malice: Malice, victim: usize, commitments: usize, n: usize) -> (r:
    String)
    ensures
        r@ == dealt_text(i as int, malice, victim as int, commitments as int, n as int),
{
    let mut r = "Distribution: dealer ".to_owned();
    r.append(dec(i).as_str());
    match malice {
        Malice::Both => {
            r.append(
                " (malicious) tampered its z commitment (→ Qagg) AND its Pedersen share to receiver ",
            );
            r.append(dec(victim).as_str());
            r.append(" (→ complaint).");
        },
        Malice::ZCommitment => {
            r.append(
                " (malicious) tampered its z commitment (→ Qagg); its Pedersen shares are honest.",
            );
        },
        Malice::PedersenShare => {
            r.append(" (malicious) dealt an inconsistent Pedersen share to receiver ");
            r.append(dec(victim).as_str());
            r.append(" (→ complaint); its z share is honest.");
        },
        Malice::Honest => {
            r.append(" dealt ");
            r.append(dec(commitments).as_str());
            r.append(" commitments and ");
            r.append(dec(n).as_str());
            r.append(" encrypted shares.");
        },
    }
    r
}

/// Whether the share of `z` of participant `i` was accepted.
pub open spec fn leaf_text(i: int, ok: bool) -> Seq<char> {
    "  "@ + name_text(i) + if ok {
        " z-share verified ✓ (added to transcript)"@
    } else {
        " z-share REJECTED ✗ → added to Qagg"@
    }
}

pub fn leaf_line(i: usize, ok: bool) -> (r: String)
    ensures
        r@ == leaf_text(i as int, ok),
{
    let mut r = "  ".to_owned();
    r.append(name_of(i).as_str());
    if ok {
        r.append(" z-share verified ✓ (added to transcript)");
    } else {
        r.append(" z-share REJECTED ✗ → added to Qagg");
    }
    r
}

/// The rejected dealers.
pub open spec fn qagg_text(ids: Seq<usize>) -> Seq<char> {
    if ids.len() == 0 {
        "  All shares accepted - Qagg = ∅."@
    } else {
        "  Qagg = {"@ + names_text(ids, ", "@) + "}."@
    }
}

pub fn qagg_line(ids: &Vec<usize>) -> (r: String)
    ensures
        r@ == qagg_text(ids@),
{
    if ids.len() == 0 {
        return "  All shares accepted - Qagg = ∅.".to_owned();
    }
    let mut r = "  Qagg = {".to_owned();
    r.append(names_of(ids, ", ").as_str());
    r.append("}.");
    r
}

/// The heading of a level of the tree with the given number of nodes.
pub open spec fn level_text(level: int, nodes: int) -> Seq<char> {
    if nodes == 1 {
        "z-Aggregation [level "@ + decimal(level as nat)
            + " - root]: all remaining transcripts folded into one."@
    } else {
        "z-Aggregation [level "@ + decimal(level as nat) + " - "@ + decimal(nodes as nat)
            + " groups aggregate pairwise]:"@
    }
}

pub fn level_line(level: usize, nodes: usize) -> (r: String)
    ensures
        r@ == level_text(level as int, nodes as int),
{
    let mut r = "z-Aggregation [level ".to_owned();
    r.append(dec(level).as_str());
    if nodes == 1 {
        r.append(" - root]: all remaining transcripts folded into one.");
    } else {
        r.append(" - ");
        r.append(dec(nodes).as_str());
        r.append(" groups aggregate pairwise]:");
    }
    r
}

/// A group of a level: its members, its aggregator, and whether a rejected dealer is among them.
pub open spec fn group_text(
    pos: int,
    members: Seq<usize>,
    aggregator: Option<usize>,
    tainted: bool,
) -> Seq<char> {
    "  group "@ + decimal(pos as nat) + ": ["@ + names_text(members, "+"@) + "] → aggregator: "@
        + match aggregator {
        Some(a) => name_text(a as int),
        None => "-"@,
    } + if tainted {
        " (contains Qagg member)"@
    } else {
        ""@
    }
}

pub fn group_line(
    pos: usize,
    members: &Vec<usize>,
    aggregator: Option<usize>,
    tainted: bool,
) -> (r: String)
    ensures
        r@ == group_text(pos as int, members@, aggregator, tainted),
{
    let mut r = "  group ".to_owned();
    r.append(dec(pos).as_str());
    r.append(": [");
    r.append(names_of(members, "+").as_str());
    r.append("] → aggregator: ");
    match aggregator {
        Some(a) => {
            r.append(name_of(a).as_str());
        },
        None => {
            r.append("-");
        },
    }
    if tainted {
        r.append(" (contains Qagg member)");
    } else {
        r.append("");
    }
    r
}

/// The root broadcasts the folded transcript.
pub open spec fn broadcast_text(root: int, n: int) -> Seq<char> {
    "z-Transcript broadcast: root "@ + name_text(root)
        + " broadcasts the candidate transcript to all "@ + decimal(n as nat)
        + " participants for approval."@
}

pub fn broadcast_line(root: usize, n: usize) -> (r: String)
    ensures
        r@ == broadcast_text(root as int, n as int),
{
    let mut r = "z-Transcript broadcast: root ".to_owned();
    r.append(name_of(root).as_str());
    r.append(" broadcasts the candidate transcript to all ");
    r.append(dec(n).as_str());
    r.append(" participants for approval.");
    r
}

/// Whether participant `i` approved the transcript.
pub open spec fn approval_text(i: int, approved: bool) -> Seq<char> {
    "  "@ + name_text(i) + if approved {
        " verified & approved the transcript ✓"@
    } else {
        " rejected the transcript ✗"@
    }
}

pub fn approval_line(i: usize, approved: bool) -> (r: String)
    ensures
        r@ == approval_text(i as int, approved),
{
    let mut r = "  ".to_owned();
    r.append(name_of(i).as_str());
    if approved {
        r.append(" verified & approved the transcript ✓");
    } else {
        r.append(" rejected the transcript ✗");
    }
    r
}

/// Receiver `complainer`, counted from one, complains of a dealer.
pub open spec fn complaint_text(dealer: int, complainer: int) -> Seq<char> {
    "  "@ + name_text(complainer) + " could not verify "@ + name_text(dealer)
        + "'s Pedersen share → complaint filed."@
}

pub fn complaint_line(dealer: usize, complainer: usize) -> (r: String)
    ensures
        r@ == complaint_text(dealer as int, complainer as int),
{
    let mut r = "  ".to_owned();
    r.append(name_of(complainer).as_str());
    r.append(" could not verify ");
    r.append(name_of(dealer).as_str());
    r.append("'s Pedersen share → complaint filed.");
    r
}

/// A reason by its name.
pub open spec fn reason_text(reason: DisqualificationReason) -> Seq<char> {
    match reason {
        DisqualificationReason::InQagg => "InQagg"@,
        DisqualificationReason::TooManyComplaints => "TooManyComplaints"@,
        DisqualificationReason::LostDisputation => "LostDisputation"@,
    }
}

pub fn reason_name(reason: DisqualificationReason) -> (r: &'static str)
    ensures
        r@ == reason_text(reason),
{
    match reason {
        DisqualificationReason::InQagg => "InQagg",
        DisqualificationReason::TooManyComplaints => "TooManyComplaints",
        DisqualificationReason::LostDisputation => "LostDisputation",
    }
}

/// A dealer is disqualified.
pub open spec fn disqualified_text(id: int, reason: DisqualificationReason) -> Seq<char> {
    "Complaints: dealer "@ + decimal(id as nat) + " disqualified ("@ + reason_text(reason) + ")."@
}

pub fn disqualified_line(id: usize, reason: DisqualificationReason) -> (r: String)
    ensures
        r@ == disqualified_text(id as int, reason),
{
    let mut r = "Complaints: dealer ".to_owned();
    r.append(dec(id).as_str());
    r.append(" disqualified (");
    r.append(reason_name(reason));
    r.append(").");
    r
}

/// The qualified dealers.
pub open spec fn qual_text(ids: Seq<usize>) -> Seq<char> {
    "Complaints: QUAL = "@ + list_text(ids) + "."@
}

pub fn qual_line(ids: &Vec<usize>) -> (r: String)
    ensures
        r@ == qual_text(ids@),
{
    let mut r = "Complaints: QUAL = ".to_owned();
    r.append(list_of(ids).as_str());
    r.append(".");
    r
}

/// The key reconstructed, or did not.
pub open spec fn reconstruction_text(receivers: int, ok: bool) -> Seq<char> {
    "KeyGeneration: reconstructed (c1,c2) from t+1="@ + decimal(receivers as nat)
        + " receivers - match: "@ + if ok {
        "true"@
    } else {
        "false"@
    } + "."@
}

pub fn reconstruction_line(receivers: usize, ok: bool) -> (r: String)
    ensures
        r@ == reconstruction_text(receivers as int, ok),
{
    let mut r = "KeyGeneration: reconstructed (c1,c2) from t+1=".to_owned();
    r.append(dec(receivers).as_str());
    r.append(" receivers - match: ");
    if ok {
        r.append("true");
    } else {
        r.append("false");
    }
    r.append(".");
    r
}

} // verus!
