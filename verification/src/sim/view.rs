//! What a session shows: who knows what, and how far it is.
use crate::bls::Bls12381;
use crate::collections::{ascending, copied, keys_ascending, listed};
use crate::curve::{encoded, scalar_encoded, Curve, Point, Scalar};
use crate::dkg::complaint::Complaint;
use crate::parse::views;
use crate::sim::lines::{name_of, name_text, reason_name, reason_text};
use crate::sim::malice::Malice;
use crate::sim::phase::Phase;
use crate::sim::session::{malice_at, DkgSession};
use crate::sim::tree::{
    height, hits, is_level, is_node, z_root, z_tree_counts, ZTreePlanNode,
};
use crate::text::{bytes_text, dec, decimal, hex_text, hexs, human_bytes, join, joined};
use vstd::prelude::*;

verus! {

broadcast use {vstd::laws_cmp::group_laws_cmp, vstd::std_specs::btree::group_btree_axioms};

/// A labelled value.
pub struct Field {
    pub label: String,
    pub value: String,
}

/// Labels and values.
pub open spec fn shown(fields: Seq<Field>) -> Seq<(Seq<char>, Seq<char>)> {
    fields.map_values(|f: Field| (f.label@, f.value@))
}

fn show(fields: &mut Vec<Field>, label: &str, value: String)
    ensures
        shown(final(fields)@) == shown(old(fields)@).push((label@, value@)),
{
    let ghost before = fields@;
    fields.push(Field { label: label.to_owned(), value });
    assert(shown(fields@) =~= shown(before).push((label@, value@)));
}

/// The text of an encoded point.
pub open spec fn point_text<C: Curve>(p: Point<C>) -> Seq<char> {
    hex_text(encoded(p))
}

fn point_hex<C: Curve>(p: &Point<C>) -> (r: String)
    ensures
        r@ == point_text(*p),
{
    hexs(&p.to_bytes())
}

/// The text of an encoded scalar.
pub open spec fn scalar_text<C: Curve>(s: Scalar<C>) -> Seq<char> {
    hex_text(scalar_encoded(s))
}

fn scalar_hex<C: Curve>(s: &Scalar<C>) -> (r: String)
    ensures
        r@ == scalar_text(*s),
{
    hexs(&s.to_bytes())
}

/// Some receiver's complaint of a dealer is among the complaints.
pub open spec fn complained(complaints: Seq<Complaint>, dealer: usize, complainer: usize) -> bool {
    exists|k: int|
        0 <= k < complaints.len() && (#[trigger] complaints[k]).dealer == dealer
            && complaints[k].complainer == complainer
}

fn has_complained(complaints: &Vec<Complaint>, dealer: usize, complainer: usize) -> (r: bool)
    ensures
        r == complained(complaints@, dealer, complainer),
{
    for k in 0..complaints.len()
        invariant
            forall|q: int|
                0 <= q < k ==> !((#[trigger] complaints[q]).dealer == dealer
                    && complaints[q].complainer == complainer),
    {
        if complaints[k].dealer == dealer && complaints[k].complainer == complainer {
            return true;
        }
    }
    false
}

/// How many complaints there are of a dealer.
pub open spec fn complaints_about(complaints: Seq<Complaint>, dealer: usize) -> int {
    complaints.filter(|c: Complaint| c.dealer == dealer).len() as int
}

fn count_complaints(complaints: &Vec<Complaint>, dealer: usize) -> (r: usize)
    ensures
        r == complaints_about(complaints@, dealer),
{
    let ghost p = |c: Complaint| c.dealer == dealer;
    let mut r: usize = 0;
    proof {
        reveal_with_fuel(Seq::filter, 1);
        assert(complaints@.take(0).filter(p).len() == 0);
    }
    for k in 0..complaints.len()
        invariant
            p == (|c: Complaint| c.dealer == dealer),
            r <= k,
            r == complaints@.take(k as int).filter(p).len(),
    {
        proof {
            let s = complaints@.take(k + 1);
            assert(s.drop_last() =~= complaints@.take(k as int));
            reveal_with_fuel(Seq::filter, 1);
        }
        if complaints[k].dealer == dealer {
            r = r + 1;
        }
    }
    assert(complaints@.take(complaints.len() as int) =~= complaints@);
    r
}

/// What a participant shows, and what it knows alone.
pub struct ParticipantView {
    pub id: usize,
    pub malicious: bool,
    /// The tag of its behaviour.
    pub malice: String,
    /// The description of its behaviour.
    pub malice_label: String,
    pub in_qagg: bool,
    pub complaints_against: usize,
    pub in_qual: bool,
    pub disqualified_reason: Option<String>,
    pub public: Vec<Field>,
    pub private: Vec<Field>,
    /// The messages it sends and receives.
    pub communication: Vec<Field>,
}

impl DkgSession {
    /// What is known to everybody from the layer for `z`.
    pub open spec fn z_fields(self, i: usize) -> Seq<(Seq<char>, Seq<char>)> {
        (if self.z_leaf_results@.contains_key(i) {
            seq![
                (
                    "z-share verification"@,
                    if self.z_leaf_results@[i] {
                        "✓ accepted (in transcript)"@
                    } else {
                        "✗ rejected → Qagg"@
                    },
                ),
            ]
        } else {
            Seq::empty()
        }) + match self.z_approvals {
            Some(v) => seq![
                (
                    "z-transcript approval (broadcast)"@,
                    if v[i as int] is Some {
                        "✓ approved final transcript"@
                    } else {
                        "✗ rejected final transcript"@
                    },
                ),
            ],
            None => Seq::empty(),
        }
    }

    /// What is known to everybody from the distribution.
    pub open spec fn dealt_fields(self, i: usize) -> Seq<(Seq<char>, Seq<char>)> {
        if self.phase == Phase::Setup {
            Seq::empty()
        } else {
            let c = self.published.contributions@[i];
            seq![
                ("z commitment c_i (G1)"@, point_text(c.dkg_share.c_i)),
                (
                    "Pedersen commitments CM_0..CM_"@ + decimal(self.common.degree as nat),
                    decimal((self.common.degree + 1) as nat) + " commitments, CM_0 = "@
                        + point_text(c.commitments[0]),
                ),
                ("pk contribution c1_i (G1)"@, point_text(c.c1_i)),
                ("pk contribution c2_i (G1)"@, point_text(c.c2_i)),
                ("pk contribution c3_i = g1^{z_i} (G1)"@, point_text(c.c3_i)),
                (
                    "Encrypted shares dealt"@,
                    decimal(self.common.n as nat) + " ciphertexts (one per receiver)"@,
                ),
            ]
        }
    }

    /// What everybody knows of a participant.
    pub open spec fn public_fields(self, i: usize) -> Seq<(Seq<char>, Seq<char>)> {
        seq![
            ("Participant ID"@, decimal(i as nat)),
            (
                "Signature public key (G2)"@,
                hex_text(self.common.setup.keys[i as int].1@),
            ),
            (
                "ElGamal public key (G1)"@,
                point_text(self.common.suite.elgamal[i as int].pk),
            ),
        ] + self.z_fields(i) + self.dealt_fields(i)
    }

    fn public_view(&self, i: usize) -> (r: Vec<Field>)
        requires
            self.wf(),
            i < self.common.n,
        ensures
            shown(r@) == self.public_fields(i),
    {
        let mut r: Vec<Field> = Vec::new();
        show(&mut r, "Participant ID", dec(i));
        show(&mut r, "Signature public key (G2)", hexs(&self.common.setup.keys[i].1));
        show(
            &mut r,
            "ElGamal public key (G1)",
            point_hex(&self.common.suite.elgamal[i].pk),
        );
        if let Some(z_ok) = self.z_leaf_results.get(&i) {
            let value = if *z_ok {
                "✓ accepted (in transcript)".to_owned()
            } else {
                "✗ rejected → Qagg".to_owned()
            };
            show(&mut r, "z-share verification", value);
        }
        if let Some(v) = &self.z_approvals {
            let value = if v[i].is_some() {
                "✓ approved final transcript".to_owned()
            } else {
                "✗ rejected final transcript".to_owned()
            };
            show(&mut r, "z-transcript approval (broadcast)", value);
        }
        let ghost base = seq![
            ("Participant ID"@, decimal(i as nat)),
            (
                "Signature public key (G2)"@,
                hex_text(self.common.setup.keys[i as int].1@),
            ),
            (
                "ElGamal public key (G1)"@,
                point_text(self.common.suite.elgamal[i as int].pk),
            ),
        ];
        assert(shown(r@) =~= base + self.z_fields(i));
        match self.published.contributions.get(&i) {
            Some(c) => {
                proof {
                    assert(self.published.contributions@.contains_key(i));
                    assert(*c == self.published.contributions@[i]);
                    assert(self.published.dealings[i as int].valid(
                        self.common.suite.generators,
                        self.common.suite.base,
                        self.common.suite.receiver_pks@,
                        self.common.degree as int,
                    ));
                }
                show(&mut r, "z commitment c_i (G1)", point_hex(&c.dkg_share.c_i));
                let mut label = "Pedersen commitments CM_0..CM_".to_owned();
                label.append(dec(self.common.degree).as_str());
                let mut value = dec(c.commitments.len());
                value.append(" commitments, CM_0 = ");
                value.append(point_hex(&c.commitments[0]).as_str());
                show(&mut r, label.as_str(), value);
                show(&mut r, "pk contribution c1_i (G1)", point_hex(&c.c1_i));
                show(&mut r, "pk contribution c2_i (G1)", point_hex(&c.c2_i));
                show(&mut r, "pk contribution c3_i = g1^{z_i} (G1)", point_hex(&c.c3_i));
                let mut count = dec(c.encrypted_shares.len());
                count.append(" ciphertexts (one per receiver)");
                show(&mut r, "Encrypted shares dealt", count);
            },
            None => {
                assert(!self.published.contributions@.contains_key(i));
            },
        }
        assert(shown(r@) =~= self.public_fields(i));
        r
    }

    /// How the shares that a participant received checked, dealer by dealer.
    pub open spec fn receipts(self, i: usize) -> Seq<Seq<char>> {
        Seq::new(
            self.common.n as nat,
            |d: int|
                "from dealer "@ + decimal(d as nat) + ": "@ + if complained(
                    self.complaints@,
                    d as usize,
                    (i + 1) as usize,
                ) {
                    "FAILED (complaint)"@
                } else {
                    "verified"@
                },
        )
    }

    /// The secrets of a dealer.
    pub open spec fn secret_fields(self, i: usize) -> Seq<(Seq<char>, Seq<char>)> {
        if self.phase == Phase::Setup {
            Seq::empty()
        } else {
            let s = self.published.dealings[i as int].secrets;
            seq![
                ("secret z_i (Fr)"@, scalar_text(self.z_secrets[i as int])),
                ("secret x1 (Fr)"@, scalar_text(s.x1)),
                ("secret x2 (Fr)"@, scalar_text(s.x2)),
                ("secret y1 (Fr)"@, scalar_text(s.y1)),
                ("secret y2 (Fr)"@, scalar_text(s.y2)),
            ]
        }
    }

    /// What a participant received.
    pub open spec fn received_fields(self, i: usize) -> Seq<(Seq<char>, Seq<char>)> {
        (if self.phase.rank() >= Phase::Verification.rank() {
            seq![
                (
                    "Decrypted Pedersen shares (group elements)"@,
                    joined(self.receipts(i), "; "@),
                ),
            ]
        } else {
            Seq::empty()
        }) + match self.z_approvals {
            Some(v) => match v[i as int] {
                Some(bytes) => seq![("Accumulated z-secret share (G2)"@, hex_text(bytes@))],
                None => Seq::empty(),
            },
            None => Seq::empty(),
        }
    }

    /// What a participant knows alone.
    pub open spec fn private_fields(self, i: usize) -> Seq<(Seq<char>, Seq<char>)> {
        seq![
            (
                "Signature secret key (Fr)"@,
                hex_text(self.common.setup.keys[i as int].0@),
            ),
            (
                "ElGamal secret key (Fr)"@,
                scalar_text(self.common.suite.elgamal[i as int].sk),
            ),
        ] + self.secret_fields(i) + self.received_fields(i)
    }

    fn receipt_texts(&self, i: usize) -> (r: Vec<String>)
        requires
            i < usize::MAX,
        ensures
            views(r@) == self.receipts(i),
    {
        let mut r: Vec<String> = Vec::new();
        for d in 0..self.common.n
            invariant
                i < usize::MAX,
                r.len() == d,
                forall|k: int| 0 <= k < d ==> #[trigger] r[k]@ == self.receipts(i)[k],
        {
            let mut text = "from dealer ".to_owned();
            text.append(dec(d).as_str());
            text.append(": ");
            if has_complained(&self.complaints, d, i + 1) {
                text.append("FAILED (complaint)");
            } else {
                text.append("verified");
            }
            assert(text@ == self.receipts(i)[d as int]);
            r.push(text);
        }
        assert(views(r@) =~= self.receipts(i));
        r
    }

    fn private_view(&self, i: usize) -> (r: Vec<Field>)
        requires
            self.wf(),
            i < self.common.n,
        ensures
            shown(r@) == self.private_fields(i),
    {
        let mut r: Vec<Field> = Vec::new();
        show(&mut r, "Signature secret key (Fr)", hexs(&self.common.setup.keys[i].0));
        show(
            &mut r,
            "ElGamal secret key (Fr)",
            scalar_hex(&self.common.suite.elgamal[i].sk),
        );
        let ghost base = seq![
            (
                "Signature secret key (Fr)"@,
                hex_text(self.common.setup.keys[i as int].0@),
            ),
            (
                "ElGamal secret key (Fr)"@,
                scalar_text(self.common.suite.elgamal[i as int].sk),
            ),
        ];
        assert(shown(r@) =~= base);
        if i < self.published.dealings.len() {
            let s = &self.published.dealings[i].secrets;
            show(&mut r, "secret z_i (Fr)", scalar_hex(&self.z_secrets[i]));
            show(&mut r, "secret x1 (Fr)", scalar_hex(&s.x1));
            show(&mut r, "secret x2 (Fr)", scalar_hex(&s.x2));
            show(&mut r, "secret y1 (Fr)", scalar_hex(&s.y1));
            show(&mut r, "secret y2 (Fr)", scalar_hex(&s.y2));
        }
        assert(shown(r@) =~= base + self.secret_fields(i));
        if self.phase.index() >= Phase::Verification.index() {
            let texts = self.receipt_texts(i);
            show(
                &mut r,
                "Decrypted Pedersen shares (group elements)",
                join(&texts, "; "),
            );
        }
        if let Some(v) = &self.z_approvals {
            if let Some(bytes) = &v[i] {
                show(&mut r, "Accumulated z-secret share (G2)", hexs(bytes));
            }
        }
        assert(shown(r@) =~= self.private_fields(i));
        r
    }

    /// The messages of the distribution.
    pub open spec fn dealing_fields(self, i: usize) -> Seq<(Seq<char>, Seq<char>)> {
        if self.phase == Phase::Setup {
            Seq::empty()
        } else {
            let n = self.common.n;
            let size = self.published.contributions@[i].dkg_share.size;
            seq![
                (
                    "z-layer · PVSS share sent"@,
                    "1 broadcast ("@ + bytes_text(size as int) + ")"@,
                ),
                (
                    "Pedersen · encrypted shares dealt"@,
                    decimal(n as nat) + " sent → every receiver ("@ + bytes_text(
                        8 * Bls12381::encoding_len() * n,
                    ) + " total)"@,
                ),
                (
                    "Pedersen · encrypted shares received"@,
                    decimal(n as nat) + " received ← every dealer"@,
                ),
            ]
        }
    }

    /// The messages along the tree: how many partial transcripts were sent and received.
    pub open spec fn gossip_fields(self, i: usize) -> Seq<(Seq<char>, Seq<char>)> {
        let (n, levels) = (self.common.n as int, self.z_levels_done - 1);
        let (sent, received) = (hits(n, i as int, 0, levels), hits(n, i as int, 1, levels));
        if sent > 0 || received > 0 {
            seq![
                (
                    "z-tree · gossip (aggregation)"@,
                    decimal(sent as nat) + " partial transcript(s) sent up, "@ + decimal(
                        received as nat,
                    ) + " received"@,
                ),
            ]
        } else {
            Seq::empty()
        }
    }

    /// The broadcast of the folded transcript.
    pub open spec fn final_fields(self, i: usize) -> Seq<(Seq<char>, Seq<char>)> {
        let n = self.common.n;
        if self.z_approvals is Some {
            seq![
                (
                    "z-tree · final transcript"@,
                    if i == n - 1 {
                        "root: broadcast to "@ + decimal((n - 1) as nat) + " peers"@
                    } else {
                        "1 received ← root "@ + name_text(n - 1)
                    },
                ),
            ]
        } else {
            Seq::empty()
        }
    }

    /// The messages that a participant sends and receives.
    pub open spec fn message_fields(self, i: usize) -> Seq<(Seq<char>, Seq<char>)> {
        self.dealing_fields(i) + self.gossip_fields(i) + self.final_fields(i)
    }

    fn communication_view(&self, i: usize) -> (r: Vec<Field>)
        requires
            self.wf(),
            i < self.common.n,
        ensures
            shown(r@) == self.message_fields(i),
    {
        let n = self.common.n;
        let mut r: Vec<Field> = Vec::new();
        match self.published.contributions.get(&i) {
            Some(c) => {
                assert(self.published.contributions@.contains_key(i));
                let mut sent = "1 broadcast (".to_owned();
                sent.append(human_bytes(c.dkg_share.size as usize).as_str());
                sent.append(")");
                show(&mut r, "z-layer · PVSS share sent", sent);
                let one = 8 * Bls12381::encoded_size();
                let mut dealt = dec(n);
                dealt.append(" sent → every receiver (");
                dealt.append(human_bytes(one * n).as_str());
                dealt.append(" total)");
                show(&mut r, "Pedersen · encrypted shares dealt", dealt);
                let mut got = dec(n);
                got.append(" received ← every dealer");
                show(&mut r, "Pedersen · encrypted shares received", got);
            },
            None => {
                assert(!self.published.contributions@.contains_key(i));
            },
        }
        assert(shown(r@) =~= self.dealing_fields(i));
        proof {
            lemma_low_height(n as int);
            let l = self.z_tree_plan.len();
            assert(l * n <= 50) by (nonlinear_arith)
                requires
                    l <= 5,
                    n <= 10,
            ;
        }
        let (sent, received) = z_tree_counts(&self.z_tree_plan, n, self.z_levels_done, i);
        if sent > 0 || received > 0 {
            let mut text = dec(sent);
            text.append(" partial transcript(s) sent up, ");
            text.append(dec(received).as_str());
            text.append(" received");
            show(&mut r, "z-tree · gossip (aggregation)", text);
        }
        assert(shown(r@) =~= self.dealing_fields(i) + self.gossip_fields(i));
        if self.z_transcript_broadcast {
            let root = z_root(&self.z_tree_plan, n);
            let text = if root == Some(i) {
                let mut text = "root: broadcast to ".to_owned();
                text.append(dec(n - 1).as_str());
                text.append(" peers");
                text
            } else {
                let mut text = "1 received ← root ".to_owned();
                text.append(name_of(n - 1).as_str());
                text
            };
            show(&mut r, "z-tree · final transcript", text);
        }
        assert(shown(r@) =~= self.message_fields(i));
        r
    }

    /// The view of participant `i`.
    pub open spec fn shows(self, i: usize, v: ParticipantView) -> bool {
        let malice = malice_at(self.common.malice@, i);
        &&& v.id == i
        &&& v.malicious == (malice != Malice::Honest)
        &&& v.malice@ == malice.tag_text()
        &&& v.malice_label@ == malice.label_text()
        &&& v.in_qagg == self.qagg@.contains(i)
        &&& v.complaints_against == complaints_about(self.complaints@, i)
        &&& v.in_qual == self.qual@.contains(i)
        &&& match v.disqualified_reason {
            Some(text) => self.disqualified@.contains_key(i) && text@ == reason_text(
                self.disqualified@[i],
            ),
            None => !self.disqualified@.contains_key(i),
        }
        &&& shown(v.public@) == self.public_fields(i)
        &&& shown(v.private@) == self.private_fields(i)
        &&& shown(v.communication@) == self.message_fields(i)
    }

    /// What participant `i` shows, and what it knows alone.
    pub fn participant_view(&self, i: usize) -> (r: ParticipantView)
        requires
            self.wf(),
            i < self.common.n,
        ensures
            self.shows(i, r),
    {
        let malice = self.common.malice_of(i);
        let disqualified_reason = match self.disqualified.get(&i) {
            Some(reason) => Some(reason_name(*reason).to_owned()),
            None => None,
        };
        ParticipantView {
            id: i,
            malicious: malice.is_malicious(),
            malice: malice.tag().to_owned(),
            malice_label: malice.label().to_owned(),
            in_qagg: self.qagg.contains(&i),
            complaints_against: count_complaints(&self.complaints, i),
            in_qual: self.qual.contains(&i),
            disqualified_reason,
            public: self.public_view(i),
            private: self.private_view(i),
            communication: self.communication_view(i),
        }
    }
}

/// The public key, as texts.
pub struct PublicKeyView {
    pub c1: String,
    pub c2: String,
    pub c3: String,
    pub reconstructed_ok: Option<bool>,
}

/// One node of the tree.
pub struct ZTreeNodeView {
    /// The participants below it.
    pub real_participants: Vec<usize>,
    /// The rightmost of them.
    pub aggregator: Option<usize>,
    /// For a leaf: whether the share verified.
    pub leaf_ok: Option<bool>,
    /// The place within the level.
    pub position: usize,
}

/// One level of the tree, from the leaves.
pub struct ZTreeLevelView {
    pub level: usize,
    pub is_leaf_level: bool,
    pub is_root_level: bool,
    pub description: String,
    pub nodes: Vec<ZTreeNodeView>,
}

/// The reference that all parties share from the start.
pub struct CommonReferenceView {
    pub g_g1: String,
    pub h_g2: String,
    pub u_1: String,
    pub ped_g1: String,
    pub ped_g2: String,
    pub ped_h1: String,
    pub ped_h2: String,
    pub elgamal_base: String,
    pub domain_size: usize,
}

/// All that a session shows.
pub struct Snapshot {
    pub phase: String,
    pub phase_index: usize,
    pub can_advance: bool,
    pub next_phase: Option<String>,
    pub n: usize,
    pub degree: usize,
    pub reconstruction_threshold: usize,
    pub malicious: Vec<usize>,
    /// The tags of the dishonest participants.
    pub malice: Vec<(usize, String)>,
    pub qagg: Vec<usize>,
    pub qual: Vec<usize>,
    pub complaints: Vec<(usize, usize)>,
    pub public_key: Option<PublicKeyView>,
    pub participants: Vec<ParticipantView>,
    pub log: Vec<String>,
    /// The tree, all levels.
    pub z_tree: Vec<ZTreeLevelView>,
    pub z_total_levels: usize,
    pub z_levels_done: usize,
    /// The participant that ends up with the folded transcript.
    pub z_root: Option<usize>,
    /// Whether the root has broadcast the transcript and the participants answered.
    pub z_transcript_broadcast: bool,
    /// Who approved the transcript.
    pub z_approvals: Vec<(usize, bool)>,
    pub common: CommonReferenceView,
}

/// What a level of the tree is about.
pub open spec fn level_description(level: int, total: int, nodes: int) -> Seq<char> {
    if level == 0 {
        "Individual z-share verification - each dealer's PVSS share is checked"@
    } else if level + 1 == total {
        "Root - "@ + decimal(nodes as nat)
            + " transcript(s) folded into the final aggregated transcript"@
    } else {
        decimal(nodes as nat) + " groups aggregate pairwise (⌈log₂ n⌉ round "@ + decimal(
            level as nat,
        ) + ")"@
    }
}

fn describe_level(level: usize, total: usize, nodes: usize) -> (r: String)
    requires
        level < total,
    ensures
        r@ == level_description(level as int, total as int, nodes as int),
{
    if level == 0 {
        "Individual z-share verification - each dealer's PVSS share is checked".to_owned()
    } else if level + 1 == total {
        let mut r = "Root - ".to_owned();
        r.append(dec(nodes).as_str());
        r.append(" transcript(s) folded into the final aggregated transcript");
        r
    } else {
        let mut r = dec(nodes);
        r.append(" groups aggregate pairwise (⌈log₂ n⌉ round ");
        r.append(dec(level).as_str());
        r.append(")");
        r
    }
}

impl DkgSession {
    /// The view of the node at position `j` of a level.
    pub open spec fn shows_node(self, level: int, j: int, v: ZTreeNodeView) -> bool {
        let node = self.z_tree_plan[level][j];
        &&& v.real_participants@ == node.real@
        &&& v.aggregator == node.aggregator
        &&& v.leaf_ok == if level == 0 {
            Some(self.z_leaf_results@[j as usize])
        } else {
            None
        }
        &&& v.position == j
    }

    /// The view of a level.
    pub open spec fn shows_level(self, level: int, v: ZTreeLevelView) -> bool {
        let total = self.z_tree_plan.len() as int;
        let nodes = self.z_tree_plan[level];
        &&& v.level == level
        &&& v.is_leaf_level == (level == 0)
        &&& v.is_root_level == (level + 1 == total)
        &&& v.description@ == level_description(level, total, nodes.len() as int)
        &&& v.nodes.len() == nodes.len()
        &&& forall|j: int|
            0 <= j < nodes.len() ==> self.shows_node(level, j, #[trigger] v.nodes[j])
    }

    /// The view of a level of the tree.
    fn level_view(&self, level: usize) -> (r: ZTreeLevelView)
        requires
            self.wf(),
            level < self.z_tree_plan.len(),
        ensures
            self.shows_level(level as int, r),
    {
        let total = self.z_tree_plan.len();
        let plan = &self.z_tree_plan[level];
        let ghost n = self.common.n as int;
        assert(is_level(self.z_tree_plan[level as int]@, n, level as nat));
        let mut nodes: Vec<ZTreeNodeView> = Vec::new();
        for j in 0..plan.len()
            invariant
                self.wf(),
                level < self.z_tree_plan.len(),
                *plan == self.z_tree_plan[level as int],
                n == self.common.n,
                is_level(plan@, n, level as nat),
                nodes.len() == j,
                forall|k: int|
                    0 <= k < j ==> self.shows_node(level as int, k, #[trigger] nodes[k]),
        {
            let node = &plan[j];
            assert(is_node(plan[j as int], n, level as nat, j as int));
            let leaf_ok: Option<bool> = if level == 0 {
                proof {
                    lemma_leaf(*node, n, j as int);
                    assert(self.z_leaf_results@.contains_key(j));
                }
                match self.z_leaf_results.get(&node.real[0]) {
                    Some(ok) => Some(*ok),
                    None => None,
                }
            } else {
                None
            };
            nodes.push(
                ZTreeNodeView {
                    real_participants: copied(&node.real),
                    aggregator: node.aggregator,
                    leaf_ok,
                    position: j,
                },
            );
        }
        ZTreeLevelView {
            level,
            is_leaf_level: level == 0,
            is_root_level: level + 1 == total,
            description: describe_level(level, total, plan.len()),
            nodes,
        }
    }

    /// The views of the levels of the tree.
    pub open spec fn shows_tree(self, v: Seq<ZTreeLevelView>) -> bool {
        &&& v.len() == self.z_tree_plan.len()
        &&& forall|k: int| 0 <= k < v.len() ==> self.shows_level(k, #[trigger] v[k])
    }

    fn build_z_tree_snapshot(&self) -> (r: Vec<ZTreeLevelView>)
        requires
            self.wf(),
        ensures
            self.shows_tree(r@),
    {
        let mut r: Vec<ZTreeLevelView> = Vec::new();
        for k in 0..self.z_tree_plan.len()
            invariant
                self.wf(),
                r.len() == k,
                forall|q: int| 0 <= q < k ==> self.shows_level(q, #[trigger] r[q]),
        {
            r.push(self.level_view(k));
        }
        r
    }

    /// What the next step will do.
    pub open spec fn announced(self) -> Option<Seq<char>> {
        let (next, total) = (self.z_levels_done as int, self.z_tree_plan.len() as int);
        match self.phase {
            Phase::Done => None,
            Phase::ZAggregation => Some(
                if next + 1 == total {
                    "z-Aggregation (root, level "@ + decimal(next as nat) + "/"@ + decimal(
                        (total - 1) as nat,
                    ) + ")"@
                } else if next < total {
                    "z-Aggregation (level "@ + decimal(next as nat) + "/"@ + decimal(
                        (total - 1) as nat,
                    ) + ")"@
                } else if !self.z_done {
                    "z-Transcript broadcast & approval"@
                } else {
                    "Verification"@
                },
            ),
            p => Some(p.following().name_text()),
        }
    }

    fn announce(&self) -> (r: Option<String>)
        requires
            self.wf(),
        ensures
            match r {
                Some(text) => self.announced() == Some(text@),
                None => self.announced() is None,
            },
    {
        let (next, total) = (self.z_levels_done, self.z_tree_plan.len());
        match self.phase {
            Phase::Done => None,
            Phase::ZAggregation => {
                if next < total {
                    let mut r = if total - next == 1 {
                        "z-Aggregation (root, level ".to_owned()
                    } else {
                        "z-Aggregation (level ".to_owned()
                    };
                    r.append(dec(next).as_str());
                    r.append("/");
                    r.append(dec(total - 1).as_str());
                    r.append(")");
                    Some(r)
                } else if !self.z_done {
                    Some("z-Transcript broadcast & approval".to_owned())
                } else {
                    Some("Verification".to_owned())
                }
            },
            p => Some(p.next().name().to_owned()),
        }
    }

    /// The tags of the dishonest participants.
    pub open spec fn tags(self) -> Seq<(usize, Seq<char>)> {
        let malice = self.common.malice@;
        listed(malice.dom()).map_values(|id: usize| (id, malice[id].tag_text()))
    }

    fn tag_list(&self) -> (r: Vec<(usize, String)>)
        ensures
            r@.map_values(|t: (usize, String)| (t.0, t.1@)) == self.tags(),
    {
        let ids = keys_ascending(&self.common.malice);
        let mut r: Vec<(usize, String)> = Vec::new();
        for k in 0..ids.len()
            invariant
                ids@ == listed(self.common.malice@.dom()),
                ids@.to_set() == self.common.malice@.dom(),
                r.len() == k,
                forall|q: int|
                    0 <= q < k ==> (#[trigger] r[q]).0 == ids[q] && r[q].1@
                        == self.common.malice@[ids[q]].tag_text(),
        {
            assert(ids@.to_set().contains(ids@[k as int]));
            let tag = self.common.malice_of(ids[k]).tag().to_owned();
            r.push((ids[k], tag));
        }
        assert(r@.map_values(|t: (usize, String)| (t.0, t.1@)) =~= self.tags());
        r
    }

    /// Who approved the transcript.
    pub open spec fn votes(self) -> Seq<(usize, bool)> {
        match self.z_approvals {
            Some(v) => Seq::new(
                self.common.n as nat,
                |i: int| (i as usize, v[i] is Some),
            ),
            None => Seq::empty(),
        }
    }

    fn vote_list(&self) -> (r: Vec<(usize, bool)>)
        requires
            self.wf(),
        ensures
            r@ == self.votes(),
    {
        let mut r: Vec<(usize, bool)> = Vec::new();
        if let Some(v) = &self.z_approvals {
            for i in 0..v.len()
                invariant
                    self.z_approvals == Some(*v),
                    r.len() == i,
                    forall|k: int|
                        0 <= k < i ==> #[trigger] r[k] == (k as usize, v[k] is Some),
            {
                r.push((i, v[i].is_some()));
            }
        }
        assert(r@ =~= self.votes());
        r
    }

    /// The view of the common reference.
    pub open spec fn shows_common(self, v: CommonReferenceView) -> bool {
        let (suite, setup) = (self.common.suite, self.common.setup);
        &&& v.g_g1@ == hex_text(setup.g_g1@)
        &&& v.h_g2@ == hex_text(setup.h_g2@)
        &&& v.u_1@ == hex_text(setup.u_1@)
        &&& v.ped_g1@ == point_text(suite.generators.g1)
        &&& v.ped_g2@ == point_text(suite.generators.g2)
        &&& v.ped_h1@ == point_text(suite.generators.h1)
        &&& v.ped_h2@ == point_text(suite.generators.h2)
        &&& v.elgamal_base@ == point_text(suite.base.g)
        &&& v.domain_size == self.common.domain_size
    }

    fn common_view(&self) -> (r: CommonReferenceView)
        ensures
            self.shows_common(r),
    {
        let (suite, setup) = (&self.common.suite, &self.common.setup);
        CommonReferenceView {
            g_g1: hexs(&setup.g_g1),
            h_g2: hexs(&setup.h_g2),
            u_1: hexs(&setup.u_1),
            ped_g1: point_hex(&suite.generators.g1),
            ped_g2: point_hex(&suite.generators.g2),
            ped_h1: point_hex(&suite.generators.h1),
            ped_h2: point_hex(&suite.generators.h2),
            elgamal_base: point_hex(&suite.base.g),
            domain_size: self.common.domain_size,
        }
    }

    /// The view of the key.
    pub open spec fn shows_key(self, v: Option<PublicKeyView>) -> bool {
        match (self.pk, v) {
            (Some(pk), Some(k)) => {
                &&& k.c1@ == point_text(pk.c1)
                &&& k.c2@ == point_text(pk.c2)
                &&& k.c3@ == point_text(pk.c3)
                &&& k.reconstructed_ok == self.reconstructed_ok
            },
            (None, None) => true,
            _ => false,
        }
    }

    /// All that the session shows.
    pub open spec fn shows_all(self, v: Snapshot) -> bool {
        &&& v.phase@ == self.phase.name_text()
        &&& v.phase_index == self.phase.rank()
        &&& v.can_advance == (self.phase != Phase::Done)
        &&& match v.next_phase {
            Some(text) => self.announced() == Some(text@),
            None => self.announced() is None,
        }
        &&& v.n == self.common.n
        &&& v.degree == self.common.degree
        &&& v.reconstruction_threshold == self.common.degree + 1
        &&& v.malicious@ == listed(self.common.malice@.dom())
        &&& v.malice@.map_values(|t: (usize, String)| (t.0, t.1@)) == self.tags()
        &&& v.qagg@ == listed(self.qagg@)
        &&& v.qual@ == listed(self.qual@)
        &&& v.complaints@ == self.complaints@.map_values(|c: Complaint| (c.dealer, c.complainer))
        &&& self.shows_key(v.public_key)
        &&& v.participants.len() == self.common.n
        &&& forall|i: usize|
            i < self.common.n ==> self.shows(i, #[trigger] v.participants[i as int])
        &&& views(v.log@) == views(self.log@)
        &&& self.shows_tree(v.z_tree@)
        &&& v.z_total_levels == self.z_tree_plan.len()
        &&& v.z_levels_done == self.z_levels_done
        &&& v.z_root == if self.z_tree_plan.len() == 0 {
            None
        } else {
            Some((self.common.n - 1) as usize)
        }
        &&& v.z_transcript_broadcast == self.z_approvals is Some
        &&& v.z_approvals@ == self.votes()
        &&& self.shows_common(v.common)
    }

    /// A snapshot of the session.
    pub fn snapshot(&self) -> (r: Snapshot)
        requires
            self.wf(),
        ensures
            self.shows_all(r),
    {
        let n = self.common.n;
        let mut participants: Vec<ParticipantView> = Vec::new();
        for i in 0..n
            invariant
                self.wf(),
                n == self.common.n,
                participants.len() == i,
                forall|k: usize|
                    k < i ==> self.shows(k, #[trigger] participants[k as int]),
        {
            participants.push(self.participant_view(i));
        }
        let public_key = match &self.pk {
            Some(pk) => Some(
                PublicKeyView {
                    c1: point_hex(&pk.c1),
                    c2: point_hex(&pk.c2),
                    c3: point_hex(&pk.c3),
                    reconstructed_ok: self.reconstructed_ok,
                },
            ),
            None => None,
        };
        let mut complaints: Vec<(usize, usize)> = Vec::new();
        for k in 0..self.complaints.len()
            invariant
                complaints.len() == k,
                forall|q: int|
                    0 <= q < k ==> #[trigger] complaints[q] == (
                        self.complaints[q].dealer,
                        self.complaints[q].complainer,
                    ),
        {
            complaints.push((self.complaints[k].dealer, self.complaints[k].complainer));
        }
        assert(complaints@ =~= self.complaints@.map_values(
            |c: Complaint| (c.dealer, c.complainer),
        ));
        let mut log: Vec<String> = Vec::new();
        for k in 0..self.log.len()
            invariant
                log.len() == k,
                forall|q: int| 0 <= q < k ==> #[trigger] log[q]@ == self.log[q]@,
        {
            log.push(self.log[k].as_str().to_owned());
        }
        assert(views(log@) =~= views(self.log@));
        Snapshot {
            phase: self.phase.name().to_owned(),
            phase_index: self.phase.index(),
            can_advance: self.phase != Phase::Done,
            next_phase: self.announce(),
            n,
            degree: self.common.degree,
            reconstruction_threshold: self.common.degree + 1,
            malicious: keys_ascending(&self.common.malice),
            malice: self.tag_list(),
            qagg: ascending(&self.qagg),
            qual: ascending(&self.qual),
            complaints,
            public_key,
            participants,
            log,
            z_tree: self.build_z_tree_snapshot(),
            z_total_levels: self.z_tree_plan.len(),
            z_levels_done: self.z_levels_done,
            z_root: z_root(&self.z_tree_plan, n),
            z_transcript_broadcast: self.z_transcript_broadcast,
            z_approvals: self.vote_list(),
            common: self.common_view(),
        }
    }
}

/// A leaf covers its own participant.
proof fn lemma_leaf(node: ZTreePlanNode, n: int, j: int)
    requires
        0 <= j < n <= usize::MAX,
        is_node(node, n, 0, j),
    ensures
        node.real.len() == 1,
        node.real[0] == j,
{
    vstd::arithmetic::power2::lemma2_to64();
    assert(j * 1 == j);
}

/// A tree over at most ten participants is low.
proof fn lemma_low_height(n: int)
    requires
        2 <= n <= 10,
    ensures
        1 <= height(n) <= 5,
{
    reveal_with_fuel(crate::dkg::network::ceil_log2, 6);
}

} // verus!
