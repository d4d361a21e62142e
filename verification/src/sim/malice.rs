//! How participants misbehave.
use crate::text::same_text;
use vstd::prelude::*;

verus! {

/// How a participant misbehaves.
#[derive(Clone, Copy, Debug, PartialEq, Eq, Structural)]
pub enum Malice {
    /// Plays honestly throughout.
    Honest,
    /// Corrupts its commitment to `z`, so that the publicly verifiable layer reports it. Deals
    /// consistent Pedersen shares.
    ZCommitment,
    /// Deals one inconsistent Pedersen share to a victim, and is honest in the layer for `z`; only
    /// the complaint phase catches it.
    PedersenShare,
    /// Corrupts both layers; the report of the layer for `z` disqualifies it without a
    /// disputation.
    Both,
}

impl Malice {
    pub open spec fn tag_text(self) -> Seq<char> {
        match self {
            Malice::Honest => "honest"@,
            Malice::ZCommitment => "z"@,
            Malice::PedersenShare => "pedersen"@,
            Malice::Both => "both"@,
        }
    }

    pub open spec fn label_text(self) -> Seq<char> {
        match self {
            Malice::Honest => "honest"@,
            Malice::ZCommitment => "corrupt z (→ Qagg)"@,
            Malice::PedersenShare => "corrupt Pedersen share (→ complaint)"@,
            Malice::Both => "corrupt both"@,
        }
    }

    /// The mode of a tag; an unknown tag is that of an honest participant.
    pub open spec fn of_tag(s: Seq<char>) -> Malice {
        if s == "z"@ {
            Malice::ZCommitment
        } else if s == "pedersen"@ {
            Malice::PedersenShare
        } else if s == "both"@ {
            Malice::Both
        } else {
            Malice::Honest
        }
    }

    /// The tag of the mode, for the wire.
    pub fn tag(self) -> (r: &'static str)
        ensures
            r@ == self.tag_text(),
    {
        match self {
            Malice::Honest => "honest",
            Malice::ZCommitment => "z",
            Malice::PedersenShare => "pedersen",
            Malice::Both => "both",
        }
    }

    /// Parses a tag.
    pub fn from_tag(s: &str) -> (r: Malice)
        ensures
            r == Malice::of_tag(s@),
    {
        if same_text(s, "z") {
            Malice::ZCommitment
        } else if same_text(s, "pedersen") {
            Malice::PedersenShare
        } else if same_text(s, "both") {
            Malice::Both
        } else {
            Malice::Honest
        }
    }

    /// A description for display.
    pub fn label(self) -> (r: &'static str)
        ensures
            r@ == self.label_text(),
    {
        match self {
            Malice::Honest => "honest",
            Malice::ZCommitment => "corrupt z (→ Qagg)",
            Malice::PedersenShare => "corrupt Pedersen share (→ complaint)",
            Malice::Both => "corrupt both",
        }
    }

    pub fn is_malicious(self) -> (r: bool)
        ensures
            r == (self != Malice::Honest),
    {
        self != Malice::Honest
    }

    pub fn corrupt_z(self) -> (r: bool)
        ensures
            r == (self == Malice::ZCommitment || self == Malice::Both),
    {
        matches!(self, Malice::ZCommitment | Malice::Both)
    }

    pub fn corrupt_pedersen(self) -> (r: bool)
        ensures
            r == (self == Malice::PedersenShare || self == Malice::Both),
    {
        matches!(self, Malice::PedersenShare | Malice::Both)
    }
}

/// A tag gives back its mode.
pub proof fn law_tag_roundtrip(m: Malice)
    ensures
        Malice::of_tag(m.tag_text()) == m,
{
    reveal_strlit("honest");
    reveal_strlit("z");
    reveal_strlit("pedersen");
    reveal_strlit("both");
    assert("honest"@.len() == 6 && "z"@.len() == 1 && "pedersen"@.len() == 8 && "both"@.len() == 4);
}

} // verus!
