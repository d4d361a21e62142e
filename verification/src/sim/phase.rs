//! The phases of a session.
use vstd::prelude::*;

verus! {

/// The phases that a session steps through.
#[derive(Clone, Copy, Debug, PartialEq, Eq, Structural)]
pub enum Phase {
    Setup,
    Distribution,
    /// Aggregation of the layer for `z` along a binary tree, one level at a time.
    ZAggregation,
    Verification,
    Complaints,
    KeyGeneration,
    Done,
}

impl Phase {
    pub open spec fn name_text(self) -> Seq<char> {
        match self {
            Phase::Setup => "Setup"@,
            Phase::Distribution => "Distribution"@,
            Phase::ZAggregation => "z-Aggregation"@,
            Phase::Verification => "Verification"@,
            Phase::Complaints => "Complaints"@,
            Phase::KeyGeneration => "KeyGeneration"@,
            Phase::Done => "Done"@,
        }
    }

    /// The place in the order of phases.
    pub open spec fn rank(self) -> int {
        match self {
            Phase::Setup => 0,
            Phase::Distribution => 1,
            Phase::ZAggregation => 2,
            Phase::Verification => 3,
            Phase::Complaints => 4,
            Phase::KeyGeneration => 5,
            Phase::Done => 6,
        }
    }

    pub fn name(self) -> (r: &'static str)
        ensures
            r@ == self.name_text(),
    {
        match self {
            Phase::Setup => "Setup",
            Phase::Distribution => "Distribution",
            Phase::ZAggregation => "z-Aggregation",
            Phase::Verification => "Verification",
            Phase::Complaints => "Complaints",
            Phase::KeyGeneration => "KeyGeneration",
            Phase::Done => "Done",
        }
    }

    pub fn index(self) -> (r: usize)
        ensures
            r == self.rank(),
    {
        match self {
            Phase::Setup => 0,
            Phase::Distribution => 1,
            Phase::ZAggregation => 2,
            Phase::Verification => 3,
            Phase::Complaints => 4,
            Phase::KeyGeneration => 5,
            Phase::Done => 6,
        }
    }

    /// The following phase; the last one is its own.
    pub fn next(self) -> (r: Phase)
        ensures
            r == self.following(),
    {
        match self {
            Phase::Setup => Phase::Distribution,
            Phase::Distribution => Phase::ZAggregation,
            Phase::ZAggregation => Phase::Verification,
            Phase::Verification => Phase::Complaints,
            Phase::Complaints => Phase::KeyGeneration,
            Phase::KeyGeneration => Phase::Done,
            Phase::Done => Phase::Done,
        }
    }

    /// The following phase; the last one is its own.
    pub open spec fn following(self) -> Phase {
        match self {
            Phase::Setup => Phase::Distribution,
            Phase::Distribution => Phase::ZAggregation,
            Phase::ZAggregation => Phase::Verification,
            Phase::Verification => Phase::Complaints,
            Phase::Complaints => Phase::KeyGeneration,
            Phase::KeyGeneration => Phase::Done,
            Phase::Done => Phase::Done,
        }
    }
}

/// Each phase but the last is followed by the phase of the next rank.
pub proof fn law_phases_in_order(p: Phase)
    ensures
        p != Phase::Done ==> p.following().rank() == p.rank() + 1,
        p.following() == p <==> p == Phase::Done,
        forall|q: Phase| p.rank() == q.rank() ==> p == q,
{
}

} // verus!
