//! Errors of the key generation.
use crate::text::{dec, decimal};
use vstd::prelude::*;

verus! {

/// Errors of the pairing-free sharing modules. It carries only small scalars and strings, never a
/// group element, so it needs no type parameter.
#[derive(Debug, Clone, Copy, PartialEq, Eq)]
pub enum VssError {
    /// The share check failed for the receiver.
    ShareCheck(usize),
    /// The distribution is malformed.
    Malformed(&'static str),
    /// Lagrange recovery received duplicate or insufficient evaluation indices.
    BadIndices,
    /// The polynomial degree is too small.
    InsufficientDegree(usize),
}

/// Errors of the whole key generation. Those of the layers outside this library carry the text
/// that describes them.
#[derive(Debug)]
pub enum DKGError {
    RatioIncorrect,
    /// The evaluations are wrong; the text is their product.
    EvaluationsCheckError(String),
    EvaluationDomainError,
    DifferentSRS,
    SignatureError(String),
    SerializationError(String),
    InvalidParticipantId(usize),
    /// Degrees and numbers of participants of two transcripts.
    TranscriptDifferentConfig(usize, usize, usize, usize),
    TranscriptDifferentCommitments,
    MSSInsufficientDegree(usize),
    MSSBadIndices,
    PedersenShareCheckError(usize),
    PedersenMalformed(&'static str),
    FeldmanShareCheckError(usize),
    FeldmanInsufficientDegree(usize),
}

/// The error of the key generation that an error of the sharing layer becomes.
pub open spec fn raised(e: VssError) -> DKGError {
    match e {
        VssError::ShareCheck(j) => DKGError::PedersenShareCheckError(j),
        VssError::Malformed(s) => DKGError::PedersenMalformed(s),
        VssError::BadIndices => DKGError::MSSBadIndices,
        VssError::InsufficientDegree(d) => DKGError::MSSInsufficientDegree(d),
    }
}

impl From<VssError> for DKGError {
    fn from(e: VssError) -> (r: Self) {
        match e {
            VssError::ShareCheck(j) => DKGError::PedersenShareCheckError(j),
            VssError::Malformed(s) => DKGError::PedersenMalformed(s),
            VssError::BadIndices => DKGError::MSSBadIndices,
            VssError::InsufficientDegree(d) => DKGError::MSSInsufficientDegree(d),
        }
    }
}

impl vstd::std_specs::convert::FromSpecImpl<VssError> for DKGError {
    open spec fn obeys_from_spec() -> bool {
        true
    }

    open spec fn from_spec(e: VssError) -> Self {
        raised(e)
    }
}

impl VssError {
    /// The description of the error.
    pub open spec fn text(self) -> Seq<char> {
        match self {
            VssError::ShareCheck(j) => "Share check failed for receiver "@ + decimal(j as nat),
            VssError::Malformed(s) => "VSS distribution malformed: "@ + s@,
            VssError::BadIndices => "Lagrange recovery received duplicate or insufficient evaluation indices"@,
            VssError::InsufficientDegree(d) => "Polynomial degree too small: "@ + decimal(d as nat),
        }
    }

    /// Describes the error.
    pub fn message(&self) -> (r: String)
        ensures
            r@ == self.text(),
    {
        match self {
            VssError::ShareCheck(j) => {
                let mut r = "Share check failed for receiver ".to_owned();
                r.append(dec(*j).as_str());
                r
            },
            VssError::Malformed(s) => {
                let mut r = "VSS distribution malformed: ".to_owned();
                r.append(*s);
                r
            },
            VssError::BadIndices => "Lagrange recovery received duplicate or insufficient evaluation indices".to_owned(),
            VssError::InsufficientDegree(d) => {
                let mut r = "Polynomial degree too small: ".to_owned();
                r.append(dec(*d).as_str());
                r
            },
        }
    }
}

impl DKGError {
    /// The description of the error.
    pub open spec fn text(self) -> Seq<char> {
        match self {
            DKGError::RatioIncorrect => "Ratio incorrect"@,
            DKGError::EvaluationsCheckError(p) => "Evaluations are wrong: product = "@ + p@,
            DKGError::EvaluationDomainError => "Could not generate evaluation domain"@,
            DKGError::DifferentSRS => "Config, dealer and nodes had different SRSes"@,
            DKGError::SignatureError(e) => "Signature error: "@ + e@,
            DKGError::SerializationError(e) => "Serialization error: "@ + e@,
            DKGError::InvalidParticipantId(i) => "Invalid participant ID: "@ + decimal(i as nat),
            DKGError::TranscriptDifferentConfig(a, b, c, d) =>
                "Transcripts have different degree or number of participants: self.degree="@
                    + decimal(a as nat) + ", other.degree="@ + decimal(b as nat)
                    + ", self.num_participants="@ + decimal(c as nat)
                    + ", self.num_participants="@ + decimal(d as nat),
            DKGError::TranscriptDifferentCommitments => "Transcripts have different commitments"@,
            DKGError::MSSInsufficientDegree(d) => "MSS polynomial degree too small (need >= 1 to pin two points): "@ + decimal(d as nat),
            DKGError::MSSBadIndices => "MSS recovery received duplicate or insufficient evaluation indices"@,
            DKGError::PedersenShareCheckError(j) => "Pedersen share check (Eq. 1) failed for receiver "@ + decimal(j as nat),
            DKGError::PedersenMalformed(s) => "Pedersen distribution malformed: "@ + s@,
            DKGError::FeldmanShareCheckError(j) => "Feldman share check (g^s = prod C_k^{j^k}) failed for receiver "@ + decimal(j as nat),
            DKGError::FeldmanInsufficientDegree(d) => "Feldman/Shamir polynomial degree too small (need >= 1): "@ + decimal(d as nat),
        }
    }

    /// Describes the error.
    pub fn message(&self) -> (r: String)
        ensures
            r@ == self.text(),
    {
        match self {
            DKGError::RatioIncorrect => "Ratio incorrect".to_owned(),
            DKGError::EvaluationsCheckError(p) => {
                let mut r = "Evaluations are wrong: product = ".to_owned();
                r.append(p.as_str());
                r
            },
            DKGError::EvaluationDomainError => "Could not generate evaluation domain".to_owned(),
            DKGError::DifferentSRS => "Config, dealer and nodes had different SRSes".to_owned(),
            DKGError::SignatureError(e) => {
                let mut r = "Signature error: ".to_owned();
                r.append(e.as_str());
                r
            },
            DKGError::SerializationError(e) => {
                let mut r = "Serialization error: ".to_owned();
                r.append(e.as_str());
                r
            },
            DKGError::InvalidParticipantId(i) => {
                let mut r = "Invalid participant ID: ".to_owned();
                r.append(dec(*i).as_str());
                r
            },
            DKGError::TranscriptDifferentConfig(a, b, c, d) => {
                let mut r = "Transcripts have different degree or number of participants: self.degree=".to_owned();
                r.append(dec(*a).as_str());
                r.append(", other.degree=");
                r.append(dec(*b).as_str());
                r.append(", self.num_participants=");
                r.append(dec(*c).as_str());
                r.append(", self.num_participants=");
                r.append(dec(*d).as_str());
                r
            },
            DKGError::TranscriptDifferentCommitments => "Transcripts have different commitments".to_owned(),
            DKGError::MSSInsufficientDegree(d) => {
                let mut r = "MSS polynomial degree too small (need >= 1 to pin two points): ".to_owned();
                r.append(dec(*d).as_str());
                r
            },
            DKGError::MSSBadIndices => "MSS recovery received duplicate or insufficient evaluation indices".to_owned(),
            DKGError::PedersenShareCheckError(j) => {
                let mut r = "Pedersen share check (Eq. 1) failed for receiver ".to_owned();
                r.append(dec(*j).as_str());
                r
            },
            DKGError::PedersenMalformed(s) => {
                let mut r = "Pedersen distribution malformed: ".to_owned();
                r.append(*s);
                r
            },
            DKGError::FeldmanShareCheckError(j) => {
                let mut r = "Feldman share check (g^s = prod C_k^{j^k}) failed for receiver ".to_owned();
                r.append(dec(*j).as_str());
                r
            },
            DKGError::FeldmanInsufficientDegree(d) => {
                let mut r = "Feldman/Shamir polynomial degree too small (need >= 1): ".to_owned();
                r.append(dec(*d).as_str());
                r
            },
        }
    }
}

} // verus!
