//! The qualitative status that an acceptance probability stands for.

use vstd::prelude::*;

verus! {

/// Above this probability, 0.99, a claim is highly likely to finalize.
pub const HIGHLY_LIKELY_ABOVE: u64 = 990_000_000_000_000_000;

/// Above this probability, 0.7, a claim is at least likely to finalize.
pub const LIKELY_ABOVE: u64 = 700_000_000_000_000_000;

/// How likely a claim is to finalize.
#[derive(Clone, Copy, Debug, PartialEq, Eq)]
pub enum Finality {
    /// The probability is above 0.99.
    HighlyLikely,
    /// The probability is above 0.7 and at most 0.99.
    Likely,
    /// The probability is at most 0.7.
    Low,
}

/// The status of a probability: each threshold belongs to the status below it.
pub open spec fn finality_of(probability: nat) -> Finality {
    if probability > HIGHLY_LIKELY_ABOVE {
        Finality::HighlyLikely
    } else if probability > LIKELY_ABOVE {
        Finality::Likely
    } else {
        Finality::Low
    }
}

/// The words for a status.
pub open spec fn label_of(status: Finality) -> Seq<char> {
    match status {
        Finality::HighlyLikely => "Highly likely to finalize"@,
        Finality::Likely => "Likely to finalize"@,
        Finality::Low => "Low probability of finalization"@,
    }
}

/// The status of an acceptance probability given in units of 10^-18.
pub fn classify(probability: u64) -> (status: Finality)
    ensures
        status == finality_of(probability as nat),
{
    if probability > HIGHLY_LIKELY_ABOVE {
        Finality::HighlyLikely
    } else if probability > LIKELY_ABOVE {
        Finality::Likely
    } else {
        Finality::Low
    }
}

impl Finality {
    /// The words for this status.
    pub fn label(&self) -> (text: &'static str)
        ensures
            text@ == label_of(*self),
    {
        match self {
            Finality::HighlyLikely => "Highly likely to finalize",
            Finality::Likely => "Likely to finalize",
            Finality::Low => "Low probability of finalization",
        }
    }
}

} // verus!
