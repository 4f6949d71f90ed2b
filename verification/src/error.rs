//! The error that rejects a parameter outside the unit interval.

use vstd::prelude::*;

verus! {

/// A parameter that must be a probability was larger than 1.
#[derive(Clone, Copy, Debug, PartialEq, Eq)]
pub enum InvalidParameter {
    /// The per-attempt success probability of a claim.
    SuccessProb,
    /// The completeness of the protocol.
    Completeness,
    /// The bias of the verifier selection.
    VrfBias,
    /// The probability mass reserved for Byzantine failure.
    BftFail,
}

} // verus!
