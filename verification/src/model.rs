//! The acceptance formula as mathematics, and the laws it obeys.
//!
//! Everything here is specification: the executable types state their
//! contracts over these functions.

use vstd::prelude::*;
use crate::fixed::{fx_mul, fx_pow, ONE};

verus! {

/// What a claim is, to the formula.
pub struct ClaimView {
    /// Free-form text; it takes no part in any computation.
    pub description: Seq<char>,
    /// The number of independent verifying parties.
    pub provers: nat,
    /// The attempts a prover may make beyond its first.
    pub retry_budget: nat,
    /// The probability that one attempt succeeds, in units of 10^-18.
    pub success_prob: nat,
}

impl ClaimView {
    /// The success probability is at most 1.
    pub open spec fn valid(self) -> bool {
        self.success_prob <= ONE
    }
}

/// The protocol's fixed sources of doubt, in units of 10^-18.
pub struct ParamsView {
    /// The probability that the protocol eventually accepts a valid claim.
    pub completeness: nat,
    /// The bias that the verifier selection leaves.
    pub vrf_bias: nat,
    /// The mass reserved for Byzantine failure.
    pub bft_fail: nat,
}

impl ParamsView {
    /// Each of the three is at most 1.
    pub open spec fn valid(self) -> bool {
        &&& self.completeness <= ONE
        &&& self.vrf_bias <= ONE
        &&& self.bft_fail <= ONE
    }
}

/// The attempts made in one round: every prover tries once and then as often
/// as the retry budget allows.
pub open spec fn attempts(provers: nat, retry_budget: nat) -> nat {
    provers * (retry_budget + 1)
}

/// The probability that every attempt of a round fails.
pub open spec fn miss_probability(claim: ClaimView) -> nat {
    fx_pow((ONE - claim.success_prob) as nat, attempts(claim.provers, claim.retry_budget))
}

/// The probability that at least one attempt of a round succeeds.
pub open spec fn retry_probability(claim: ClaimView) -> nat {
    (ONE - miss_probability(claim)) as nat
}

/// The doubt that no number of rounds removes: incompleteness, less the
/// share that the selection bias takes from it.
pub open spec fn doubt(params: ParamsView) -> nat {
    fx_mul((ONE - params.completeness) as nat, (ONE - params.vrf_bias) as nat)
}

/// The probability that no round out of `rounds` succeeds.
pub open spec fn decay(claim: ClaimView, rounds: nat) -> nat {
    fx_pow((ONE - retry_probability(claim)) as nat, rounds)
}

/// The mass that still speaks against acceptance after `rounds` rounds.
pub open spec fn residual(params: ParamsView, claim: ClaimView, rounds: nat) -> nat {
    fx_mul(doubt(params), decay(claim, rounds))
}

/// The nearest value in the unit interval.
pub open spec fn clamp_unit(x: int) -> nat {
    if x < 0 {
        0
    } else if x > ONE {
        ONE as nat
    } else {
        x as nat
    }
}

/// The probability that the claim is accepted after `rounds` rounds: what the
/// residual and the Byzantine mass leave of 1, clamped after the subtraction.
pub open spec fn acceptance(params: ParamsView, claim: ClaimView, rounds: nat) -> nat {
    clamp_unit(ONE - residual(params, claim, rounds) - params.bft_fail)
}

} // verus!
