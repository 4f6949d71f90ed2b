//! A claim and its acceptance probability.

use vstd::prelude::*;
use crate::error::InvalidParameter;
use crate::fixed::{fixed_mul, fixed_pow, ONE};
use crate::model::{acceptance, attempts, miss_probability, retry_probability, ClaimView};
use crate::params::{standard_params, ProtocolParams};
use crate::random::gen_range_inclusive;

verus! {

/// The lowest provability level.
pub const MIN_LEVEL: u32 = 1;

/// The highest provability level.
pub const MAX_LEVEL: u32 = 5;

/// The assertion under verification, with the parameters of its verification.
#[derive(Debug)]
pub struct Claim {
    description: String,
    provers: u32,
    retry_budget: u32,
    success_prob: u64,
}

impl View for Claim {
    type V = ClaimView;

    closed spec fn view(&self) -> ClaimView {
        ClaimView {
            description: self.description@,
            provers: self.provers as nat,
            retry_budget: self.retry_budget as nat,
            success_prob: self.success_prob as nat,
        }
    }
}

impl Claim {
    #[verifier::type_invariant]
    spec fn well_formed(self) -> bool {
        self.success_prob <= ONE
    }

    /// Makes a claim, unless the success probability exceeds 1. Any
    /// description is taken, the empty one too, and any number of provers
    /// and retries.
    pub fn new(description: String, provers: u32, retry_budget: u32, success_prob: u64) -> (made:
        Result<Claim, InvalidParameter>)
        ensures
            match made {
                Ok(claim) => success_prob <= ONE && claim@ == (ClaimView {
                    description: description@,
                    provers: provers as nat,
                    retry_budget: retry_budget as nat,
                    success_prob: success_prob as nat,
                }),
                Err(error) => success_prob > ONE && error == InvalidParameter::SuccessProb,
            },
    {
        if success_prob > ONE {
            Err(InvalidParameter::SuccessProb)
        } else {
            Ok(Claim { description, provers, retry_budget, success_prob })
        }
    }

    /// The claim's text.
    pub fn description(&self) -> (text: &str)
        ensures
            text@ == self@.description,
    {
        self.description.as_str()
    }

    /// The number of provers.
    pub fn provers(&self) -> (count: u32)
        ensures
            count == self@.provers,
    {
        self.provers
    }

    /// The attempts a prover may make beyond its first.
    pub fn retry_budget(&self) -> (count: u32)
        ensures
            count == self@.retry_budget,
    {
        self.retry_budget
    }

    /// The probability that one attempt succeeds.
    pub fn success_prob(&self) -> (value: u64)
        ensures
            value == self@.success_prob,
            value <= ONE,
    {
        proof {
            use_type_invariant(self);
        }
        self.success_prob
    }

    /// The attempts made in one round.
    pub fn attempts_per_round(&self) -> (count: u64)
        ensures
            count == attempts(self@.provers, self@.retry_budget),
    {
        let provers: u64 = self.provers as u64;
        let tries: u64 = self.retry_budget as u64 + 1;
        assert(provers * tries <= 0xffff_ffff * 0x1_0000_0000) by (nonlinear_arith)
            requires
                provers <= 0xffff_ffff,
                tries <= 0x1_0000_0000,
        ;
        provers * tries
    }

    /// The probability that every attempt of a round fails.
    pub fn miss_probability(&self) -> (value: u64)
        ensures
            value == miss_probability(self@),
            value <= ONE,
    {
        proof {
            use_type_invariant(self);
        }
        fixed_pow(ONE - self.success_prob, self.attempts_per_round())
    }

    /// The probability that at least one attempt of a round succeeds.
    pub fn retry_probability(&self) -> (value: u64)
        ensures
            value == retry_probability(self@),
            value <= ONE,
    {
        ONE - self.miss_probability()
    }

    /// The probability that the claim is accepted after `rounds` rounds,
    /// under the given protocol parameters. Products are rounded down, which
    /// `accuracy::law_acceptance_accuracy` holds against exact arithmetic.
    pub fn acceptance_probability_with(&self, params: &ProtocolParams, rounds: u32) -> (value: u64)
        ensures
            value == acceptance(params@, self@, rounds as nat),
            value <= ONE,
    {
        let still_missed: u64 = fixed_pow(ONE - self.retry_probability(), rounds as u64);
        let against: u64 = fixed_mul(params.doubt(), still_missed);
        let kept: u64 = ONE - against;
        let reserved: u64 = params.bft_fail();
        if kept <= reserved {
            0
        } else {
            kept - reserved
        }
    }

    /// The probability that the claim is accepted after `rounds` rounds,
    /// under the protocol's own constants.
    pub fn acceptance_probability(&self, rounds: u32) -> (value: u64)
        ensures
            value == acceptance(standard_params(), self@, rounds as nat),
            value <= ONE,
    {
        let params: ProtocolParams = ProtocolParams::standard();
        self.acceptance_probability_with(&params, rounds)
    }

    /// Draws a provability level from the thread-local generator: a number
    /// from `MIN_LEVEL` to `MAX_LEVEL`. Every call draws anew; neither the
    /// claim nor its acceptance probability has any part in it.
    pub fn provability_level(&self) -> (level: u32)
        ensures
            MIN_LEVEL <= level <= MAX_LEVEL,
    {
        let mut rng = rand::thread_rng();
        gen_range_inclusive(&mut rng, MIN_LEVEL, MAX_LEVEL)
    }
}

} // verus!
