//! What holds of the acceptance probability for all claims.

use vstd::prelude::*;
use crate::fixed::{
    fx_pow, lemma_fx_mul_le, lemma_fx_mul_monotone, lemma_fx_mul_one, lemma_fx_pow_antitone,
    lemma_fx_pow_bounds, lemma_fx_pow_monotone, ONE,
};
use crate::model::{
    acceptance, attempts, clamp_unit, doubt, miss_probability, residual, retry_probability,
    ClaimView, ParamsView,
};
use crate::params::standard_params;

verus! {

/// The probabilities of a round lie in the unit interval, and what a round
/// misses is what its retries do not reach.
pub proof fn law_round_in_unit(claim: ClaimView)
    requires
        claim.valid(),
    ensures
        miss_probability(claim) <= ONE,
        retry_probability(claim) <= ONE,
        miss_probability(claim) + retry_probability(claim) == ONE,
{
    lemma_fx_pow_bounds(
        (ONE - claim.success_prob) as nat,
        attempts(claim.provers, claim.retry_budget),
    );
}

/// The acceptance probability lies in the unit interval, whatever the
/// parameters.
pub proof fn law_acceptance_in_unit(params: ParamsView, claim: ClaimView, rounds: nat)
    ensures
        0 <= acceptance(params, claim, rounds) <= ONE,
{
}

/// More rounds never lower the acceptance probability.
pub proof fn law_rounds_monotone(params: ParamsView, claim: ClaimView, fewer: nat, more: nat)
    requires
        params.valid(),
        claim.valid(),
        fewer <= more,
    ensures
        residual(params, claim, more) <= residual(params, claim, fewer),
        acceptance(params, claim, fewer) <= acceptance(params, claim, more),
{
    law_round_in_unit(claim);
    let miss = (ONE - retry_probability(claim)) as nat;
    lemma_fx_pow_antitone(miss, fewer, more);
    lemma_fx_mul_monotone(doubt(params), fx_pow(miss, more), doubt(params), fx_pow(miss, fewer));
}

/// A higher success probability per attempt, with the same provers and retry
/// budget, never lowers the probability that a round succeeds, and so never
/// lowers the acceptance probability.
pub proof fn law_success_monotone(
    params: ParamsView,
    weaker: ClaimView,
    stronger: ClaimView,
    rounds: nat,
)
    requires
        params.valid(),
        weaker.valid(),
        stronger.valid(),
        weaker.provers == stronger.provers,
        weaker.retry_budget == stronger.retry_budget,
        weaker.success_prob <= stronger.success_prob,
    ensures
        retry_probability(weaker) <= retry_probability(stronger),
        acceptance(params, weaker, rounds) <= acceptance(params, stronger, rounds),
{
    law_round_in_unit(weaker);
    law_round_in_unit(stronger);
    lemma_fx_pow_monotone(
        (ONE - stronger.success_prob) as nat,
        (ONE - weaker.success_prob) as nat,
        attempts(weaker.provers, weaker.retry_budget),
    );
    let miss_weaker = (ONE - retry_probability(weaker)) as nat;
    let miss_stronger = (ONE - retry_probability(stronger)) as nat;
    lemma_fx_pow_monotone(miss_stronger, miss_weaker, rounds);
    lemma_fx_mul_monotone(
        doubt(params),
        fx_pow(miss_stronger, rounds),
        doubt(params),
        fx_pow(miss_weaker, rounds),
    );
}

/// Without a round, the acceptance probability is what the fixed doubt and
/// the Byzantine mass leave of 1, whatever the provers, the retry budget and
/// the success probability.
pub proof fn law_zero_rounds(params: ParamsView, claim: ClaimView)
    ensures
        residual(params, claim, 0) == doubt(params),
        acceptance(params, claim, 0) == clamp_unit(ONE - doubt(params) - params.bft_fail),
{
    lemma_fx_pow_bounds((ONE - retry_probability(claim)) as nat, 0);
    lemma_fx_mul_one(doubt(params));
}

/// Under the protocol's own constants the fixed doubt is 0.00999, and the
/// acceptance probability without a round is 0.98991.
pub proof fn law_zero_rounds_standard(claim: ClaimView)
    ensures
        doubt(standard_params()) == 9_990_000_000_000_000,
        acceptance(standard_params(), claim, 0) == 989_910_000_000_000_000,
{
    law_zero_rounds(standard_params(), claim);
    assert((10_000_000_000_000_000nat * 999_000_000_000_000_000nat) / 1_000_000_000_000_000_000nat
        == 9_990_000_000_000_000nat) by (nonlinear_arith);
}

/// Under the protocol's own constants the acceptance probability lies
/// between 0.98991 and 0.9999: the clamp never has to act.
pub proof fn law_standard_range(claim: ClaimView, rounds: nat)
    requires
        claim.valid(),
    ensures
        989_910_000_000_000_000 <= acceptance(standard_params(), claim, rounds)
            <= 999_900_000_000_000_000,
{
    law_zero_rounds_standard(claim);
    law_rounds_monotone(standard_params(), claim, 0, rounds);
}

/// Without provers no attempt is made: no round can succeed, and the
/// acceptance probability is the same after any number of rounds.
pub proof fn law_no_provers(params: ParamsView, claim: ClaimView, rounds: nat)
    requires
        claim.valid(),
        claim.provers == 0,
    ensures
        retry_probability(claim) == 0,
        acceptance(params, claim, rounds) == acceptance(params, claim, 0),
{
    assert(attempts(claim.provers, claim.retry_budget) == 0) by (nonlinear_arith)
        requires
            claim.provers == 0,
    ;
    lemma_fx_pow_bounds((ONE - claim.success_prob) as nat, 0);
    lemma_fx_pow_bounds(ONE as nat, rounds);
    lemma_fx_pow_bounds(ONE as nat, 0);
}

/// Where every attempt succeeds and at least one is made, a round is sure to
/// succeed, and after one round or more only the Byzantine mass is missing.
pub proof fn law_certain_success(params: ParamsView, claim: ClaimView, rounds: nat)
    requires
        params.valid(),
        claim.success_prob == ONE,
        claim.provers > 0,
        rounds > 0,
    ensures
        retry_probability(claim) == ONE,
        residual(params, claim, rounds) == 0,
        acceptance(params, claim, rounds) == ONE - params.bft_fail,
{
    let tries = attempts(claim.provers, claim.retry_budget);
    assert(tries > 0) by (nonlinear_arith)
        requires
            tries == claim.provers * (claim.retry_budget + 1),
            claim.provers > 0,
    ;
    lemma_fx_pow_bounds(0, tries);
    lemma_fx_pow_bounds(0, rounds);
    lemma_fx_mul_le((ONE - params.completeness) as nat, (ONE - params.vrf_bias) as nat);
    lemma_fx_mul_le(0, doubt(params));
}

} // verus!
