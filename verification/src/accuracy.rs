//! How far the fixed-point power is from the exact one.
//!
//! Rounding down loses less than one unit of 10^-18 at every product. The
//! laws here add the losses up: a power with exponent `n` is never above the
//! exact power and at most `n` units below it, and the acceptance probability
//! is never below the exact one and at most a unit per attempt and round,
//! and two more, above it.

use vstd::prelude::*;
use vstd::arithmetic::power::{
    lemma_pow0, lemma_pow1, lemma_pow_adds, lemma_pow_distributes, lemma_pow_multiplies,
    lemma_pow_positive, lemma_square_is_pow2, pow,
};
use crate::fixed::{fx_mul, fx_pow, fx_pow_from, lemma_fx_mul_le, lemma_fx_pow_bounds, ONE};
use crate::model::{
    acceptance, attempts, decay, doubt, miss_probability, residual, ClaimView, ParamsView,
};

verus! {

/// The smaller of `x` and 1.
pub open spec fn cap_unit(x: nat) -> nat {
    if x > ONE {
        ONE as nat
    } else {
        x
    }
}

/// Between numbers that are not negative, a larger base gives a larger power.
pub proof fn lemma_pow_base_monotone(x: int, y: int, e: nat)
    requires
        0 <= x <= y,
    ensures
        0 <= pow(x, e) <= pow(y, e),
    decreases e,
{
    reveal(pow);
    if e > 0 {
        lemma_pow_base_monotone(x, y, (e - 1) as nat);
        let p = pow(x, (e - 1) as nat);
        let q = pow(y, (e - 1) as nat);
        assert(0 <= x * p <= y * q) by (nonlinear_arith)
            requires
                0 <= x <= y,
                0 <= p <= q,
        ;
    }
}

/// An exponent split into its half and its lowest bit.
proof fn lemma_pow_halves(b: int, e: nat)
    requires
        e > 0,
    ensures
        pow(b, e) == pow(b, e % 2) * pow(b * b, e / 2),
        e % 2 == 1 ==> pow(b, e % 2) == b,
        e % 2 == 0 ==> pow(b, e % 2) == 1,
{
    let half = e / 2;
    let bit = e % 2;
    assert(e == bit + 2 * half);
    lemma_pow_adds(b, bit, 2 * half);
    lemma_pow_multiplies(b, 2, half);
    lemma_square_is_pow2(b);
    lemma_pow0(b);
    lemma_pow1(b);
}

/// A product rounded down, set against the exact product.
proof fn lemma_fx_mul_floor(x: nat, y: nat)
    ensures
        fx_mul(x, y) * ONE <= x * y < (fx_mul(x, y) + 1) * ONE,
{
    let one: nat = ONE as nat;
    let product: nat = x * y;
    assert((product / one) * one <= product < (product / one + 1) * one) by (nonlinear_arith)
        requires
            one > 0,
    ;
}

/// The fixed-point power is never above the exact one:
/// `fx_pow_from(acc, base, exp) / 1 <= acc * (base / 1)^exp`.
pub proof fn lemma_fx_pow_from_below(acc: nat, base: nat, exp: nat)
    ensures
        fx_pow_from(acc, base, exp) * pow(ONE as int, exp) <= acc * pow(base as int, exp),
    decreases exp,
{
    let one: int = ONE as int;
    if exp == 0 {
        lemma_pow0(one);
        lemma_pow0(base as int);
    } else {
        let half = exp / 2;
        let b: int = base as int;
        let square = fx_mul(base, base);
        let next = if exp % 2 == 1 { fx_mul(acc, base) } else { acc };
        let result = fx_pow_from(acc, base, exp) as int;
        lemma_fx_pow_from_below(next, square, half);
        lemma_fx_mul_floor(base, base);
        lemma_fx_mul_floor(acc, base);
        lemma_pow_halves(one, exp);
        lemma_pow_halves(b, exp);
        // (square * 1)^half <= (base * base)^half
        lemma_pow_distributes(square as int, one, half);
        lemma_pow_base_monotone(square * one, b * b, half);
        lemma_pow_base_monotone(0, square as int, half);
        lemma_pow_positive(one, half);
        lemma_pow_multiplies(one, 2, half);
        lemma_square_is_pow2(one);
        lemma_pow_adds(one, half, half);
        let p = pow(one, half);
        let q = pow(square as int, half);
        let r = pow(b * b, half);
        let low_one = pow(one, exp % 2);
        let low_base = pow(b, exp % 2);
        assert(pow(one * one, half) == p * p) by {
            lemma_pow_distributes(one, one, half);
        }
        assert(next * low_one <= acc * low_base);
        assert(0 <= low_one);
        assert(q * p <= r);
        assert(result * p <= next * q);
        assert(result * (low_one * (p * p)) <= acc * (low_base * r)) by (nonlinear_arith)
            requires
                result * p <= next * q,
                q * p <= r,
                next * low_one <= acc * low_base,
                0 <= result,
                0 <= next,
                0 <= acc,
                0 < p,
                0 <= q,
                0 <= low_one,
                0 <= r,
        ;
    }
}

/// The square of a number known up to `slack` is known up to twice the
/// slack and the unit that rounding may take.
proof fn lemma_cap_square(base: nat, slack: nat)
    requires
        base <= ONE,
    ensures
        cap_unit(base + slack) * cap_unit(base + slack) <= cap_unit(
            fx_mul(base, base) + 2 * slack + 1,
        ) * ONE,
{
    let one: int = ONE as int;
    let b: int = base as int;
    let s: int = slack as int;
    let u: int = cap_unit(base + slack) as int;
    let square: int = fx_mul(base, base) as int;
    lemma_fx_mul_floor(base, base);
    assert(u * u <= one * one) by (nonlinear_arith)
        requires
            0 <= u <= one,
    ;
    assert(u * u <= b * b + 2 * s * one) by (nonlinear_arith)
        requires
            0 <= u <= one,
            u <= b + s,
            0 <= b <= one,
            0 <= s,
    ;
    assert((square + 1) * one + 2 * s * one == (square + 2 * s + 1) * one) by (nonlinear_arith);
}

/// The product of two numbers known up to `slack_x` and `slack_y` is known
/// up to their sum and the unit that rounding may take.
proof fn lemma_cap_product(x: nat, slack_x: nat, y: nat, slack_y: nat)
    requires
        x <= ONE,
        y <= ONE,
    ensures
        cap_unit(x + slack_x) * cap_unit(y + slack_y) <= cap_unit(
            fx_mul(x, y) + slack_x + slack_y + 1,
        ) * ONE,
{
    let one: int = ONE as int;
    let a: int = cap_unit(x + slack_x) as int;
    let u: int = cap_unit(y + slack_y) as int;
    let xi: int = x as int;
    let yi: int = y as int;
    let sx: int = slack_x as int;
    let sy: int = slack_y as int;
    let product: int = fx_mul(x, y) as int;
    lemma_fx_mul_floor(x, y);
    assert(a * u <= one * one) by (nonlinear_arith)
        requires
            0 <= a <= one,
            0 <= u <= one,
    ;
    assert(a * u <= xi * yi + sy * one + sx * one) by (nonlinear_arith)
        requires
            0 <= a <= one,
            0 <= u <= one,
            a <= xi + sx,
            u <= yi + sy,
            0 <= xi <= one,
            0 <= yi <= one,
            0 <= sx,
            0 <= sy,
    ;
    assert((product + 1) * one + sy * one + sx * one == (product + sx + sy + 1) * one)
        by (nonlinear_arith);
}

/// The fixed-point power is at most one unit per factor below the exact
/// one. Where `acc` and `base` are themselves rounded down, by at most
/// `slack_acc` and `slack_base`, the power of the exact values is at most
/// `slack_acc + exp * (slack_base + 1)` units above the fixed-point power.
pub proof fn lemma_fx_pow_from_above(
    acc: nat,
    slack_acc: nat,
    base: nat,
    slack_base: nat,
    exp: nat,
)
    requires
        acc <= ONE,
        base <= ONE,
    ensures
        cap_unit(acc + slack_acc) * pow(cap_unit(base + slack_base) as int, exp) <= (fx_pow_from(
            acc,
            base,
            exp,
        ) + slack_acc + exp * (slack_base + 1)) * pow(ONE as int, exp),
    decreases exp,
{
    let one: int = ONE as int;
    let a: int = cap_unit(acc + slack_acc) as int;
    let u: int = cap_unit(base + slack_base) as int;
    if exp == 0 {
        lemma_pow0(one);
        lemma_pow0(u);
        assert(0 * (slack_base + 1) == 0);
    } else {
        let half = exp / 2;
        let bit = exp % 2;
        let square = fx_mul(base, base);
        let next = if bit == 1 { fx_mul(acc, base) } else { acc };
        let slack_next: nat = if bit == 1 { slack_acc + slack_base + 1 } else { slack_acc };
        let slack_square: nat = 2 * slack_base + 1;
        let a_next: int = cap_unit(next + slack_next) as int;
        let u_next: int = cap_unit(square + slack_square) as int;
        let result: int = fx_pow_from(acc, base, exp) as int;
        lemma_fx_mul_le(base, base);
        lemma_fx_mul_le(acc, base);
        lemma_fx_pow_from_above(next, slack_next, square, slack_square, half);
        lemma_cap_square(base, slack_base);
        lemma_cap_product(acc, slack_acc, base, slack_base);
        lemma_pow_halves(one, exp);
        lemma_pow_halves(u, exp);
        // (u * u)^half <= (u_next * 1)^half
        lemma_pow_base_monotone(u * u, u_next * one, half);
        lemma_pow_distributes(u_next, one, half);
        lemma_pow_base_monotone(0, u_next, half);
        lemma_pow_positive(one, half);
        lemma_pow_distributes(one, one, half);
        let p = pow(one, half);
        let q = pow(u_next, half);
        let r = pow(u * u, half);
        let low_one = pow(one, bit);
        let low_u = pow(u, bit);
        let total: int = (slack_acc + exp * (slack_base + 1)) as int;
        assert(slack_next + half * (slack_square + 1) == total) by (nonlinear_arith)
            requires
                exp == 2 * half + bit,
                slack_square == 2 * slack_base + 1,
                slack_next == slack_acc + bit * (slack_base + 1),
                total == slack_acc + exp * (slack_base + 1),
        ;
        assert(a * low_u <= a_next * low_one);
        assert(r <= q * p);
        assert(a_next * q <= (result + total) * p);
        assert(a * (low_u * r) <= (result + total) * (low_one * (p * p))) by (nonlinear_arith)
            requires
                a * low_u <= a_next * low_one,
                r <= q * p,
                a_next * q <= (result + total) * p,
                0 <= a,
                0 <= a_next,
                0 <= low_u,
                0 < low_one,
                0 <= r,
                0 <= q,
                0 < p,
                0 <= result + total,
        ;
    }
}

/// The fixed-point power against the exact power of the same base: never
/// above it, and at most one unit of 10^-18 for each factor below it. With
/// `b = base / 10^18`, this reads
/// `fx_pow(base, exp) <= b^exp * 10^18 <= fx_pow(base, exp) + exp`.
pub proof fn law_power_accuracy(base: nat, exp: nat)
    requires
        base <= ONE,
    ensures
        fx_pow(base, exp) * pow(ONE as int, exp) <= ONE * pow(base as int, exp),
        ONE * pow(base as int, exp) <= (fx_pow(base, exp) + exp) * pow(ONE as int, exp),
{
    lemma_fx_pow_from_below(ONE as nat, base, exp);
    lemma_fx_pow_from_above(ONE as nat, 0, base, 0, exp);
    assert(exp * (0 + 1) == exp) by (nonlinear_arith);
}

/// All the attempts of `rounds` rounds.
pub open spec fn total_attempts(claim: ClaimView, rounds: nat) -> nat {
    attempts(claim.provers, claim.retry_budget) * rounds
}

/// The most that rounding may take from the decay of `rounds` rounds, in
/// units of 10^-18: one unit for each attempt and one for each round.
pub open spec fn decay_slack(claim: ClaimView, rounds: nat) -> nat {
    rounds * (attempts(claim.provers, claim.retry_budget) + 1)
}

/// What the exact values below are multiplied by to make them integers:
/// 10^18 for each attempt of all rounds, and once more.
pub open spec fn exact_scale(claim: ClaimView, rounds: nat) -> int {
    ONE * pow(ONE as int, total_attempts(claim, rounds))
}

/// The residual that exact arithmetic gives,
/// `(1 - completeness) * (1 - vrf_bias) * (1 - success_prob)^(attempts * rounds)`,
/// in units of 10^-18 and multiplied by `exact_scale`.
pub open spec fn exact_residual(params: ParamsView, claim: ClaimView, rounds: nat) -> int {
    (ONE - params.completeness) * (ONE - params.vrf_bias) * pow(
        ONE - claim.success_prob,
        total_attempts(claim, rounds),
    )
}

/// The acceptance probability that exact arithmetic gives, 1 less the exact
/// residual and the Byzantine mass, clamped to the unit interval, in units
/// of 10^-18 and multiplied by `exact_scale`.
pub open spec fn exact_acceptance(params: ParamsView, claim: ClaimView, rounds: nat) -> int {
    let scale = exact_scale(claim, rounds);
    let raw = (ONE - params.bft_fail) * scale - exact_residual(params, claim, rounds);
    if raw < 0 {
        0
    } else if raw > ONE * scale {
        ONE * scale
    } else {
        raw
    }
}

/// Cancels a positive factor on both sides of an inequality.
proof fn lemma_cancel(x: int, y: int, factor: int)
    requires
        x * factor <= y * factor,
        factor > 0,
    ensures
        x <= y,
{
    assert(x <= y) by (nonlinear_arith)
        requires
            x * factor <= y * factor,
            factor > 0,
    ;
}

/// The power of a power, with both bases scaled: where `x * sx <= y * sy`,
/// the same holds of their powers.
proof fn lemma_pow_scaled(x: int, sx: int, y: int, sy: int, e: nat)
    requires
        0 <= x,
        0 <= sx,
        x * sx <= y * sy,
    ensures
        pow(x, e) * pow(sx, e) <= pow(y, e) * pow(sy, e),
{
    assert(0 <= x * sx) by (nonlinear_arith)
        requires
            0 <= x,
            0 <= sx,
    ;
    lemma_pow_base_monotone(x * sx, y * sy, e);
    lemma_pow_distributes(x, sx, e);
    lemma_pow_distributes(y, sy, e);
}

/// The decay against the exact one: with `q = 1 - success_prob` and `n` the
/// attempts of all rounds, `decay <= q^n * 10^18 <= decay + decay_slack`.
pub proof fn law_decay_accuracy(claim: ClaimView, rounds: nat)
    requires
        claim.valid(),
    ensures
        decay(claim, rounds) * pow(ONE as int, total_attempts(claim, rounds)) <= ONE * pow(
            ONE - claim.success_prob,
            total_attempts(claim, rounds),
        ),
        ONE * pow(ONE - claim.success_prob, total_attempts(claim, rounds)) <= (decay(claim, rounds)
            + decay_slack(claim, rounds)) * pow(ONE as int, total_attempts(claim, rounds)),
{
    let one: int = ONE as int;
    let tries = attempts(claim.provers, claim.retry_budget);
    let fail: nat = (ONE - claim.success_prob) as nat;
    let f: int = fail as int;
    let miss: nat = miss_probability(claim);
    let m: int = miss as int;
    let d: int = decay(claim, rounds) as int;
    let slack: int = decay_slack(claim, rounds) as int;
    let n = total_attempts(claim, rounds);
    lemma_fx_pow_bounds(fail, tries);
    assert(decay(claim, rounds) == fx_pow(miss, rounds));
    let one_tries = pow(one, tries);
    let fail_tries = pow(f, tries);
    let one_rounds = pow(one, rounds);
    let one_all = pow(one, n);
    let fail_all = pow(f, n);
    lemma_pow_positive(one, tries);
    lemma_pow_positive(one, rounds);
    lemma_pow_positive(one, n);
    lemma_pow_base_monotone(0, f, tries);
    lemma_pow_base_monotone(0, f, n);
    lemma_pow_base_monotone(f, one, tries);
    lemma_pow_multiplies(one, tries, rounds);
    lemma_pow_multiplies(f, tries, rounds);
    // never above
    assert(d * one_all <= one * fail_all) by {
        lemma_fx_pow_from_below(ONE as nat, fail, tries);
        lemma_fx_pow_from_below(ONE as nat, miss, rounds);
        let miss_rounds = pow(m, rounds);
        lemma_pow_base_monotone(0, m, rounds);
        lemma_pow_scaled(m, one_tries, fail_tries, one, rounds);
        assert((d * one_all) * one_rounds <= (one * fail_all) * one_rounds) by (nonlinear_arith)
            requires
                d * one_rounds <= one * miss_rounds,
                miss_rounds * one_all <= fail_all * one_rounds,
                0 <= one_all,
                0 < one,
                0 <= d,
        ;
        lemma_cancel(d * one_all, one * fail_all, one_rounds);
    }
    // less than the slack below
    assert(one * fail_all <= (d + slack) * one_all) by {
        let upper: int = cap_unit(miss + tries) as int;
        let upper_rounds = pow(upper, rounds);
        lemma_fx_pow_from_above(ONE as nat, 0, fail, 0, tries);
        lemma_fx_pow_from_above(ONE as nat, 0, miss, tries, rounds);
        assert(tries * (0 + 1) == tries) by (nonlinear_arith);
        assert(one * fail_tries <= upper * one_tries) by (nonlinear_arith)
            requires
                one * fail_tries <= (m + tries) * one_tries,
                fail_tries <= one_tries,
                upper == one || upper == m + tries,
                0 < one,
        ;
        lemma_pow_scaled(fail_tries, one, upper, one_tries, rounds);
        lemma_pow_base_monotone(0, upper, rounds);
        assert((one * fail_all) * one_rounds <= ((d + slack) * one_all) * one_rounds)
            by (nonlinear_arith)
            requires
                fail_all * one_rounds <= upper_rounds * one_all,
                one * upper_rounds <= (d + slack) * one_rounds,
                0 <= one_all,
                0 < one,
        ;
        lemma_cancel(one * fail_all, (d + slack) * one_all, one_rounds);
    }
}

/// The residual against the exact one: never above it, and at most the
/// decay's slack and two units below it.
pub proof fn law_residual_accuracy(params: ParamsView, claim: ClaimView, rounds: nat)
    requires
        params.valid(),
        claim.valid(),
    ensures
        residual(params, claim, rounds) * exact_scale(claim, rounds) <= exact_residual(
            params,
            claim,
            rounds,
        ),
        exact_residual(params, claim, rounds) <= (residual(params, claim, rounds) + decay_slack(
            claim,
            rounds,
        ) + 2) * exact_scale(claim, rounds),
{
    let one: int = ONE as int;
    let n = total_attempts(claim, rounds);
    let f: int = ONE - claim.success_prob;
    let c: nat = (ONE - params.completeness) as nat;
    let v: nat = (ONE - params.vrf_bias) as nat;
    let cv: int = (c * v) as int;
    let dd: int = doubt(params) as int;
    let d: int = decay(claim, rounds) as int;
    let res: int = residual(params, claim, rounds) as int;
    let slack: int = decay_slack(claim, rounds) as int;
    let one_all = pow(one, n);
    let fail_all = pow(f, n);
    law_decay_accuracy(claim, rounds);
    lemma_fx_mul_floor(c, v);
    lemma_fx_mul_floor(doubt(params), decay(claim, rounds));
    lemma_fx_mul_le(c, v);
    lemma_pow_positive(one, n);
    lemma_pow_base_monotone(0, f, n);
    lemma_pow_base_monotone(f, one, n);
    assert(cv == (ONE - params.completeness) * (ONE - params.vrf_bias));
    assert(exact_residual(params, claim, rounds) == cv * fail_all);
    assert(exact_scale(claim, rounds) == one * one_all);
    assert(0 <= cv) by (nonlinear_arith)
        requires
            cv == c * v,
    ;
    assert((res * (one * one_all)) * one <= (cv * fail_all) * one) by (nonlinear_arith)
        requires
            res * one <= dd * d,
            dd * one <= cv,
            d * one_all <= one * fail_all,
            0 <= dd,
            0 <= res,
            0 <= d,
            0 <= one_all,
            0 <= fail_all,
            0 < one,
    ;
    lemma_cancel(res * (one * one_all), cv * fail_all, one);
    let w: int = cap_unit((d + slack) as nat) as int;
    assert(one * fail_all <= w * one_all) by (nonlinear_arith)
        requires
            one * fail_all <= (d + slack) * one_all,
            fail_all <= one_all,
            w == one || w == d + slack,
            0 < one,
    ;
    assert(cv * w <= (res + slack + 2) * (one * one)) by (nonlinear_arith)
        requires
            0 <= cv < (dd + 1) * one,
            dd * d < (res + 1) * one,
            0 <= dd <= one,
            0 <= w <= one,
            w <= d + slack,
            0 <= d,
            0 <= slack,
            0 <= res,
    ;
    assert((cv * fail_all) * one <= ((res + slack + 2) * (one * one_all)) * one)
        by (nonlinear_arith)
        requires
            one * fail_all <= w * one_all,
            cv * w <= (res + slack + 2) * (one * one),
            0 <= cv,
            0 <= one_all,
            0 < one,
    ;
    lemma_cancel(cv * fail_all, (res + slack + 2) * (one * one_all), one);
}

/// The acceptance probability against the exact one: never below it, and at
/// most the decay's slack and two units of 10^-18 above it.
pub proof fn law_acceptance_accuracy(params: ParamsView, claim: ClaimView, rounds: nat)
    requires
        params.valid(),
        claim.valid(),
    ensures
        exact_acceptance(params, claim, rounds) <= acceptance(params, claim, rounds) * exact_scale(
            claim,
            rounds,
        ),
        acceptance(params, claim, rounds) * exact_scale(claim, rounds) <= exact_acceptance(
            params,
            claim,
            rounds,
        ) + (decay_slack(claim, rounds) + 2) * exact_scale(claim, rounds),
{
    let one: int = ONE as int;
    let scale = exact_scale(claim, rounds);
    let exact = exact_residual(params, claim, rounds);
    let res: int = residual(params, claim, rounds) as int;
    let slack: int = decay_slack(claim, rounds) as int;
    let kept: int = ONE - params.bft_fail;
    let value: int = acceptance(params, claim, rounds) as int;
    law_residual_accuracy(params, claim, rounds);
    lemma_pow_positive(one, total_attempts(claim, rounds));
    assert(scale > 0) by (nonlinear_arith)
        requires
            scale == one * pow(one, total_attempts(claim, rounds)),
            pow(one, total_attempts(claim, rounds)) > 0,
            one > 0,
    ;
    assert(0 <= exact) by (nonlinear_arith)
        requires
            0 <= res,
            0 < scale,
            res * scale <= exact,
    ;
    assert(kept * scale - exact <= one * scale) by (nonlinear_arith)
        requires
            kept <= one,
            0 < scale,
            0 <= exact,
    ;
    if kept - res < 0 {
        assert(kept * scale - exact < 0) by (nonlinear_arith)
            requires
                kept - res < 0,
                res * scale <= exact,
                0 < scale,
        ;
        assert((slack + 2) * scale >= 0) by (nonlinear_arith)
            requires
                slack >= 0,
                scale > 0,
        ;
        assert(value == 0);
        assert(value * scale == 0);
    } else {
        assert(value == kept - res);
        assert(value * scale == kept * scale - res * scale) by (nonlinear_arith)
            requires
                value == kept - res,
        ;
        assert((res + slack + 2) * scale == res * scale + (slack + 2) * scale)
            by (nonlinear_arith);
        assert(value * scale >= 0) by (nonlinear_arith)
            requires
                value >= 0,
                scale > 0,
        ;
    }
}

} // verus!
