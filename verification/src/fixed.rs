//! Fixed-point arithmetic on the unit interval.
//!
//! A probability `p` is carried as the integer `p * 10^18`. Products are
//! rounded down, and powers are built from such products by binary
//! exponentiation, lowest exponent bit first.

use vstd::prelude::*;

verus! {

/// The fixed-point representation of 1: a probability counts units of 10^-18.
pub const ONE: u64 = 1_000_000_000_000_000_000;

/// The product of two fixed-point numbers, rounded down.
pub open spec fn fx_mul(x: nat, y: nat) -> nat {
    (x * y) / (ONE as nat)
}

/// `acc * base^exp` in fixed point: the exponent's bits are taken from the
/// lowest up, `base` is squared at each bit and multiplied into `acc` where
/// the bit is set.
pub open spec fn fx_pow_from(acc: nat, base: nat, exp: nat) -> nat
    decreases exp,
{
    if exp == 0 {
        acc
    } else {
        fx_pow_from(
            if exp % 2 == 1 { fx_mul(acc, base) } else { acc },
            fx_mul(base, base),
            exp / 2,
        )
    }
}

/// `base^exp` in fixed point.
pub open spec fn fx_pow(base: nat, exp: nat) -> nat {
    fx_pow_from(ONE as nat, base, exp)
}

/// A product never exceeds a factor whose partner is at most 1.
pub proof fn lemma_fx_mul_le(x: nat, y: nat)
    requires
        y <= ONE,
    ensures
        fx_mul(x, y) <= x,
        fx_mul(y, x) <= x,
{
    let one: nat = ONE as nat;
    assert(x * y <= x * one) by (nonlinear_arith)
        requires
            y <= one,
    ;
    assert(y * x == x * y) by (nonlinear_arith);
    assert((x * one) / one == x) by (nonlinear_arith)
        requires
            one > 0,
    ;
    assert((x * y) / one <= (x * one) / one) by (nonlinear_arith)
        requires
            x * y <= x * one,
            one > 0,
    ;
}

/// Multiplying by 1 changes nothing.
pub proof fn lemma_fx_mul_one(x: nat)
    ensures
        fx_mul(ONE as nat, x) == x,
        fx_mul(x, ONE as nat) == x,
{
    let one: nat = ONE as nat;
    assert((one * x) / one == x) by (nonlinear_arith)
        requires
            one > 0,
    ;
    assert((x * one) / one == x) by (nonlinear_arith)
        requires
            one > 0,
    ;
}

/// Multiplication is monotone in both factors.
pub proof fn lemma_fx_mul_monotone(x1: nat, y1: nat, x2: nat, y2: nat)
    requires
        x1 <= x2,
        y1 <= y2,
    ensures
        fx_mul(x1, y1) <= fx_mul(x2, y2),
{
    assert(x1 * y1 <= x2 * y2) by (nonlinear_arith)
        requires
            x1 <= x2,
            y1 <= y2,
    ;
    let one: nat = ONE as nat;
    assert((x1 * y1) / one <= (x2 * y2) / one) by (nonlinear_arith)
        requires
            x1 * y1 <= x2 * y2,
            one > 0,
    ;
}

/// The product of two fixed-point numbers in the unit interval, rounded down.
pub(crate) fn fixed_mul(x: u64, y: u64) -> (z: u64)
    requires
        x <= ONE,
        y <= ONE,
    ensures
        z == fx_mul(x as nat, y as nat),
        z <= ONE,
{
    proof {
        lemma_fx_mul_le(x as nat, y as nat);
        assert(x * y <= ONE * ONE) by (nonlinear_arith)
            requires
                x <= ONE,
                y <= ONE,
        ;
    }
    let wide: u128 = (x as u128) * (y as u128);
    (wide / (ONE as u128)) as u64
}

/// A power is monotone in the value it starts from and in its base.
pub proof fn lemma_fx_pow_from_monotone(acc1: nat, base1: nat, acc2: nat, base2: nat, exp: nat)
    requires
        acc1 <= acc2,
        base1 <= base2,
    ensures
        fx_pow_from(acc1, base1, exp) <= fx_pow_from(acc2, base2, exp),
    decreases exp,
{
    if exp > 0 {
        lemma_fx_mul_monotone(acc1, base1, acc2, base2);
        lemma_fx_mul_monotone(base1, base1, base2, base2);
        let next1 = if exp % 2 == 1 { fx_mul(acc1, base1) } else { acc1 };
        let next2 = if exp % 2 == 1 { fx_mul(acc2, base2) } else { acc2 };
        lemma_fx_pow_from_monotone(
            next1,
            fx_mul(base1, base1),
            next2,
            fx_mul(base2, base2),
            exp / 2,
        );
    }
}

/// With a base of at most 1, a power never exceeds the value it starts from.
pub proof fn lemma_fx_pow_from_le(acc: nat, base: nat, exp: nat)
    requires
        base <= ONE,
    ensures
        fx_pow_from(acc, base, exp) <= acc,
    decreases exp,
{
    if exp > 0 {
        lemma_fx_mul_le(acc, base);
        lemma_fx_mul_le(base, base);
        let next = if exp % 2 == 1 { fx_mul(acc, base) } else { acc };
        lemma_fx_pow_from_le(next, fx_mul(base, base), exp / 2);
    }
}

/// With base 1, a power is the value it starts from.
pub proof fn lemma_fx_pow_from_base_one(acc: nat, exp: nat)
    ensures
        fx_pow_from(acc, ONE as nat, exp) == acc,
    decreases exp,
{
    if exp > 0 {
        lemma_fx_mul_one(acc);
        lemma_fx_mul_one(ONE as nat);
        lemma_fx_pow_from_base_one(acc, exp / 2);
    }
}

/// With base 0 and a positive exponent, a power is 0.
pub proof fn lemma_fx_pow_from_base_zero(acc: nat, exp: nat)
    requires
        exp > 0,
    ensures
        fx_pow_from(acc, 0, exp) == 0,
    decreases exp,
{
    assert(fx_mul(0, 0) == 0) by {
        lemma_fx_mul_le(0, 0);
    }
    if exp % 2 == 1 {
        assert(fx_mul(acc, 0) == 0) by {
            lemma_fx_mul_le(0, 0);
            lemma_fx_mul_monotone(acc, 0, acc, 0);
            assert(acc * 0 == 0) by (nonlinear_arith);
        }
        lemma_fx_pow_from_le(0, 0, exp / 2);
    } else {
        lemma_fx_pow_from_base_zero(acc, exp / 2);
    }
}

/// The heart of the exponent's monotonicity: where `base` is at most the
/// value `carry` that the lower exponent has already gathered, one more
/// factor, starting from 1, gives no more than `carry` gives without it.
proof fn lemma_fx_pow_from_step(carry: nat, base: nat, exp: nat)
    requires
        base <= carry,
        base <= ONE,
    ensures
        fx_pow_from(ONE as nat, base, exp + 1) <= fx_pow_from(carry, base, exp),
    decreases exp,
{
    let square = fx_mul(base, base);
    lemma_fx_mul_le(base, base);
    lemma_fx_mul_one(base);
    if exp % 2 == 0 {
        assert((exp + 1) / 2 == exp / 2);
        assert(fx_pow_from(ONE as nat, base, exp + 1) == fx_pow_from(base, square, exp / 2));
        if exp > 0 {
            lemma_fx_pow_from_monotone(base, square, carry, square, exp / 2);
        }
    } else {
        assert((exp + 1) / 2 == exp / 2 + 1);
        lemma_fx_mul_monotone(base, base, carry, base);
        lemma_fx_pow_from_step(fx_mul(carry, base), square, exp / 2);
    }
}

/// Raising the exponent by one never raises the power.
pub proof fn lemma_fx_pow_succ(base: nat, exp: nat)
    requires
        base <= ONE,
    ensures
        fx_pow(base, exp + 1) <= fx_pow(base, exp),
{
    lemma_fx_pow_from_step(ONE as nat, base, exp);
}

/// With a base of at most 1, a larger exponent never gives a larger power.
pub proof fn lemma_fx_pow_antitone(base: nat, exp1: nat, exp2: nat)
    requires
        base <= ONE,
        exp1 <= exp2,
    ensures
        fx_pow(base, exp2) <= fx_pow(base, exp1),
    decreases exp2 - exp1,
{
    if exp1 < exp2 {
        lemma_fx_pow_antitone(base, exp1, (exp2 - 1) as nat);
        lemma_fx_pow_succ(base, (exp2 - 1) as nat);
    }
}

/// A larger base never gives a smaller power.
pub proof fn lemma_fx_pow_monotone(base1: nat, base2: nat, exp: nat)
    requires
        base1 <= base2,
    ensures
        fx_pow(base1, exp) <= fx_pow(base2, exp),
{
    lemma_fx_pow_from_monotone(ONE as nat, base1, ONE as nat, base2, exp);
}

/// The boundary values of a power: exponent 0 gives 1, base 1 gives 1, base 0
/// gives 0 for every positive exponent, and a base of at most 1 stays at most 1.
pub proof fn lemma_fx_pow_bounds(base: nat, exp: nat)
    ensures
        fx_pow(base, 0) == ONE,
        fx_pow(ONE as nat, exp) == ONE,
        exp > 0 ==> fx_pow(0, exp) == 0,
        base <= ONE ==> fx_pow(base, exp) <= ONE,
{
    lemma_fx_pow_from_base_one(ONE as nat, exp);
    if exp > 0 {
        lemma_fx_pow_from_base_zero(ONE as nat, exp);
    }
    if base <= ONE {
        lemma_fx_pow_from_le(ONE as nat, base, exp);
    }
}

/// `base^exp` for a base in the unit interval, by binary exponentiation with
/// every product rounded down.
pub(crate) fn fixed_pow(base: u64, exp: u64) -> (power: u64)
    requires
        base <= ONE,
    ensures
        power == fx_pow(base as nat, exp as nat),
        power <= ONE,
{
    let mut acc: u64 = ONE;
    let mut factor: u64 = base;
    let mut rest: u64 = exp;
    while rest > 0
        invariant
            acc <= ONE,
            factor <= ONE,
            fx_pow_from(acc as nat, factor as nat, rest as nat) == fx_pow(base as nat, exp as nat),
        decreases rest,
    {
        if rest % 2 == 1 {
            acc = fixed_mul(acc, factor);
        }
        factor = fixed_mul(factor, factor);
        rest = rest / 2;
    }
    acc
}

} // verus!
