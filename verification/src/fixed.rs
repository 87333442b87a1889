//! Fixed-point arithmetic helpers.
//!
//! A real quantity `x` is represented by the integer `x * SCALE`, carrying
//! twelve fractional decimal digits.  All pipeline values use this
//! representation, so every computation in the crate is exact integer
//! arithmetic.

use vstd::prelude::*;

verus! {

/// One unit (the real number 1) in the fixed-point representation.
pub const SCALE: i128 = 1_000_000_000_000;

/// Magnitude bound on ordinary pipeline values (prices, volumes, residuals,
/// strain).  Wide enough for any realistic series while keeping products with
/// `SCALE`-sized factors inside `i128`.
pub const VAL_LIMIT: i128 = 1_000_000_000_000_000_000_000_000;

/// Magnitude bound accepted by the statistics primitives.  It exceeds
/// `2 * VAL_LIMIT` so that absolute deviations of bounded values can be fed
/// back into `median`.
pub const STAT_LIMIT: i128 = 10_000_000_000_000_000_000_000_000;

/// `(a * b) / d` rounded toward minus infinity, for non-negative operands.
pub fn mul_div(a: i128, b: i128, d: i128) -> (r: i128)
    requires
        0 <= a,
        0 <= b,
        0 < d,
        a * b <= i128::MAX,
    ensures
        r == (a * b) / (d as int),
        0 <= r,
        r <= a * b,
{
    proof {
        lemma_div_bounds(a * b, d as int);
    }
    (a * b) / d
}

/// Floor division of a non-negative value stays between zero and the value.
pub proof fn lemma_div_bounds(x: int, d: int)
    requires
        0 <= x,
        0 < d,
    ensures
        0 <= x / d,
        x / d <= x,
{
    vstd::arithmetic::div_mod::lemma_div_pos_is_pos(x, d);
    vstd::arithmetic::div_mod::lemma_div_nonincreasing(x, d);
}

/// Division rounding toward zero, matching machine division on signed
/// values.
pub open spec fn div_trunc(a: int, d: int) -> int {
    if a >= 0 {
        a / d
    } else {
        -((-a) / d)
    }
}

/// Winsorise a value into the interval `[0, max]`.
pub open spec fn spec_clip(value: int, max: int) -> int {
    if value < 0 {
        0
    } else if value > max {
        max
    } else {
        value
    }
}

/// Winsorise (clip) a value to the range `[0, max]`.
pub fn clip(value: i128, max: i128) -> (r: i128)
    ensures
        r == spec_clip(value as int, max as int),
{
    if value < 0 {
        0
    } else if value > max {
        max
    } else {
        value
    }
}

/// Fixed-point quotient `a / d`: zero whenever the denominator is not
/// positive (the structural guard against division blow-ups), otherwise
/// `a * SCALE / d` rounded toward minus infinity and capped at `VAL_LIMIT`
/// so the result stays an ordinary pipeline value.
pub open spec fn spec_safe_div(a: int, d: int) -> int {
    if d <= 0 {
        0
    } else {
        spec_clip((a * SCALE) / d, VAL_LIMIT as int)
    }
}

/// Safe division `a / (b + eps)` in fixed point, for a non-negative
/// numerator.  A non-positive denominator yields zero instead of failing and
/// the quotient is capped at `VAL_LIMIT`.
pub fn safe_div(a: i128, b: i128, eps: i128) -> (r: i128)
    requires
        0 <= a,
        a <= VAL_LIMIT,
        -10 * STAT_LIMIT <= b <= 10 * STAT_LIMIT,
        0 <= eps <= STAT_LIMIT,
    ensures
        r == spec_safe_div(a as int, b + eps),
        0 <= r <= VAL_LIMIT,
{
    let d: i128 = b + eps;
    if d <= 0 {
        0
    } else {
        proof {
            assert(a * SCALE <= VAL_LIMIT * SCALE) by (nonlinear_arith)
                requires
                    0 <= a,
                    a <= VAL_LIMIT,
            {}
        }
        let q = mul_div(a, SCALE, d);
        clip(q, VAL_LIMIT)
    }
}

/// Winsorise a value into the symmetric interval `[-bound, bound]`.
pub open spec fn spec_clip_sym(value: int, bound: int) -> int {
    if value < -bound {
        -bound
    } else if value > bound {
        bound
    } else {
        value
    }
}

/// Winsorise a value into `[-bound, bound]`.
pub fn clip_sym(value: i128, bound: i128) -> (r: i128)
    requires
        0 <= bound,
    ensures
        r == spec_clip_sym(value as int, bound as int),
        -bound <= r <= bound,
{
    if value < -bound {
        -bound
    } else if value > bound {
        bound
    } else {
        value
    }
}

} // verus!
