//! Fixed-point natural logarithm and negative exponential.
//!
//! Both functions are defined by explicit integer recurrences — a bounded
//! binary normalisation followed by a truncated series — and the executable
//! code is proved to compute exactly the value of the defining recurrence.
//! `ln_fix` uses the inverse hyperbolic tangent series on the mantissa,
//! `exp_neg_fix` a factorial series on the remainder modulo `ln 2`.

use vstd::prelude::*;
use crate::fixed::{lemma_div_bounds, mul_div, SCALE};
use vstd::arithmetic::div_mod::{lemma_div_is_ordered, lemma_div_is_ordered_by_denominator,
    lemma_div_multiples_vanish, lemma_div_nonincreasing, lemma_div_pos_is_pos,
    lemma_mod_division_less_than_divisor, lemma_multiply_divide_lt};
use vstd::arithmetic::power2::{lemma2_to64, lemma_pow2_adds, lemma_pow2_pos, pow2};

verus! {

/// `ln 2` in fixed point (rounded to nearest).
pub const LN2_FIX: i128 = 693_147_180_560;

/// Largest argument accepted by `fix_ln`.
pub const LN_ARG_LIMIT: i128 = 1_000_000_000_000_000_000_000_000_000_000_000_000;

/// Magnitude bound on every `fix_ln` result.
pub const LN_BOUND: i128 = 200_000_000_000_000_000;

/// Number of inverse-hyperbolic-tangent series terms.
pub const LN_ROUNDS: usize = 13;

/// Number of exponential series terms.
pub const EXP_ROUNDS: usize = 21;

/// Mantissa normalisation: halve at most `fuel` times until the value drops
/// below `2 * SCALE`.  Returns the mantissa and the number of halvings.
pub open spec fn norm_down(x: int, fuel: nat) -> (int, int)
    decreases fuel,
{
    if fuel > 0 && x >= 2 * SCALE {
        let rec = norm_down(x / 2, (fuel - 1) as nat);
        (rec.0, rec.1 + 1)
    } else {
        (x, 0)
    }
}

/// Series argument `z = (m - SCALE) * SCALE / (m + SCALE)` for a mantissa `m`.
pub open spec fn ln_z(m: int) -> int {
    ((m - SCALE) * SCALE) / (m + SCALE)
}

/// `i`-th odd-power term of the series, scaled: `z^(2i+1) / SCALE^(2i)`.
pub open spec fn ln_term(z: int, i: nat) -> int
    decreases i,
{
    if i == 0 {
        z
    } else {
        ((ln_term(z, (i - 1) as nat) * z) / (SCALE as int) * z) / (SCALE as int)
    }
}

/// Partial sum of the first `i` series terms, each divided by its odd index.
pub open spec fn ln_acc(z: int, i: nat) -> int
    decreases i,
{
    if i == 0 {
        0
    } else {
        ln_acc(z, (i - 1) as nat) + ln_term(z, (i - 1) as nat) / (2 * (i - 1) + 1)
    }
}

/// The logarithm recurrence for arguments at least `SCALE`.
pub open spec fn ln_pos(x: int) -> int {
    let nd = norm_down(x, 200);
    nd.1 * LN2_FIX + 2 * ln_acc(ln_z(nd.0), LN_ROUNDS as nat)
}

/// Fixed-point natural logarithm; arguments below `SCALE` go through the
/// reciprocal, and non-positive arguments are mapped to zero.
pub open spec fn ln_fix(x: int) -> int {
    if x < 1 {
        0
    } else if x >= SCALE {
        ln_pos(x)
    } else {
        -ln_pos((SCALE * SCALE) / x)
    }
}

/// Series terms are non-negative and bounded by `z` when `0 <= z <= SCALE`.
pub proof fn lemma_ln_term_bounds(z: int, i: nat)
    requires
        0 <= z <= SCALE,
    ensures
        0 <= ln_term(z, i) <= z,
    decreases i,
{
    if i > 0 {
        lemma_ln_term_bounds(z, (i - 1) as nat);
        let t = ln_term(z, (i - 1) as nat);
        assert(t * z <= SCALE * z) by (nonlinear_arith)
            requires
                0 <= t <= SCALE,
                0 <= z,
        {}
        assert(0 <= t * z) by (nonlinear_arith)
            requires
                0 <= t,
                0 <= z,
        {}
        lemma_div_bounds(t * z, SCALE as int);
        lemma_div_is_ordered(t * z, SCALE * z, SCALE as int);
        assert((SCALE * z) / (SCALE as int) == z) by {
            lemma_div_multiples_vanish(z, SCALE as int);
        }
        let t1 = (t * z) / (SCALE as int);
        assert(0 <= t1 <= z);
        assert(t1 * z <= SCALE * z) by (nonlinear_arith)
            requires
                0 <= t1 <= SCALE,
                0 <= z,
        {}
        assert(0 <= t1 * z) by (nonlinear_arith)
            requires
                0 <= t1,
                0 <= z,
        {}
        lemma_div_bounds(t1 * z, SCALE as int);
        lemma_div_is_ordered(t1 * z, SCALE * z, SCALE as int);
    }
}

/// The partial series sum lies in `[0, i * z]`.
pub proof fn lemma_ln_acc_bounds(z: int, i: nat)
    requires
        0 <= z <= SCALE,
    ensures
        0 <= ln_acc(z, i) <= i * z,
    decreases i,
{
    if i > 0 {
        lemma_ln_acc_bounds(z, (i - 1) as nat);
        lemma_ln_term_bounds(z, (i - 1) as nat);
        let t = ln_term(z, (i - 1) as nat);
        lemma_div_bounds(t, 2 * (i - 1) + 1);
        assert((i - 1) * z + z == i * z) by (nonlinear_arith)
        {}
    }
}

/// Normalisation counts at most `fuel` halvings and never pushes the
/// mantissa below the starting floor of `SCALE`.
pub proof fn lemma_norm_down_bounds(x: int, fuel: nat)
    requires
        SCALE <= x,
    ensures
        0 <= norm_down(x, fuel).1 <= fuel,
        SCALE <= norm_down(x, fuel).0,
        norm_down(x, fuel).0 <= x,
    decreases fuel,
{
    if fuel > 0 && x >= 2 * SCALE {
        lemma_div_is_ordered(2 * SCALE, x, 2);
        lemma_div_multiples_vanish(SCALE as int, 2);
        lemma_div_nonincreasing(x, 2);
        lemma_norm_down_bounds(x / 2, (fuel - 1) as nat);
    }
}

/// With enough fuel for the size of the argument, normalisation really does
/// bring the mantissa below `2 * SCALE`.
pub proof fn lemma_norm_down_complete(x: int, fuel: nat)
    requires
        1 <= x <= SCALE * pow2(fuel),
    ensures
        norm_down(x, fuel).0 < 2 * SCALE,
    decreases fuel,
{
    if fuel > 0 && x >= 2 * SCALE {
        assert(pow2(fuel) == 2 * pow2((fuel - 1) as nat)) by {
            lemma_pow2_adds(1, (fuel - 1) as nat);
            lemma2_to64();
        }
        assert((SCALE * pow2(fuel)) / 2 == SCALE * pow2((fuel - 1) as nat)) by {
            lemma_div_multiples_vanish(SCALE * pow2((fuel - 1) as nat), 2);
            assert(2 * (SCALE * pow2((fuel - 1) as nat)) == SCALE * pow2(fuel))
                by (nonlinear_arith)
                requires
                    pow2(fuel) == 2 * pow2((fuel - 1) as nat),
            {}
        }
        lemma_div_is_ordered(x, SCALE * pow2(fuel), 2);
        lemma_div_pos_is_pos(x, 2);
        assert(1 <= x / 2);
        lemma_norm_down_complete(x / 2, (fuel - 1) as nat);
    } else if x >= 2 * SCALE {
        assert(pow2(0nat) == 1) by {
            lemma2_to64();
        }
        assert(false);
    }
}

/// `SCALE * pow2(200)` dominates the accepted argument range.
proof fn lemma_fuel_covers_range()
    ensures
        (LN_ARG_LIMIT as int) <= SCALE * pow2(200),
{
    lemma2_to64();
    lemma_pow2_adds(64, 16);
    assert(pow2(80) == pow2(64) * pow2(16));
    lemma_pow2_adds(80, 120);
    lemma_pow2_pos(120);
    assert(pow2(200) == pow2(80) * pow2(120));
    assert(pow2(200) >= pow2(80)) by (nonlinear_arith)
        requires
            pow2(200) == pow2(80) * pow2(120),
            pow2(120) >= 1,
            pow2(80) >= 0,
    {}
    assert(SCALE * pow2(200) >= SCALE * pow2(80)) by (nonlinear_arith)
        requires
            pow2(200) >= pow2(80),
            SCALE >= 0,
    {}
    assert(SCALE * pow2(80) >= LN_ARG_LIMIT) by (nonlinear_arith)
        requires
            pow2(80) == 0x100000000000000000000nat,
            SCALE == 1_000_000_000_000i128,
            LN_ARG_LIMIT == 1_000_000_000_000_000_000_000_000_000_000_000_000i128,
    {}
}

/// Logarithm core for arguments in `[SCALE, LN_ARG_LIMIT]`.
fn ln_core(x: i128) -> (r: i128)
    requires
        SCALE <= x <= LN_ARG_LIMIT,
    ensures
        r == ln_pos(x as int),
        0 <= r < LN_BOUND,
{
    let mut cur: i128 = x;
    let mut fuel: u32 = 200;
    proof {
        lemma_norm_down_bounds(x as int, 200);
        lemma_fuel_covers_range();
        lemma_norm_down_complete(x as int, 200);
    }
    while cur >= 2 * SCALE && fuel > 0
        invariant
            SCALE <= cur <= x,
            fuel <= 200,
            SCALE <= x <= LN_ARG_LIMIT,
            norm_down(x as int, 200).0 == norm_down(cur as int, fuel as nat).0,
            norm_down(x as int, 200).1 == 200 - fuel + norm_down(cur as int, fuel as nat).1,
            norm_down(x as int, 200).0 < 2 * SCALE,
            0 <= norm_down(x as int, 200).1 <= 200,
        decreases fuel,
    {
        proof {
            lemma_div_is_ordered(2 * SCALE, cur as int, 2);
            lemma_div_multiples_vanish(SCALE as int, 2);
            lemma_div_nonincreasing(cur as int, 2);
        }
        cur = cur / 2;
        fuel = fuel - 1;
    }
    let m: i128 = cur;
    proof {
        assert(norm_down(cur as int, fuel as nat) == (cur as int, 0int));
        assert(m == norm_down(x as int, 200).0);
    }
    let k: i128 = (200 - fuel) as i128;
    proof {
        assert((m - SCALE) * SCALE <= SCALE * SCALE) by (nonlinear_arith)
            requires
                0 <= m - SCALE <= SCALE,
                SCALE >= 0,
        {}
        lemma_multiply_divide_lt((m - SCALE) * SCALE, (m + SCALE) as int, SCALE as int);
        assert((m - SCALE) * SCALE < (m + SCALE) * SCALE) by (nonlinear_arith)
            requires
                m - SCALE < m + SCALE,
                SCALE > 0,
        {}
    }
    let z: i128 = mul_div(m - SCALE, SCALE, m + SCALE);
    proof {
        assert(z == ln_z(m as int));
        assert(0 <= z < SCALE);
    }
    let mut term: i128 = z;
    let mut acc: i128 = 0;
    let mut idx: usize = 0;
    while idx < LN_ROUNDS
        invariant
            idx <= LN_ROUNDS,
            0 <= z < SCALE,
            term == ln_term(z as int, idx as nat),
            acc == ln_acc(z as int, idx as nat),
            0 <= term <= z,
            0 <= acc <= (idx as int) * (z as int),
        decreases LN_ROUNDS - idx,
    {
        proof {
            lemma_ln_term_bounds(z as int, idx as nat);
            lemma_ln_acc_bounds(z as int, (idx + 1) as nat);
            lemma_div_bounds(term as int, 2 * (idx as int) + 1);
            assert((idx as int) * (z as int) <= 13 * SCALE) by (nonlinear_arith)
                requires
                    0 <= idx <= 13,
                    0 <= z <= SCALE,
            {}
            assert(((idx + 1) as int) * (z as int) <= 13 * SCALE) by (nonlinear_arith)
                requires
                    0 <= idx + 1 <= 13,
                    0 <= z <= SCALE,
            {}
            assert(term * z <= SCALE * SCALE) by (nonlinear_arith)
                requires
                    0 <= term <= SCALE,
                    0 <= z <= SCALE,
            {}
        }
        let denom: i128 = 2 * (idx as i128) + 1;
        acc = acc + term / denom;
        let t1 = mul_div(term, z, SCALE);
        proof {
            assert(term * z <= SCALE * z) by (nonlinear_arith)
                requires
                    0 <= term <= SCALE,
                    0 <= z,
            {}
            lemma_div_is_ordered(term * z, SCALE * z, SCALE as int);
            lemma_div_multiples_vanish(z as int, SCALE as int);
            assert(t1 <= z);
            assert(t1 * z <= SCALE * z) by (nonlinear_arith)
                requires
                    0 <= t1 <= SCALE,
                    0 <= z,
            {}
            assert(t1 * z <= SCALE * SCALE) by (nonlinear_arith)
                requires
                    0 <= t1 <= SCALE,
                    0 <= z <= SCALE,
            {}
        }
        let t2 = mul_div(t1, z, SCALE);
        proof {
            lemma_div_is_ordered(t1 * z, SCALE * z, SCALE as int);
            lemma_div_multiples_vanish(z as int, SCALE as int);
        }
        term = t2;
        idx += 1;
    }
    proof {
        assert((LN_ROUNDS as int) * (z as int) <= 13 * SCALE) by (nonlinear_arith)
            requires
                0 <= z <= SCALE,
        {}
        assert(0 <= k <= 200);
    }
    k * LN2_FIX + 2 * acc
}

/// Fixed-point natural logarithm.
pub fn fix_ln(x: i128) -> (r: i128)
    requires
        1 <= x <= LN_ARG_LIMIT,
    ensures
        r == ln_fix(x as int),
        -LN_BOUND < r < LN_BOUND,
        x >= SCALE ==> r >= 0,
{
    if x >= SCALE {
        ln_core(x)
    } else {
        let y: i128 = (SCALE * SCALE) / x;
        proof {
            lemma_div_is_ordered_by_denominator(SCALE * SCALE, x as int, SCALE as int);
            lemma_div_multiples_vanish(SCALE as int, SCALE as int);
            lemma_div_nonincreasing(SCALE * SCALE, x as int);
        }
        -ln_core(y)
    }
}

/// `ln_fix(SCALE) == 0`: the logarithm of one is exactly zero.
pub proof fn lemma_ln_fix_one()
    ensures
        ln_fix(SCALE as int) == 0,
{
    assert(norm_down(SCALE as int, 200) == (SCALE as int, 0int));
    assert(ln_z(SCALE as int) == 0) by {
        assert((SCALE - SCALE) * SCALE == 0) by (nonlinear_arith)
        {}
        vstd::arithmetic::div_mod::lemma_div_of0(2 * SCALE);
    }
    lemma_ln_acc_zero(LN_ROUNDS as nat);
}

/// All series terms vanish for `z == 0`.
proof fn lemma_ln_term_zero(i: nat)
    ensures
        ln_term(0, i) == 0,
    decreases i,
{
    if i > 0 {
        lemma_ln_term_zero((i - 1) as nat);
        vstd::arithmetic::div_mod::lemma_div_of0(SCALE as int);
    }
}

/// The series sum vanishes for `z == 0`.
proof fn lemma_ln_acc_zero(i: nat)
    ensures
        ln_acc(0, i) == 0,
    decreases i,
{
    if i > 0 {
        lemma_ln_acc_zero((i - 1) as nat);
        lemma_ln_term_zero((i - 1) as nat);
        vstd::arithmetic::div_mod::lemma_div_of0(2 * (i - 1) + 1);
    }
}

/// `i`-th factorial-series term of the exponential, scaled by `SCALE`.
pub open spec fn exp_term(r: int, i: nat) -> int
    decreases i,
{
    if i == 0 {
        SCALE as int
    } else {
        (exp_term(r, (i - 1) as nat) * r) / (SCALE as int) / (i as int)
    }
}

/// Sum of the first `i` exponential series terms.
pub open spec fn exp_sum(r: int, i: nat) -> int
    decreases i,
{
    if i == 0 {
        0
    } else {
        exp_sum(r, (i - 1) as nat) + exp_term(r, (i - 1) as nat)
    }
}

/// Repeated halving.
pub open spec fn shift_down(v: int, q: nat) -> int
    decreases q,
{
    if q == 0 {
        v
    } else {
        shift_down(v / 2, (q - 1) as nat)
    }
}

/// `exp(-y)` in fixed point for `y >= 0`: split `y` into multiples of
/// `ln 2` plus a remainder, evaluate the series on the remainder, invert,
/// and halve once per `ln 2`.
pub open spec fn exp_neg_fix(y: int) -> int {
    if y < 0 {
        SCALE as int
    } else {
        let q = y / (LN2_FIX as int);
        let rr = y % (LN2_FIX as int);
        if q >= 64 {
            0
        } else {
            shift_down((SCALE * SCALE) / exp_sum(rr, EXP_ROUNDS as nat), q as nat)
        }
    }
}

/// Exponential series terms are non-negative and at most `SCALE` for a
/// remainder below `SCALE`.
pub proof fn lemma_exp_term_bounds(r: int, i: nat)
    requires
        0 <= r < SCALE,
    ensures
        0 <= exp_term(r, i) <= SCALE,
    decreases i,
{
    if i > 0 {
        lemma_exp_term_bounds(r, (i - 1) as nat);
        let t = exp_term(r, (i - 1) as nat);
        assert(0 <= t * r) by (nonlinear_arith)
            requires
                0 <= t,
                0 <= r,
        {}
        assert(t * r <= SCALE * SCALE) by (nonlinear_arith)
            requires
                0 <= t <= SCALE,
                0 <= r <= SCALE,
        {}
        lemma_div_bounds(t * r, SCALE as int);
        lemma_div_is_ordered(t * r, SCALE * SCALE, SCALE as int);
        lemma_div_multiples_vanish(SCALE as int, SCALE as int);
        lemma_div_bounds((t * r) / (SCALE as int), i as int);
        lemma_div_is_ordered_by_denominator((t * r) / (SCALE as int), 1, i as int);
        vstd::arithmetic::div_mod::lemma_div_by_self(1);
        assert((t * r) / (SCALE as int) / 1int == (t * r) / (SCALE as int)) by {
            vstd::arithmetic::div_mod::lemma_div_basics((t * r) / (SCALE as int));
        }
    }
}

/// The series sum lies in `[SCALE, i * SCALE]` once it has at least one term.
pub proof fn lemma_exp_sum_bounds(r: int, i: nat)
    requires
        0 <= r < SCALE,
        i >= 1,
    ensures
        SCALE <= exp_sum(r, i) <= (i as int) * SCALE,
    decreases i,
{
    if i == 1 {
        assert(exp_sum(r, 0nat) == 0);
        assert(exp_sum(r, 1) == exp_sum(r, 0nat) + exp_term(r, 0nat));
    } else {
        lemma_exp_sum_bounds(r, (i - 1) as nat);
        lemma_exp_term_bounds(r, (i - 1) as nat);
        assert(((i - 1) as int) * SCALE + SCALE == (i as int) * SCALE) by (nonlinear_arith)
        {}
    }
}

/// Fixed-point `exp(-y)` for a non-negative argument.
pub fn fix_exp_neg(y: i128) -> (r: i128)
    requires
        0 <= y,
    ensures
        r == exp_neg_fix(y as int),
        0 <= r <= SCALE,
{
    let q: i128 = y / LN2_FIX;
    let rr: i128 = y % LN2_FIX;
    proof {
        lemma_div_bounds(y as int, LN2_FIX as int);
        lemma_mod_division_less_than_divisor(y as int, LN2_FIX as int);
        assert(q == (y as int) / (LN2_FIX as int));
        assert(rr == (y as int) % (LN2_FIX as int));
        assert(0 <= rr < LN2_FIX);
    }
    if q >= 64 {
        return 0;
    }
    let mut term: i128 = SCALE;
    let mut acc: i128 = 0;
    let mut idx: usize = 0;
    while idx < EXP_ROUNDS
        invariant
            idx <= EXP_ROUNDS,
            0 <= rr < SCALE,
            term == exp_term(rr as int, idx as nat),
            acc == exp_sum(rr as int, idx as nat),
            0 <= term <= SCALE,
            0 <= acc <= (idx as int) * (SCALE as int),
        decreases EXP_ROUNDS - idx,
    {
        proof {
            lemma_exp_term_bounds(rr as int, (idx + 1) as nat);
            assert((idx as int) * (SCALE as int) + SCALE == ((idx + 1) as int) * (SCALE as int))
                by (nonlinear_arith)
            {}
            assert((idx as int) * (SCALE as int) <= 21 * SCALE) by (nonlinear_arith)
                requires
                    0 <= idx <= 21,
            {}
            assert(term * rr <= SCALE * SCALE) by (nonlinear_arith)
                requires
                    0 <= term <= SCALE,
                    0 <= rr <= SCALE,
            {}
        }
        acc = acc + term;
        let t1 = mul_div(term, rr, SCALE);
        proof {
            lemma_div_bounds(t1 as int, (idx + 1) as int);
        }
        let t2 = t1 / ((idx as i128) + 1);
        term = t2;
        idx += 1;
    }
    proof {
        lemma_exp_sum_bounds(rr as int, EXP_ROUNDS as nat);
        lemma_div_is_ordered_by_denominator(SCALE * SCALE, SCALE as int, acc as int);
        lemma_div_multiples_vanish(SCALE as int, SCALE as int);
        lemma_div_pos_is_pos(SCALE * SCALE, acc as int);
    }
    let inv: i128 = (SCALE * SCALE) / acc;
    let mut v: i128 = inv;
    let mut j: i128 = 0;
    while j < q
        invariant
            0 <= j <= q,
            q < 64,
            0 <= v <= SCALE,
            shift_down(inv as int, q as nat) == shift_down(v as int, (q - j) as nat),
        decreases q - j,
    {
        proof {
            lemma_div_bounds(v as int, 2);
        }
        v = v / 2;
        j = j + 1;
    }
    v
}

/// `exp_neg_fix(0) == SCALE`: the exponential of zero is exactly one.
pub proof fn lemma_exp_neg_zero()
    ensures
        exp_neg_fix(0) == SCALE,
{
    vstd::arithmetic::div_mod::lemma_div_of0(LN2_FIX as int);
    vstd::arithmetic::div_mod::lemma_small_mod(0nat, LN2_FIX as nat);
    lemma_exp_sum_zero(EXP_ROUNDS as nat);
    assert(exp_sum(0, EXP_ROUNDS as nat) == SCALE);
    lemma_div_multiples_vanish(SCALE as int, SCALE as int);
    assert((SCALE * SCALE) / (SCALE as int) == SCALE);
    assert(shift_down(SCALE as int, 0nat) == SCALE);
}

/// All exponential terms after the first vanish for a zero remainder.
proof fn lemma_exp_term_zero(i: nat)
    requires
        i >= 1,
    ensures
        exp_term(0, i) == 0,
    decreases i,
{
    if i > 1 {
        lemma_exp_term_zero((i - 1) as nat);
        vstd::arithmetic::div_mod::lemma_div_of0(SCALE as int);
        vstd::arithmetic::div_mod::lemma_div_of0(i as int);
    } else {
        assert(exp_term(0, 0nat) == SCALE);
        assert(SCALE * 0 == 0) by (nonlinear_arith)
        {}
        vstd::arithmetic::div_mod::lemma_div_of0(SCALE as int);
        vstd::arithmetic::div_mod::lemma_div_of0(1int);
    }
}

/// The series sum equals `SCALE` exactly for a zero remainder.
proof fn lemma_exp_sum_zero(i: nat)
    requires
        i >= 1,
    ensures
        exp_sum(0, i) == SCALE,
    decreases i,
{
    if i == 1 {
        assert(exp_sum(0, 0nat) == 0);
        assert(exp_sum(0, 1) == exp_sum(0, 0nat) + exp_term(0, 0nat));
    } else {
        lemma_exp_sum_zero((i - 1) as nat);
        lemma_exp_term_zero((i - 1) as nat);
    }
}

} // verus!
