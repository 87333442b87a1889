//! Numerically stable log-sum-exp soft-max combiner for residual channels.
//!
//! `r = tau * ln(exp(r_vol/tau) + exp(r_liq/tau) + exp(r_acc/tau))`,
//! evaluated with a shift by the maximum exponent so that only negative
//! exponentials are ever taken.

use vstd::prelude::*;
use crate::fixed::{clip, mul_div, spec_clip, SCALE, VAL_LIMIT};
use crate::transcend::{exp_neg_fix, fix_exp_neg, fix_ln, lemma_exp_neg_zero, ln_fix, LN_BOUND,
    LN_ARG_LIMIT};
use vstd::arithmetic::div_mod::{lemma_div_is_ordered, lemma_div_multiples_vanish,
    lemma_fundamental_div_mod};

verus! {

/// Largest accepted combiner temperature (one hundred, in fixed point).
pub const TAU_LIMIT: i128 = 100_000_000_000_000;

/// The larger of two values.
pub open spec fn max2(a: int, b: int) -> int {
    if a >= b {
        a
    } else {
        b
    }
}

/// The combined residual: max-shifted log-sum-exp of the three channels,
/// capped at `VAL_LIMIT`.
pub open spec fn combine_spec(r_vol: int, r_liq: int, r_acc: int, tau: int) -> int {
    let xv = (r_vol * SCALE) / tau;
    let xl = (r_liq * SCALE) / tau;
    let xa = (r_acc * SCALE) / tau;
    let m = max2(xv, max2(xl, xa));
    let s = exp_neg_fix(m - xv) + exp_neg_fix(m - xl) + exp_neg_fix(m - xa);
    spec_clip((tau * m) / (SCALE as int) + (tau * ln_fix(s)) / (SCALE as int), VAL_LIMIT as int)
}

/// One scaled exponent `r * SCALE / tau`, with the bound `tau * x <= r * SCALE`.
fn scaled_exponent(r: i128, tau: i128) -> (x: i128)
    requires
        0 <= r <= VAL_LIMIT,
        1 <= tau <= TAU_LIMIT,
    ensures
        x == (r * SCALE) / (tau as int),
        0 <= x <= r * SCALE,
        tau * x <= r * SCALE,
        r * SCALE <= VAL_LIMIT * SCALE,
{
    proof {
        assert(r * SCALE <= VAL_LIMIT * SCALE) by (nonlinear_arith)
            requires
                0 <= r <= VAL_LIMIT,
                SCALE >= 0,
        {}
    }
    let x = mul_div(r, SCALE, tau);
    proof {
        lemma_fundamental_div_mod(r * SCALE, tau as int);
        vstd::arithmetic::div_mod::lemma_mod_division_less_than_divisor(r * SCALE, tau as int);
        assert(tau * x <= r * SCALE);
    }
    x
}

/// Combine the three channel residuals at temperature `tau`.
pub fn soft_max_combine(r_vol: i128, r_liq: i128, r_acc: i128, tau: i128) -> (r: i128)
    requires
        0 <= r_vol <= VAL_LIMIT,
        0 <= r_liq <= VAL_LIMIT,
        0 <= r_acc <= VAL_LIMIT,
        1 <= tau <= TAU_LIMIT,
    ensures
        r == combine_spec(r_vol as int, r_liq as int, r_acc as int, tau as int),
        0 <= r <= VAL_LIMIT,
{
    let xv = scaled_exponent(r_vol, tau);
    let xl = scaled_exponent(r_liq, tau);
    let xa = scaled_exponent(r_acc, tau);
    let m: i128 = if xv >= xl && xv >= xa {
        xv
    } else if xl >= xa {
        xl
    } else {
        xa
    };
    let ev = fix_exp_neg(m - xv);
    let el = fix_exp_neg(m - xl);
    let ea = fix_exp_neg(m - xa);
    let s: i128 = ev + el + ea;
    proof {
        lemma_exp_neg_zero();
        assert(s >= SCALE);
        assert(s <= 3 * SCALE);
        assert(3 * SCALE <= LN_ARG_LIMIT);
    }
    let lnv = fix_ln(s);
    proof {
        // tau * m stays below the product bound established per exponent.
        assert(tau * m <= VAL_LIMIT * SCALE);
        assert(0 <= tau * m) by (nonlinear_arith)
            requires
                0 <= m,
                0 <= tau,
        {}
        lemma_div_is_ordered(tau * m, VAL_LIMIT * SCALE, SCALE as int);
        lemma_div_multiples_vanish(VAL_LIMIT as int, SCALE as int);
        assert(0 <= tau * lnv) by (nonlinear_arith)
            requires
                0 <= lnv,
                0 <= tau,
        {}
        assert(tau * lnv <= TAU_LIMIT * LN_BOUND) by (nonlinear_arith)
            requires
                0 <= tau <= TAU_LIMIT,
                0 <= lnv <= LN_BOUND,
        {}
    }
    let t1 = mul_div(tau, m, SCALE);
    let t2 = mul_div(tau, lnv, SCALE);
    proof {
        crate::fixed::lemma_div_bounds(tau * lnv, SCALE as int);
        lemma_div_is_ordered(tau * lnv, TAU_LIMIT * LN_BOUND, SCALE as int);
    }
    clip(t1 + t2, VAL_LIMIT)
}

/// An all-zero residual triple combines to exactly `tau * ln_fix(3 * SCALE)
/// / SCALE` — the degenerate smooth maximum of three equal zeros — for every
/// accepted temperature.
pub proof fn lemma_combine_all_zero(tau: int)
    requires
        1 <= tau <= TAU_LIMIT,
    ensures
        combine_spec(0, 0, 0, tau) == (tau * ln_fix(3 * SCALE)) / (SCALE as int),
{
    assert((0 * SCALE) == 0) by (nonlinear_arith)
    {}
    vstd::arithmetic::div_mod::lemma_div_of0(tau);
    lemma_exp_neg_zero();
    assert(exp_neg_fix(0) == SCALE);
    let s = 3 * SCALE;
    assert(tau * 0 == 0) by (nonlinear_arith)
    {}
    vstd::arithmetic::div_mod::lemma_div_of0(SCALE as int);
    lemma_ln_three_bounds();
    let lnv = ln_fix(3 * SCALE);
    assert(0 <= tau * lnv <= TAU_LIMIT * (30 * SCALE)) by (nonlinear_arith)
        requires
            0 <= tau <= TAU_LIMIT,
            0 <= lnv <= 30 * SCALE,
    {}
    lemma_div_is_ordered(tau * lnv, TAU_LIMIT * (30 * SCALE), SCALE as int);
    lemma_div_multiples_vanish(TAU_LIMIT * 30, SCALE as int);
    assert((TAU_LIMIT * (30 * SCALE)) == (TAU_LIMIT * 30) * SCALE) by (nonlinear_arith)
    {}
    crate::fixed::lemma_div_bounds(tau * lnv, SCALE as int);
}

/// `ln_fix(3 * SCALE)` is non-negative and comfortably below `30 * SCALE`.
pub proof fn lemma_ln_three_bounds()
    ensures
        0 <= ln_fix(3 * SCALE) <= 30 * SCALE,
{
    let x = 3 * SCALE;
    assert(crate::transcend::norm_down(x, 200) == (crate::transcend::norm_down(
        x / 2,
        199nat,
    ).0, crate::transcend::norm_down(x / 2, 199nat).1 + 1));
    assert(x / 2 == SCALE + SCALE / 2);
    assert(crate::transcend::norm_down(x / 2, 199nat) == (x / 2, 0int));
    let m = x / 2;
    let z = crate::transcend::ln_z(m);
    assert(0 <= z < SCALE) by {
        assert((m - SCALE) * SCALE >= 0) by (nonlinear_arith)
            requires
                m >= SCALE,
                SCALE >= 0,
        {}
        vstd::arithmetic::div_mod::lemma_div_pos_is_pos((m - SCALE) * SCALE, m + SCALE);
        assert((m - SCALE) * SCALE < (m + SCALE) * SCALE) by (nonlinear_arith)
            requires
                m - SCALE < m + SCALE,
                SCALE > 0,
        {}
        vstd::arithmetic::div_mod::lemma_multiply_divide_lt(
            (m - SCALE) * SCALE,
            m + SCALE,
            SCALE as int,
        );
    }
    crate::transcend::lemma_ln_acc_bounds(z, 13nat);
    assert(13 * z <= 13 * SCALE) by (nonlinear_arith)
        requires
            0 <= z <= SCALE,
    {}
}

} // verus!
