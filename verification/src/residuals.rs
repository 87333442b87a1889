//! The three stress channel residuals.

use vstd::prelude::*;
use crate::config::{NumericsConfig, ResidualsConfig};
use crate::fixed::{clip, safe_div, spec_clip, spec_safe_div, VAL_LIMIT};
use crate::types::{Normed, Residuals};

verus! {

/// One-sided excess of a channel value over its threshold.
pub open spec fn channel_excess(x: int, theta: int) -> int {
    if x - theta > 0 {
        x - theta
    } else {
        0
    }
}

/// A channel residual after the optional winsorisation.
pub open spec fn channel_residual(x: int, theta: int, do_clip: bool, clip_max: int) -> int {
    if do_clip {
        spec_clip(channel_excess(x, theta), clip_max)
    } else {
        channel_excess(x, theta)
    }
}

/// The liquidity channel input: normalised return over normalised volume.
pub open spec fn liquidity_input(u: int, v: int, eps: int) -> int {
    spec_safe_div(u, v + eps)
}

/// Compute the three residual channels from normalised features.
/// The combined field is zero; it is set later by the combiner.
pub fn compute_residuals(
    normed: &Normed,
    residuals_cfg: &ResidualsConfig,
    numerics_cfg: &NumericsConfig,
) -> (r: Residuals)
    requires
        0 <= normed.u <= VAL_LIMIT,
        0 <= normed.v <= VAL_LIMIT,
        0 <= normed.a <= VAL_LIMIT,
        0 <= residuals_cfg.theta_vol <= VAL_LIMIT,
        0 <= residuals_cfg.theta_liq <= VAL_LIMIT,
        0 <= residuals_cfg.theta_acc <= VAL_LIMIT,
        0 <= numerics_cfg.eps <= VAL_LIMIT,
        0 <= numerics_cfg.residual_clip_max <= VAL_LIMIT,
    ensures
        r.r_vol == channel_residual(
            normed.u as int,
            residuals_cfg.theta_vol as int,
            numerics_cfg.clip_residuals,
            numerics_cfg.residual_clip_max as int,
        ),
        r.r_liq == channel_residual(
            liquidity_input(normed.u as int, normed.v as int, numerics_cfg.eps as int),
            residuals_cfg.theta_liq as int,
            numerics_cfg.clip_residuals,
            numerics_cfg.residual_clip_max as int,
        ),
        r.r_acc == channel_residual(
            normed.a as int,
            residuals_cfg.theta_acc as int,
            numerics_cfg.clip_residuals,
            numerics_cfg.residual_clip_max as int,
        ),
        r.r == 0,
        0 <= r.r_vol <= VAL_LIMIT,
        0 <= r.r_liq <= VAL_LIMIT,
        0 <= r.r_acc <= VAL_LIMIT,
{
    let liq_in = safe_div(normed.u, normed.v, numerics_cfg.eps);
    let mut r_vol: i128 = if normed.u - residuals_cfg.theta_vol > 0 {
        normed.u - residuals_cfg.theta_vol
    } else {
        0
    };
    let mut r_liq: i128 = if liq_in - residuals_cfg.theta_liq > 0 {
        liq_in - residuals_cfg.theta_liq
    } else {
        0
    };
    let mut r_acc: i128 = if normed.a - residuals_cfg.theta_acc > 0 {
        normed.a - residuals_cfg.theta_acc
    } else {
        0
    };
    if numerics_cfg.clip_residuals {
        r_vol = clip(r_vol, numerics_cfg.residual_clip_max);
        r_liq = clip(r_liq, numerics_cfg.residual_clip_max);
        r_acc = clip(r_acc, numerics_cfg.residual_clip_max);
    }
    Residuals { r_vol, r_liq, r_acc, r: 0 }
}

} // verus!
