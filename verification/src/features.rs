//! Feature extraction: per-bar returns, acceleration, and robust
//! normalisation against rolling MAD and median scales.

use vstd::prelude::*;
use crate::fixed::{clip_sym, div_trunc, mul_div, safe_div, spec_clip_sym, spec_safe_div, SCALE,
    VAL_LIMIT};
use crate::mad::{mad, mad_spec};
use crate::median::{lemma_median_spec_in_range, median, median_spec};
use crate::rolling_window::RollingWindow;
use crate::sorting::bounded_by;
use crate::transcend::{fix_ln, ln_fix};
use crate::types::{Bar, Normed};

verus! {

/// Largest accepted MAD scale factor (ten, in fixed point).
pub const MAD_SCALE_LIMIT: i128 = 10_000_000_000_000;

/// The close prices of a bar sequence.
pub open spec fn closes_of(bars: Seq<Bar>) -> Seq<i128> {
    bars.map_values(|b: Bar| b.close)
}

/// The volumes of a bar sequence.
pub open spec fn volumes_of(bars: Seq<Bar>) -> Seq<i128> {
    bars.map_values(|b: Bar| b.volume)
}

/// Bars the pipeline accepts: prices within the value bound, volumes
/// non-negative and within the value bound.
pub open spec fn bars_bounded(bars: Seq<Bar>) -> bool {
    forall|i: int|
        #![trigger bars[i]]
        0 <= i < bars.len() ==> -VAL_LIMIT <= bars[i].close <= VAL_LIMIT && 0 <= bars[i].volume
            <= VAL_LIMIT
}

/// Absolute value as a mathematical integer.
pub open spec fn abs_i(x: i128) -> int {
    if x >= 0 {
        x as int
    } else {
        -(x as int)
    }
}

/// The return at bar `i`: zero for the first bar and for degenerate prices,
/// otherwise the log return `ln(close_i / close_{i-1})` or the percent
/// change, winsorised into the pipeline value range.  Price ratios below one
/// fixed-point unit are treated as degenerate and yield zero, the same
/// neutralisation the non-finite guard performs.
pub open spec fn return_at(closes: Seq<i128>, i: int, use_log: bool) -> int {
    if i <= 0 {
        0
    } else {
        let prev = closes[i - 1] as int;
        let curr = closes[i] as int;
        if prev <= 0 || curr <= 0 {
            0
        } else if use_log {
            let ratio = (curr * SCALE) / prev;
            if ratio < 1 {
                0
            } else {
                ln_fix(ratio)
            }
        } else {
            spec_clip_sym(div_trunc((curr - prev) * SCALE, prev), VAL_LIMIT as int)
        }
    }
}

/// The acceleration at bar `i`: the first difference of returns, winsorised
/// into the pipeline value range; zero for the first bar.
pub open spec fn accel_at(rets: Seq<i128>, i: int) -> int {
    if i <= 0 {
        0
    } else {
        spec_clip_sym(rets[i] - rets[i - 1], VAL_LIMIT as int)
    }
}

/// The rolling window contents after `i` pushes of the first `i` elements of
/// `s` into a window of capacity `n`: the last `n` of them.
pub open spec fn win_after(s: Seq<i128>, i: int, n: int) -> Seq<i128> {
    s.subrange(
        if i - n >= 0 {
            i - n
        } else {
            0
        },
        i,
    )
}

/// The robust scale of a window: the scaled MAD (without the epsilon).
pub open spec fn sigma_of(wvals: Seq<i128>, scale_f: int) -> int {
    (scale_f * mad_spec(wvals)) / (SCALE as int)
}

/// Normalised absolute return at bar `i`.
pub open spec fn u_at(rets: Seq<i128>, i: int, n: int, scale_f: int, eps: int) -> int {
    spec_safe_div(abs_i(rets[i]), sigma_of(win_after(rets, i + 1, n), scale_f) + eps)
}

/// Normalised volume at bar `i`.
pub open spec fn v_at(vols: Seq<i128>, i: int, n: int, eps: int) -> int {
    spec_safe_div(vols[i] as int, median_spec(win_after(vols, i + 1, n)) + eps)
}

/// Normalised absolute acceleration at bar `i`.
pub open spec fn a_at(accels: Seq<i128>, i: int, n: int, scale_f: int, eps: int) -> int {
    spec_safe_div(abs_i(accels[i]), sigma_of(win_after(accels, i + 1, n), scale_f) + eps)
}

/// Compute the per-bar returns.  The first element is zero: there is no
/// prior close to compare against.
pub fn compute_returns(bars: &Vec<Bar>, use_log: bool) -> (r: Vec<i128>)
    requires
        bars_bounded(bars@),
    ensures
        r@.len() == bars@.len(),
        forall|i: int| 0 <= i < r@.len() ==> #[trigger] r@[i] == return_at(
            closes_of(bars@),
            i,
            use_log,
        ),
        bounded_by(r@, VAL_LIMIT as int),
{
    let n = bars.len();
    let mut out: Vec<i128> = Vec::new();
    let mut i: usize = 0;
    while i < n
        invariant
            i <= n,
            n == bars@.len(),
            bars_bounded(bars@),
            out@.len() == i,
            forall|j: int| 0 <= j < i ==> #[trigger] out@[j] == return_at(
                closes_of(bars@),
                j,
                use_log,
            ),
            bounded_by(out@, VAL_LIMIT as int),
        decreases n - i,
    {
        let r: i128 = if i == 0 {
            0
        } else {
            let prev = bars[i - 1].close;
            let curr = bars[i].close;
            if prev <= 0 || curr <= 0 {
                0
            } else if use_log {
                proof {
                    assert(curr * SCALE <= VAL_LIMIT * SCALE) by (nonlinear_arith)
                        requires
                            0 < curr <= VAL_LIMIT,
                            SCALE > 0,
                    {}
                }
                let ratio = mul_div(curr, SCALE, prev);
                if ratio < 1 {
                    0
                } else {
                    fix_ln(ratio)
                }
            } else {
                proof {
                    assert((if curr >= prev {
                        curr - prev
                    } else {
                        prev - curr
                    }) * SCALE <= (2 * VAL_LIMIT) * SCALE) by (nonlinear_arith)
                        requires
                            -VAL_LIMIT <= curr <= VAL_LIMIT,
                            -VAL_LIMIT <= prev <= VAL_LIMIT,
                            SCALE > 0,
                    {}
                }
                let pct: i128 = if curr >= prev {
                    mul_div(curr - prev, SCALE, prev)
                } else {
                    -mul_div(prev - curr, SCALE, prev)
                };
                clip_sym(pct, VAL_LIMIT)
            }
        };
        out.push(r);
        i += 1;
    }
    out
}

/// Compute the acceleration series: the first difference of returns.
pub fn compute_acceleration(rets: &Vec<i128>) -> (r: Vec<i128>)
    requires
        bounded_by(rets@, VAL_LIMIT as int),
    ensures
        r@.len() == rets@.len(),
        forall|i: int| 0 <= i < r@.len() ==> #[trigger] r@[i] == accel_at(rets@, i),
        bounded_by(r@, VAL_LIMIT as int),
{
    let n = rets.len();
    let mut out: Vec<i128> = Vec::new();
    let mut i: usize = 0;
    while i < n
        invariant
            i <= n,
            n == rets@.len(),
            bounded_by(rets@, VAL_LIMIT as int),
            out@.len() == i,
            forall|j: int| 0 <= j < i ==> #[trigger] out@[j] == accel_at(rets@, j),
            bounded_by(out@, VAL_LIMIT as int),
        decreases n - i,
    {
        let a: i128 = if i == 0 {
            0
        } else {
            clip_sym(rets[i] - rets[i - 1], VAL_LIMIT)
        };
        out.push(a);
        i += 1;
    }
    out
}

/// Compute the robustly normalised features for each bar: rolling MAD scales
/// for returns and acceleration, rolling median scale for volume.  The first
/// `window_n - 1` bars use whatever history exists (a growing window).
pub fn compute_normed(
    bars: &Vec<Bar>,
    rets: &Vec<i128>,
    accel: &Vec<i128>,
    window_n: usize,
    mad_scale_factor: i128,
    eps: i128,
) -> (r: Vec<Normed>)
    requires
        bars_bounded(bars@),
        rets@.len() == bars@.len(),
        accel@.len() == bars@.len(),
        bounded_by(rets@, VAL_LIMIT as int),
        bounded_by(accel@, VAL_LIMIT as int),
        1 <= window_n,
        0 <= mad_scale_factor <= MAD_SCALE_LIMIT,
        0 <= eps <= VAL_LIMIT,
    ensures
        r@.len() == bars@.len(),
        forall|i: int| 0 <= i < r@.len() ==> #[trigger] r@[i].u == u_at(
            rets@,
            i,
            window_n as int,
            mad_scale_factor as int,
            eps as int,
        ),
        forall|i: int| 0 <= i < r@.len() ==> #[trigger] r@[i].v == v_at(
            volumes_of(bars@),
            i,
            window_n as int,
            eps as int,
        ),
        forall|i: int| 0 <= i < r@.len() ==> #[trigger] r@[i].a == a_at(
            accel@,
            i,
            window_n as int,
            mad_scale_factor as int,
            eps as int,
        ),
        forall|i: int|
            #![trigger r@[i]]
            0 <= i < r@.len() ==> 0 <= r@[i].u <= VAL_LIMIT && 0 <= r@[i].v <= VAL_LIMIT && 0
                <= r@[i].a <= VAL_LIMIT,
{
    let n = bars.len();
    let mut out: Vec<Normed> = Vec::new();
    let mut ret_win = RollingWindow::new(window_n);
    let mut acc_win = RollingWindow::new(window_n);
    let mut vol_win = RollingWindow::new(window_n);
    let mut i: usize = 0;
    while i < n
        invariant
            i <= n,
            n == bars@.len(),
            bars_bounded(bars@),
            rets@.len() == n,
            accel@.len() == n,
            bounded_by(rets@, VAL_LIMIT as int),
            bounded_by(accel@, VAL_LIMIT as int),
            1 <= window_n,
            0 <= mad_scale_factor <= MAD_SCALE_LIMIT,
            0 <= eps <= VAL_LIMIT,
            ret_win.inv() && acc_win.inv() && vol_win.inv(),
            ret_win.cap() == window_n && acc_win.cap() == window_n && vol_win.cap() == window_n,
            ret_win@ == win_after(rets@, i as int, window_n as int),
            acc_win@ == win_after(accel@, i as int, window_n as int),
            vol_win@ == win_after(volumes_of(bars@), i as int, window_n as int),
            out@.len() == i,
            forall|j: int| 0 <= j < i ==> #[trigger] out@[j].u == u_at(
                rets@,
                j,
                window_n as int,
                mad_scale_factor as int,
                eps as int,
            ),
            forall|j: int| 0 <= j < i ==> #[trigger] out@[j].v == v_at(
                volumes_of(bars@),
                j,
                window_n as int,
                eps as int,
            ),
            forall|j: int| 0 <= j < i ==> #[trigger] out@[j].a == a_at(
                accel@,
                j,
                window_n as int,
                mad_scale_factor as int,
                eps as int,
            ),
            forall|j: int|
                #![trigger out@[j]]
                0 <= j < i ==> 0 <= out@[j].u <= VAL_LIMIT && 0 <= out@[j].v <= VAL_LIMIT && 0
                    <= out@[j].a <= VAL_LIMIT,
        decreases n - i,
    {
        ret_win.push(rets[i]);
        acc_win.push(accel[i]);
        vol_win.push(bars[i].volume);
        proof {
            lemma_win_after_push(rets@, i as int, window_n as int);
            lemma_win_after_push(accel@, i as int, window_n as int);
            lemma_win_after_push(volumes_of(bars@), i as int, window_n as int);
        }
        let ret_snapshot = ret_win.as_slice();
        let acc_snapshot = acc_win.as_slice();
        let mut vol_snapshot = vol_win.as_slice();
        let mad_ret = mad(&ret_snapshot);
        let mad_acc = mad(&acc_snapshot);
        proof {
            assert(mad_scale_factor * mad_ret <= MAD_SCALE_LIMIT * (2 * VAL_LIMIT))
                by (nonlinear_arith)
                requires
                    0 <= mad_scale_factor <= MAD_SCALE_LIMIT,
                    0 <= mad_ret <= 2 * VAL_LIMIT,
            {}
            assert(mad_scale_factor * mad_acc <= MAD_SCALE_LIMIT * (2 * VAL_LIMIT))
                by (nonlinear_arith)
                requires
                    0 <= mad_scale_factor <= MAD_SCALE_LIMIT,
                    0 <= mad_acc <= 2 * VAL_LIMIT,
            {}
            crate::fixed::lemma_div_bounds(
                mad_scale_factor * mad_ret,
                SCALE as int,
            );
            crate::fixed::lemma_div_bounds(
                mad_scale_factor * mad_acc,
                SCALE as int,
            );
            vstd::arithmetic::div_mod::lemma_div_is_ordered(
                mad_scale_factor * mad_ret,
                MAD_SCALE_LIMIT * (2 * VAL_LIMIT),
                SCALE as int,
            );
            vstd::arithmetic::div_mod::lemma_div_is_ordered(
                mad_scale_factor * mad_acc,
                MAD_SCALE_LIMIT * (2 * VAL_LIMIT),
                SCALE as int,
            );
        }
        let sig_ret = mul_div(mad_scale_factor, mad_ret, SCALE);
        let sig_acc = mul_div(mad_scale_factor, mad_acc, SCALE);
        proof {
            crate::sorting::lemma_sort_spec_ensures(vol_snapshot@);
            lemma_median_spec_in_range(
                vol_snapshot@,
                -(VAL_LIMIT as int),
                VAL_LIMIT as int,
            );
        }
        let vol_med = median(&mut vol_snapshot);
        let abs_ret: i128 = if rets[i] >= 0 {
            rets[i]
        } else {
            -rets[i]
        };
        let abs_acc: i128 = if accel[i] >= 0 {
            accel[i]
        } else {
            -accel[i]
        };
        let u = safe_div(abs_ret, sig_ret, eps);
        let v = safe_div(bars[i].volume, vol_med, eps);
        let a = safe_div(abs_acc, sig_acc, eps);
        out.push(Normed { u, v, a });
        i += 1;
    }
    out
}

/// Pushing the `i`-th element advances the rolling-window contents by one.
pub proof fn lemma_win_after_push(s: Seq<i128>, i: int, n: int)
    requires
        0 <= i < s.len(),
        1 <= n,
    ensures
        crate::rolling_window::push_evict(win_after(s, i, n), n, s[i]) == win_after(s, i + 1, n),
{
    let w = win_after(s, i, n);
    if w.len() < n {
        assert(w.push(s[i]) =~= win_after(s, i + 1, n));
    } else {
        assert(w.drop_first().push(s[i]) =~= win_after(s, i + 1, n));
    }
}

} // verus!
