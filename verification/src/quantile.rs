//! Quantile by linear interpolation over the ascending reordering.

use vstd::prelude::*;
use crate::fixed::{mul_div, SCALE, STAT_LIMIT};
use crate::fixed::spec_clip;
use crate::sorting::{bounded_by, lemma_sort_spec_bounded, lemma_sort_spec_ensures, sort_spec,
    sort_vec};

verus! {

/// The `q`-th quantile (with `q` in fixed point, clamped into `[0, SCALE]`):
/// linear interpolation between the floor and ceiling ranks of
/// `q * (n - 1)`.  Zero for an empty sequence.
pub open spec fn quantile_spec(s: Seq<i128>, q: int) -> int {
    if s.len() == 0 {
        0
    } else {
        let t = sort_spec(s);
        let n = s.len() as int;
        let qc = spec_clip(q, SCALE as int);
        if n == 1 {
            t[0] as int
        } else {
            let pos = qc * (n - 1);
            let lo = pos / (SCALE as int);
            let frac = pos % (SCALE as int);
            if frac == 0 {
                t[lo] as int
            } else {
                t[lo] + (frac * (t[lo + 1] - t[lo])) / (SCALE as int)
            }
        }
    }
}

/// Compute the `q`-th quantile of the values by sorting a copy.
pub fn quantile(values: &Vec<i128>, q: i128) -> (r: i128)
    requires
        bounded_by(values@, STAT_LIMIT as int),
    ensures
        r == quantile_spec(values@, q as int),
        -STAT_LIMIT <= r <= STAT_LIMIT,
{
    let n = values.len();
    if n == 0 {
        return 0;
    }
    let t = sort_vec(values);
    proof {
        lemma_sort_spec_ensures(values@);
        lemma_sort_spec_bounded(values@, STAT_LIMIT as int);
    }
    if n == 1 {
        return t[0];
    }
    let qc: i128 = crate::fixed::clip(q, SCALE);
    let n_less: i128 = (n - 1) as i128;
    proof {
        assert(qc * n_less <= SCALE * n_less) by (nonlinear_arith)
            requires
                0 <= qc <= SCALE,
                0 <= n_less,
        {}
        assert(SCALE * n_less < i128::MAX) by (nonlinear_arith)
            requires
                0 <= n_less <= 0x1_0000_0000_0000_0000i128,
                SCALE == 1_000_000_000_000i128,
        {}
        assert(0 <= qc * n_less) by (nonlinear_arith)
            requires
                0 <= qc,
                0 <= n_less,
        {}
    }
    let pos: i128 = qc * n_less;
    let lo_i: i128 = pos / SCALE;
    let frac: i128 = pos % SCALE;
    proof {
        vstd::arithmetic::div_mod::lemma_div_pos_is_pos(pos as int, SCALE as int);
        vstd::arithmetic::div_mod::lemma_div_is_ordered(pos as int, SCALE * n_less, SCALE as int);
        vstd::arithmetic::div_mod::lemma_div_multiples_vanish(n_less as int, SCALE as int);
        assert(lo_i <= n_less);
        vstd::arithmetic::div_mod::lemma_mod_division_less_than_divisor(pos as int, SCALE as int);
        assert(0 <= frac < SCALE);
        vstd::arithmetic::div_mod::lemma_fundamental_div_mod(pos as int, SCALE as int);
        if frac != 0 {
            assert(lo_i < n_less) by {
                if lo_i == n_less {
                    assert(pos == SCALE * n_less + frac);
                    assert(pos > SCALE * n_less);
                }
            }
        }
    }
    let lo: usize = lo_i as usize;
    if frac == 0 {
        t[lo]
    } else {
        let a = t[lo];
        let b = t[lo + 1];
        let d: i128 = b - a;
        proof {
            assert(a <= b);
            assert(frac * d <= SCALE * d) by (nonlinear_arith)
                requires
                    0 <= frac <= SCALE,
                    0 <= d,
            {}
            assert(SCALE * d <= i128::MAX) by (nonlinear_arith)
                requires
                    0 <= d <= 2 * STAT_LIMIT,
                    SCALE == 1_000_000_000_000i128,
                    STAT_LIMIT == 10_000_000_000_000_000_000_000_000i128,
            {}
            vstd::arithmetic::div_mod::lemma_div_is_ordered(
                frac * d,
                SCALE * d,
                SCALE as int,
            );
            vstd::arithmetic::div_mod::lemma_div_multiples_vanish(d as int, SCALE as int);
        }
        let add = mul_div(frac, d, SCALE);
        a + add
    }
}

/// Every quantile of a non-empty sequence lies within any interval
/// containing all the elements.
pub proof fn lemma_quantile_spec_in_range(s: Seq<i128>, q: int, lob: int, hib: int)
    requires
        s.len() > 0,
        lob <= hib,
        forall|i: int| 0 <= i < s.len() ==> lob <= #[trigger] s[i] <= hib,
    ensures
        lob <= quantile_spec(s, q) <= hib,
{
    let t = sort_spec(s);
    let n = s.len() as int;
    lemma_sort_spec_ensures(s);
    assert forall|i: int| 0 <= i < t.len() implies lob <= #[trigger] t[i] <= hib by {
        assert(t.contains(t[i])) by {
            assert(0 <= i < t.len() && t[i] == t[i]);
        }
        assert(s.contains(t[i]));
        let j = choose|j: int| 0 <= j < s.len() && s[j] == t[i];
        assert(lob <= s[j] <= hib);
    }
    if n > 1 {
        let qc = spec_clip(q, SCALE as int);
        let pos = qc * (n - 1);
        assert(0 <= qc * (n - 1) && qc * (n - 1) <= SCALE * (n - 1)) by (nonlinear_arith)
            requires
                0 <= qc <= SCALE,
                0 <= n - 1,
        {}
        let lo = pos / (SCALE as int);
        let frac = pos % (SCALE as int);
        vstd::arithmetic::div_mod::lemma_div_pos_is_pos(pos, SCALE as int);
        vstd::arithmetic::div_mod::lemma_div_is_ordered(pos, SCALE * (n - 1), SCALE as int);
        vstd::arithmetic::div_mod::lemma_div_multiples_vanish(n - 1, SCALE as int);
        assert((SCALE as int) * (n - 1) == (n - 1) * (SCALE as int));
        assert(0 <= lo <= n - 1);
        vstd::arithmetic::div_mod::lemma_mod_division_less_than_divisor(pos, SCALE as int);
        vstd::arithmetic::div_mod::lemma_fundamental_div_mod(pos, SCALE as int);
        if frac != 0 {
            assert(lo < n - 1) by {
                if lo == n - 1 {
                    assert(pos == (SCALE as int) * (n - 1) + frac);
                }
            }
            let a = t[lo] as int;
            let b = t[lo + 1] as int;
            assert(a <= b);
            let d = b - a;
            assert(0 <= frac * d && frac * d <= SCALE * d) by (nonlinear_arith)
                requires
                    0 <= frac <= SCALE,
                    0 <= d,
            {}
            vstd::arithmetic::div_mod::lemma_div_pos_is_pos(frac * d, SCALE as int);
            vstd::arithmetic::div_mod::lemma_div_is_ordered(frac * d, SCALE * d, SCALE as int);
            vstd::arithmetic::div_mod::lemma_div_multiples_vanish(d, SCALE as int);
            assert(a <= quantile_spec(s, q) <= b);
        }
    }
}

/// The zero quantile is the minimum of a non-empty sequence and the full
/// (`SCALE`) quantile is its maximum: each bounds every element and is
/// itself one of the elements.
pub proof fn lemma_quantile_extremes(s: Seq<i128>)
    requires
        s.len() > 0,
    ensures
        forall|i: int| 0 <= i < s.len() ==> quantile_spec(s, 0) <= #[trigger] s[i],
        exists|i: int| 0 <= i < s.len() && quantile_spec(s, 0) == s[i],
        forall|i: int| 0 <= i < s.len() ==> quantile_spec(s, SCALE as int) >= #[trigger] s[i],
        exists|i: int| 0 <= i < s.len() && quantile_spec(s, SCALE as int) == s[i],
{
    let t = sort_spec(s);
    let n = s.len() as int;
    lemma_sort_spec_ensures(s);
    if n > 1 {
        assert(quantile_spec(s, 0) == t[0]) by {
            assert(spec_clip(0, SCALE as int) == 0);
            assert(0 * (n - 1) == 0);
            vstd::arithmetic::div_mod::lemma_div_of0(SCALE as int);
            vstd::arithmetic::div_mod::lemma_small_mod(0nat, SCALE as nat);
            assert(0int / (SCALE as int) == 0);
            assert(0int % (SCALE as int) == 0);
        }
        assert(quantile_spec(s, SCALE as int) == t[n - 1]) by {
            assert(spec_clip(SCALE as int, SCALE as int) == SCALE as int);
            vstd::arithmetic::div_mod::lemma_div_multiples_vanish(n - 1, SCALE as int);
            vstd::arithmetic::div_mod::lemma_mod_multiples_basic(n - 1, SCALE as int);
            assert((SCALE as int) * (n - 1) == (n - 1) * (SCALE as int));
        }
    }
    assert(quantile_spec(s, 0) == t[0]);
    assert(quantile_spec(s, SCALE as int) == t[n - 1]);
    assert forall|i: int| 0 <= i < s.len() implies quantile_spec(s, 0) <= #[trigger] s[i]
        && quantile_spec(s, SCALE as int) >= #[trigger] s[i] by {
        assert(s.contains(s[i])) by {
            assert(0 <= i < s.len() && s[i] == s[i]);
        }
        assert(t.contains(s[i]));
        let j = choose|j: int| 0 <= j < t.len() && t[j] == s[i];
        assert(t[0] <= t[j]);
        assert(t[j] <= t[n - 1]);
    }
    assert(t.contains(t[0])) by {
        assert(0 <= 0 < t.len() && t[0] == t[0]);
    }
    assert(s.contains(t[0]));
    assert(t.contains(t[n - 1])) by {
        assert(0 <= n - 1 < t.len() && t[n - 1] == t[n - 1]);
    }
    assert(s.contains(t[n - 1]));
}

} // verus!
