//! Median of a sequence of fixed-point values.

use vstd::prelude::*;
use crate::fixed::STAT_LIMIT;
use crate::sorting::{bounded_by, lemma_sort_spec_bounded, lemma_sort_spec_ensures, sort_spec,
    sort_vec};

verus! {

/// Halving that rounds toward zero, matching machine division of the sum of
/// two middle elements.
pub open spec fn div2_trunc(x: int) -> int {
    if x >= 0 {
        x / 2
    } else {
        -((-x) / 2)
    }
}

/// The median: middle element of the ascending reordering for an odd count,
/// truncated mean of the two middle elements for an even count, zero for an
/// empty sequence.
pub open spec fn median_spec(s: Seq<i128>) -> int {
    if s.len() == 0 {
        0
    } else {
        let t = sort_spec(s);
        let n = s.len() as int;
        if n % 2 == 1 {
            t[n / 2] as int
        } else {
            div2_trunc(t[n / 2 - 1] + t[n / 2])
        }
    }
}

/// The median of a sequence lies within any interval containing all its
/// elements (provided the interval contains zero's side appropriately via
/// `lo <= hi`).
pub proof fn lemma_median_spec_in_range(s: Seq<i128>, lo: int, hi: int)
    requires
        s.len() > 0,
        lo <= hi,
        forall|i: int| 0 <= i < s.len() ==> lo <= #[trigger] s[i] <= hi,
    ensures
        lo <= median_spec(s) <= hi,
{
    let t = sort_spec(s);
    lemma_sort_spec_ensures(s);
    assert forall|i: int| 0 <= i < t.len() implies lo <= #[trigger] t[i] <= hi by {
        assert(t.contains(t[i])) by {
            assert(0 <= i < t.len() && t[i] == t[i]);
        }
        assert(s.contains(t[i]));
        let j = choose|j: int| 0 <= j < s.len() && s[j] == t[i];
        assert(lo <= s[j] <= hi);
    }
    let n = s.len() as int;
    if n % 2 == 1 {
    } else {
        let a = t[n / 2 - 1] as int;
        let b = t[n / 2] as int;
        let x = a + b;
        assert(2 * lo <= x <= 2 * hi);
        if x >= 0 {
            assert(lo <= x / 2 <= hi) by {
                if lo > 0 {
                    vstd::arithmetic::div_mod::lemma_div_is_ordered(2 * lo, x, 2);
                    vstd::arithmetic::div_mod::lemma_div_multiples_vanish(lo, 2);
                }
                vstd::arithmetic::div_mod::lemma_div_is_ordered(x, 2 * hi, 2);
                vstd::arithmetic::div_mod::lemma_div_multiples_vanish(hi, 2);
                vstd::arithmetic::div_mod::lemma_div_pos_is_pos(x, 2);
            }
        } else {
            let m = -x;
            assert(0 < m <= -2 * lo);
            assert(lo <= -(m / 2) <= hi) by {
                vstd::arithmetic::div_mod::lemma_div_is_ordered(m, -2 * lo, 2);
                vstd::arithmetic::div_mod::lemma_div_multiples_vanish(-lo, 2);
                vstd::arithmetic::div_mod::lemma_div_pos_is_pos(m, 2);
            }
        }
    }
}

/// Sort the values in place and return their median (zero when empty).
pub fn median(values: &mut Vec<i128>) -> (r: i128)
    requires
        bounded_by(old(values)@, STAT_LIMIT as int),
    ensures
        final(values)@ == sort_spec(old(values)@),
        r == median_spec(old(values)@),
        -STAT_LIMIT <= r <= STAT_LIMIT,
{
    let n = values.len();
    if n == 0 {
        proof {
            lemma_sort_spec_ensures(values@);
            assert(sort_spec(values@) =~= values@);
        }
        return 0;
    }
    let sorted_copy = sort_vec(values);
    *values = sorted_copy;
    proof {
        lemma_sort_spec_bounded(old(values)@, STAT_LIMIT as int);
        lemma_median_spec_in_range(old(values)@, -(STAT_LIMIT as int), STAT_LIMIT as int);
    }
    if n % 2 == 1 {
        values[n / 2]
    } else {
        let a = values[n / 2 - 1];
        let b = values[n / 2];
        let x: i128 = a + b;
        if x >= 0 {
            x / 2
        } else {
            -((-x) / 2)
        }
    }
}

} // verus!
