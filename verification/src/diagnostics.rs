//! Data-quality counts used by the diagnostic report.

use vstd::prelude::*;
use crate::features::bars_bounded;
use crate::types::Bar;

verus! {

/// How many bars have exactly zero volume.
pub open spec fn zero_volume_spec(bars: Seq<Bar>) -> int
    decreases bars.len(),
{
    if bars.len() == 0 {
        0
    } else {
        zero_volume_spec(bars.drop_last()) + if bars.last().volume == 0 {
            1int
        } else {
            0int
        }
    }
}

/// A bar-to-bar price move of more than twenty percent in either direction,
/// stated multiplicatively: for a positive previous close this is exactly
/// `close / prev > 6/5` or `close / prev < 4/5`.
pub open spec fn is_large_gap(prev: int, curr: int) -> bool {
    5 * curr > 6 * prev || 5 * curr < 4 * prev
}

/// How many of the first `i` bars open a large gap against their
/// predecessor.
pub open spec fn large_gaps_upto(bars: Seq<Bar>, i: int) -> int
    decreases i,
{
    if i <= 1 {
        0
    } else {
        large_gaps_upto(bars, i - 1) + if is_large_gap(
            bars[i - 2].close as int,
            bars[i - 1].close as int,
        ) {
            1int
        } else {
            0int
        }
    }
}

/// Count the bars with zero volume.
pub fn count_zero_volume(bars: &Vec<Bar>) -> (r: usize)
    ensures
        r == zero_volume_spec(bars@),
        r <= bars@.len(),
{
    let n = bars.len();
    let mut cnt: usize = 0;
    let mut i: usize = 0;
    while i < n
        invariant
            i <= n,
            n == bars@.len(),
            cnt == zero_volume_spec(bars@.subrange(0, i as int)),
            cnt <= i,
        decreases n - i,
    {
        proof {
            assert(bars@.subrange(0, i + 1).drop_last() =~= bars@.subrange(0, i as int));
            assert(bars@.subrange(0, i + 1).last() == bars@[i as int]);
        }
        if bars[i].volume == 0 {
            cnt += 1;
        }
        i += 1;
    }
    proof {
        assert(bars@.subrange(0, n as int) =~= bars@);
    }
    cnt
}

/// Count the bar-to-bar price moves exceeding twenty percent.
pub fn count_large_gaps(bars: &Vec<Bar>) -> (r: usize)
    requires
        bars_bounded(bars@),
    ensures
        r == large_gaps_upto(bars@, bars@.len() as int),
        r <= bars@.len(),
{
    let n = bars.len();
    let mut cnt: usize = 0;
    let mut i: usize = 1;
    if n == 0 {
        return 0;
    }
    while i < n
        invariant
            1 <= i <= n,
            n == bars@.len(),
            bars_bounded(bars@),
            cnt == large_gaps_upto(bars@, i as int),
            cnt <= i - 1,
        decreases n - i,
    {
        let prev = bars[i - 1].close;
        let curr = bars[i].close;
        if 5 * curr > 6 * prev || 5 * curr < 4 * prev {
            cnt += 1;
        }
        i += 1;
    }
    cnt
}

} // verus!
