//! Median absolute deviation of a sequence of fixed-point values.

use vstd::prelude::*;
use crate::fixed::VAL_LIMIT;
use crate::median::{median, median_spec};
use crate::sorting::bounded_by;

verus! {

/// Absolute deviation of one value from a centre point.
pub open spec fn abs_dev(x: i128, centre: int) -> i128 {
    if x >= centre {
        (x - centre) as i128
    } else {
        (centre - x) as i128
    }
}

/// The per-element absolute deviations from a centre point.
pub open spec fn dev_seq(s: Seq<i128>, centre: int) -> Seq<i128> {
    s.map_values(|x: i128| abs_dev(x, centre))
}

/// Median absolute deviation: the median of the absolute deviations from the
/// median; zero for an empty sequence.
pub open spec fn mad_spec(s: Seq<i128>) -> int {
    if s.len() == 0 {
        0
    } else {
        median_spec(dev_seq(s, median_spec(s)))
    }
}

/// The MAD of a constant sequence is zero, whatever the constant and length.
pub proof fn lemma_mad_constant(s: Seq<i128>, c: i128)
    requires
        s.len() > 0,
        forall|i: int| 0 <= i < s.len() ==> #[trigger] s[i] == c,
    ensures
        mad_spec(s) == 0,
{
    crate::median::lemma_median_spec_in_range(s, c as int, c as int);
    assert(median_spec(s) == c);
    let d = dev_seq(s, c as int);
    assert(d.len() == s.len());
    assert(forall|i: int| 0 <= i < d.len() ==> #[trigger] d[i] == abs_dev(s[i], c as int));
    assert(forall|i: int| 0 <= i < d.len() ==> #[trigger] d[i] == 0);
    crate::median::lemma_median_spec_in_range(d, 0, 0);
}

/// Compute the median absolute deviation of the values.
pub fn mad(values: &Vec<i128>) -> (r: i128)
    requires
        bounded_by(values@, VAL_LIMIT as int),
    ensures
        r == mad_spec(values@),
        0 <= r <= 2 * VAL_LIMIT,
{
    let n = values.len();
    if n == 0 {
        return 0;
    }
    let mut buf: Vec<i128> = Vec::new();
    let mut i: usize = 0;
    while i < n
        invariant
            n == values@.len(),
            i <= n,
            buf@ =~= values@.subrange(0, i as int),
        decreases n - i,
    {
        buf.push(values[i]);
        proof {
            assert(buf@ =~= values@.subrange(0, i + 1));
        }
        i += 1;
    }
    proof {
        assert(buf@ =~= values@);
    }
    let med = median(&mut buf);
    proof {
        crate::median::lemma_median_spec_in_range(
            values@,
            -(VAL_LIMIT as int),
            VAL_LIMIT as int,
        );
    }
    let mut devs: Vec<i128> = Vec::new();
    let mut j: usize = 0;
    while j < n
        invariant
            n == values@.len(),
            j <= n,
            bounded_by(values@, VAL_LIMIT as int),
            -VAL_LIMIT <= med <= VAL_LIMIT,
            devs@.len() == j,
            forall|p: int| 0 <= p < j ==> #[trigger] devs@[p] == abs_dev(values@[p], med as int),
        decreases n - j,
    {
        let x = values[j];
        let d: i128 = if x >= med {
            x - med
        } else {
            med - x
        };
        devs.push(d);
        j += 1;
    }
    proof {
        assert(devs@ =~= dev_seq(values@, med as int));
        assert forall|p: int| 0 <= p < devs@.len() implies 0 <= #[trigger] devs@[p] <= 2
            * VAL_LIMIT by {
            assert(devs@[p] == abs_dev(values@[p], med as int));
        }
        crate::sorting::lemma_sort_spec_ensures(devs@);
    }
    let r = median(&mut devs);
    proof {
        crate::median::lemma_median_spec_in_range(
            dev_seq(values@, med as int),
            0,
            2 * VAL_LIMIT,
        );
    }
    r
}

} // verus!
