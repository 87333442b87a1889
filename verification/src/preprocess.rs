//! Input preparation: ordering, deduplication and validation of the bar
//! series before the engine runs.

use vstd::prelude::*;
use crate::config::{PreprocessConfig, WindowsConfig};
use crate::error::RuptureError;
use crate::types::Bar;
use vstd::string::StringSliceAdditionalSpecFns;
use vstd::utf8::encode_utf8;

verus! {

/// Lexicographic byte order from position `i` on: the prefix of length `i`
/// is assumed equal.
pub open spec fn bytes_le_from(a: Seq<u8>, b: Seq<u8>, i: int) -> bool
    decreases a.len() - i,
{
    if i >= a.len() {
        true
    } else if i >= b.len() {
        false
    } else if a[i] < b[i] {
        true
    } else if a[i] > b[i] {
        false
    } else {
        bytes_le_from(a, b, i + 1)
    }
}

/// Lexicographic order on byte sequences.
pub open spec fn bytes_le(a: Seq<u8>, b: Seq<u8>) -> bool {
    bytes_le_from(a, b, 0)
}

/// Timestamp order: the UTF-8 bytes of the label, compared
/// lexicographically.
pub open spec fn ts_le(a: Bar, b: Bar) -> bool {
    bytes_le(encode_utf8(a.ts@), encode_utf8(b.ts@))
}

/// Compare two timestamp labels byte-lexicographically.
fn ts_le_exec(a: &Bar, b: &Bar) -> (r: bool)
    ensures
        r == ts_le(*a, *b),
{
    let ab = a.ts.as_str().as_bytes();
    let bb = b.ts.as_str().as_bytes();
    let na = ab.len();
    let nb = bb.len();
    let mut i: usize = 0;
    loop
        invariant
            i <= na,
            i <= nb,
            na == ab@.len(),
            nb == bb@.len(),
            ab@ == encode_utf8(a.ts@),
            bb@ == encode_utf8(b.ts@),
            bytes_le(ab@, bb@) == bytes_le_from(ab@, bb@, i as int),
        decreases na - i,
    {
        if i >= na {
            return true;
        }
        if i >= nb {
            return false;
        }
        if ab[i] < bb[i] {
            return true;
        }
        if ab[i] > bb[i] {
            return false;
        }
        i += 1;
    }
}

/// Insert a bar into a sequence after every element whose timestamp is not
/// strictly greater: for a sorted sequence this is the stable insertion
/// position.
pub open spec fn insert_bar(s: Seq<Bar>, x: Bar) -> Seq<Bar>
    decreases s.len(),
{
    if s.len() == 0 {
        seq![x]
    } else if ts_le(s.last(), x) {
        s.push(x)
    } else {
        insert_bar(s.drop_last(), x).push(s.last())
    }
}

/// Stable insertion sort of bars by timestamp.
pub open spec fn sort_bars(s: Seq<Bar>) -> Seq<Bar>
    decreases s.len(),
{
    if s.len() == 0 {
        s
    } else {
        insert_bar(sort_bars(s.drop_last()), s.last())
    }
}

/// Deduplication from position `i` on: elements whose timestamp equals the
/// previously kept one are dropped.
pub open spec fn dedup_from(s: Seq<Bar>, i: int, prev: Seq<char>) -> Seq<Bar>
    decreases s.len() - i,
{
    if i < 0 || i >= s.len() {
        Seq::empty()
    } else if s[i].ts@ == prev {
        dedup_from(s, i + 1, prev)
    } else {
        seq![s[i]] + dedup_from(s, i + 1, s[i].ts@)
    }
}

/// Remove consecutive bars with duplicate timestamps, keeping the first of
/// each run.
pub open spec fn dedup_ts(s: Seq<Bar>) -> Seq<Bar> {
    if s.len() == 0 {
        s
    } else {
        seq![s[0]] + dedup_from(s, 1, s[0].ts@)
    }
}

/// A bar survives the final filter when its close price is positive.
pub open spec fn keep_bar(b: Bar) -> bool {
    b.close > 0
}

/// The full cleaning pipeline: optional stable sort by timestamp, duplicate
/// removal, and removal of non-positive closes.
pub open spec fn clean_spec(s: Seq<Bar>, sort: bool) -> Seq<Bar> {
    dedup_ts(
        if sort {
            sort_bars(s)
        } else {
            s
        },
    ).filter(|b: Bar| keep_bar(b))
}

/// `insert_bar` places the element exactly at the scan position `j`: the
/// first position from the right whose predecessor is not strictly greater.
proof fn lemma_insert_bar_at(s: Seq<Bar>, x: Bar, j: int)
    requires
        0 <= j <= s.len(),
        j > 0 ==> ts_le(s[j - 1], x),
        forall|p: int| j <= p < s.len() ==> !ts_le(#[trigger] s[p], x),
    ensures
        insert_bar(s, x) == s.subrange(0, j) + seq![x] + s.subrange(j, s.len() as int),
    decreases s.len() - j,
{
    if j == s.len() {
        if s.len() == 0 {
            assert(insert_bar(s, x) =~= s.subrange(0, j) + seq![x] + s.subrange(
                j,
                s.len() as int,
            ));
        } else {
            assert(ts_le(s.last(), x));
            assert(s.push(x) =~= s.subrange(0, j) + seq![x] + s.subrange(j, s.len() as int));
        }
    } else {
        assert(!ts_le(s[s.len() - 1], x));
        let d = s.drop_last();
        assert(d.len() == s.len() - 1);
        assert(j <= d.len());
        assert(j > 0 ==> d[j - 1] == s[j - 1]);
        assert(forall|p: int| j <= p < d.len() ==> d[p] == s[p]);
        lemma_insert_bar_at(d, x, j);
        assert(insert_bar(s, x) == insert_bar(d, x).push(s.last()));
        assert((d.subrange(0, j) + seq![x] + d.subrange(j, d.len() as int)).push(s.last()) =~= s
            .subrange(0, j) + seq![x] + s.subrange(j, s.len() as int));
    }
}

/// Clean bars: optionally sort by timestamp (stably), drop consecutive
/// duplicate timestamps keeping the first occurrence, and drop rows with a
/// non-positive close.
pub fn clean_bars(bars: Vec<Bar>, sort: bool) -> (r: Vec<Bar>)
    ensures
        r@ == clean_spec(bars@, sort),
{
    let n = bars.len();
    // Stage one: stable insertion sort by timestamp, when requested.
    let mut staged: Vec<Bar> = Vec::new();
    if sort {
        let mut k: usize = 0;
        while k < n
            invariant
                k <= n,
                n == bars@.len(),
                staged@ == sort_bars(bars@.subrange(0, k as int)),
                staged@.len() == k,
            decreases n - k,
        {
            let x = clone_bar(&bars[k]);
            let mut j: usize = staged.len();
            while j > 0 && !ts_le_exec(&staged[j - 1], &x)
                invariant
                    j <= staged@.len(),
                    forall|p: int| j <= p < staged@.len() ==> !ts_le(#[trigger] staged@[p], x),
                decreases j,
            {
                j -= 1;
            }
            let ghost pre = staged@;
            staged.insert(j, x);
            proof {
                lemma_insert_bar_at(pre, x, j as int);
                assert(pre.subrange(0, j as int) + seq![x] + pre.subrange(
                    j as int,
                    pre.len() as int,
                ) =~= pre.insert(j as int, x));
                assert(bars@.subrange(0, k + 1).drop_last() =~= bars@.subrange(0, k as int));
                assert(bars@.subrange(0, k + 1).last() == bars@[k as int]);
                assert(x == bars@[k as int]);
                lemma_sort_len(bars@.subrange(0, k + 1));
            }
            k += 1;
        }
        proof {
            assert(bars@.subrange(0, n as int) =~= bars@);
        }
    } else {
        let mut k: usize = 0;
        while k < n
            invariant
                k <= n,
                n == bars@.len(),
                staged@ =~= bars@.subrange(0, k as int),
            decreases n - k,
        {
            let x = clone_bar(&bars[k]);
            staged.push(x);
            proof {
                assert(staged@ =~= bars@.subrange(0, k + 1));
            }
            k += 1;
        }
        proof {
            assert(staged@ =~= bars@);
        }
    }
    let ghost sorted_stage = staged@;
    // Stage two: drop consecutive duplicate timestamps, keeping the first.
    let m = staged.len();
    let mut deduped: Vec<Bar> = Vec::new();
    let mut k2: usize = 0;
    while k2 < m
        invariant
            k2 <= m,
            m == sorted_stage.len(),
            staged@ == sorted_stage,
            k2 == 0 ==> deduped@.len() == 0,
            k2 > 0 ==> deduped@.len() >= 1,
            k2 > 0 ==> dedup_ts(sorted_stage) == deduped@ + dedup_from(
                sorted_stage,
                k2 as int,
                deduped@.last().ts@,
            ),
            k2 == 0 ==> dedup_ts(sorted_stage) == deduped@ + dedup_ts(sorted_stage),
        decreases m - k2,
    {
        let x = clone_bar(&staged[k2]);
        if k2 == 0 {
            deduped.push(x);
            proof {
                assert(dedup_ts(sorted_stage) =~= deduped@ + dedup_from(
                    sorted_stage,
                    1,
                    deduped@.last().ts@,
                ));
            }
        } else {
            let last_idx = deduped.len() - 1;
            let same = strings_equal(&x.ts, &deduped[last_idx].ts);
            if same {
                proof {
                    assert(dedup_from(sorted_stage, k2 as int, deduped@.last().ts@)
                        == dedup_from(sorted_stage, k2 + 1, deduped@.last().ts@));
                }
            } else {
                let ghost pre = deduped@;
                deduped.push(x);
                proof {
                    assert(dedup_from(sorted_stage, k2 as int, pre.last().ts@) =~= seq![
                        sorted_stage[k2 as int],
                    ] + dedup_from(sorted_stage, k2 + 1, sorted_stage[k2 as int].ts@));
                    assert(deduped@ =~= pre + seq![sorted_stage[k2 as int]]);
                    assert(deduped@.last().ts@ == sorted_stage[k2 as int].ts@);
                    assert(pre + (seq![sorted_stage[k2 as int]] + dedup_from(
                        sorted_stage,
                        k2 + 1,
                        sorted_stage[k2 as int].ts@,
                    )) =~= deduped@ + dedup_from(
                        sorted_stage,
                        k2 + 1,
                        sorted_stage[k2 as int].ts@,
                    ));
                }
            }
        }
        k2 += 1;
    }
    proof {
        if m > 0 {
            assert(dedup_from(sorted_stage, m as int, deduped@.last().ts@) =~= Seq::<
                Bar,
            >::empty());
            assert(deduped@ + Seq::<Bar>::empty() =~= deduped@);
        } else {
            assert(dedup_ts(sorted_stage) =~= Seq::<Bar>::empty());
            assert(deduped@ =~= dedup_ts(sorted_stage));
        }
        assert(deduped@ == dedup_ts(sorted_stage));
    }
    // Stage three: keep only bars with a positive close.
    let p = deduped.len();
    let mut out: Vec<Bar> = Vec::new();
    let mut k3: usize = 0;
    proof {
        assert(deduped@.subrange(0, 0).filter(|b: Bar| keep_bar(b)) =~= Seq::<Bar>::empty());
    }
    while k3 < p
        invariant
            k3 <= p,
            p == deduped@.len(),
            out@ == deduped@.subrange(0, k3 as int).filter(|b: Bar| keep_bar(b)),
        decreases p - k3,
    {
        let x = clone_bar(&deduped[k3]);
        proof {
            let sub = deduped@.subrange(0, k3 + 1);
            assert(sub.drop_last() =~= deduped@.subrange(0, k3 as int));
            reveal_with_fuel(Seq::filter, 2);
            assert(sub.filter(|b: Bar| keep_bar(b)) == if keep_bar(sub.last()) {
                sub.drop_last().filter(|b: Bar| keep_bar(b)).push(sub.last())
            } else {
                sub.drop_last().filter(|b: Bar| keep_bar(b))
            });
            assert(sub.last() == deduped@[k3 as int]);
        }
        if x.close > 0 {
            out.push(x);
        }
        k3 += 1;
    }
    proof {
        assert(deduped@.subrange(0, p as int) =~= deduped@);
    }
    out
}

/// Sorting preserves the length.
proof fn lemma_sort_len(s: Seq<Bar>)
    ensures
        sort_bars(s).len() == s.len(),
    decreases s.len(),
{
    if s.len() > 0 {
        lemma_sort_len(s.drop_last());
        lemma_insert_len(sort_bars(s.drop_last()), s.last());
    }
}

/// Insertion grows the length by one.
proof fn lemma_insert_len(s: Seq<Bar>, x: Bar)
    ensures
        insert_bar(s, x).len() == s.len() + 1,
    decreases s.len(),
{
    if s.len() > 0 && !ts_le(s.last(), x) {
        lemma_insert_len(s.drop_last(), x);
    }
}

/// Copy one bar.
fn clone_bar(b: &Bar) -> (r: Bar)
    ensures
        r == *b,
{
    let r = Bar {
        ts: b.ts.clone(),
        open: b.open,
        high: b.high,
        low: b.low,
        close: b.close,
        volume: b.volume,
    };
    proof {
        assert(r.ts@ == b.ts@);
    }
    r
}

/// Whether two strings hold the same characters.
fn strings_equal(a: &String, b: &String) -> (r: bool)
    ensures
        r == (a@ == b@),
{
    a.eq(b)
}

/// The minimum number of rows the configured windows demand.
pub open spec fn required_rows(p: PreprocessConfig, w: WindowsConfig) -> int {
    let a = if p.min_rows >= w.robust_scale_n {
        p.min_rows as int
    } else {
        w.robust_scale_n as int
    };
    let b = if w.memory_k >= w.capacity_l {
        w.memory_k as int
    } else {
        w.capacity_l as int
    };
    if a >= b {
        a
    } else {
        b
    }
}

/// The validation conditions, in the order they are checked.
pub open spec fn bars_valid(bars: Seq<Bar>, p: PreprocessConfig, w: WindowsConfig) -> bool {
    &&& bars.len() > 0
    &&& bars.len() >= required_rows(p, w)
    &&& (p.require_positive_close ==> forall|i: int| 0 <= i < bars.len()
        ==> (#[trigger] bars[i]).close > 0)
    &&& (!p.allow_zero_volume ==> forall|i: int| 0 <= i < bars.len()
        ==> (#[trigger] bars[i]).volume > 0)
}

/// Validate that the bar data meets the minimum requirements for the engine
/// to run: enough rows for the configured windows, and — depending on the
/// preprocessing policy — positive closes and positive volumes.
pub fn validate_bars(bars: &Vec<Bar>, preprocess: &PreprocessConfig, windows: &WindowsConfig)
    -> (r: Result<(), RuptureError>)
    ensures
        r.is_ok() <==> bars_valid(bars@, *preprocess, *windows),
        bars@.len() == 0 ==> (match r {
            Err(RuptureError::EmptyData(m)) => m@ == "no bars remain after reading the input"@,
            _ => false,
        }),
        bars@.len() > 0 && bars@.len() < required_rows(*preprocess, *windows) ==> (match r {
            Err(RuptureError::Validation(m)) => m@
                == "not enough rows for the configured windows"@,
            _ => false,
        }),
{
    let n = bars.len();
    if n == 0 {
        return Err(RuptureError::EmptyData("no bars remain after reading the input".to_owned()));
    }
    let mut required: usize = preprocess.min_rows;
    if windows.robust_scale_n > required {
        required = windows.robust_scale_n;
    }
    if windows.memory_k > required {
        required = windows.memory_k;
    }
    if windows.capacity_l > required {
        required = windows.capacity_l;
    }
    proof {
        assert(required == required_rows(*preprocess, *windows));
    }
    if n < required {
        return Err(
            RuptureError::Validation("not enough rows for the configured windows".to_owned()),
        );
    }
    if preprocess.require_positive_close {
        let mut i: usize = 0;
        while i < n
            invariant
                i <= n,
                n == bars@.len(),
                n > 0,
                n >= required_rows(*preprocess, *windows),
                preprocess.require_positive_close,
                forall|j: int| 0 <= j < i ==> (#[trigger] bars@[j]).close > 0,
            decreases n - i,
        {
            if bars[i].close <= 0 {
                proof {
                    assert(0 <= i < bars@.len() && (bars@[i as int]).close <= 0);
                    assert(!bars_valid(bars@, *preprocess, *windows));
                }
                return Err(
                    RuptureError::Validation("non-positive close price in the input".to_owned()),
                );
            }
            i += 1;
        }
    }
    if !preprocess.allow_zero_volume {
        let mut i: usize = 0;
        while i < n
            invariant
                i <= n,
                n == bars@.len(),
                n > 0,
                n >= required_rows(*preprocess, *windows),
                !preprocess.allow_zero_volume,
                preprocess.require_positive_close ==> forall|j: int| 0 <= j < n
                    ==> (#[trigger] bars@[j]).close > 0,
                forall|j: int| 0 <= j < i ==> (#[trigger] bars@[j]).volume > 0,
            decreases n - i,
        {
            if bars[i].volume <= 0 {
                proof {
                    assert(0 <= i < bars@.len() && (bars@[i as int]).volume <= 0);
                    assert(!bars_valid(bars@, *preprocess, *windows));
                }
                return Err(
                    RuptureError::Validation("non-positive volume in the input".to_owned()),
                );
            }
            i += 1;
        }
    }
    Ok(())
}

} // verus!
