//! A verified ascending sort for fixed-point values.
//!
//! `sort_spec` is the canonical ascending reordering of a sequence; the
//! executable `sort_vec` is proved to return exactly that reordering, which
//! lets the robust statistics (`median`, `mad`, `quantile`) have exact
//! functional contracts.

use vstd::prelude::*;
use vstd::relations::{sorted_by, total_ordering};
use vstd::seq_lib::group_to_multiset_ensures;
use vstd::seq_lib::lemma_sorted_unique;

verus! {

/// The ascending order on fixed-point values.
pub open spec fn fix_le() -> spec_fn(i128, i128) -> bool {
    |a: i128, b: i128| a <= b
}

/// The sequence is in ascending order.
pub open spec fn sorted(s: Seq<i128>) -> bool {
    forall|i: int, j: int| 0 <= i < j < s.len() ==> #[trigger] s[i] <= #[trigger] s[j]
}

/// Every element lies in `[-bound, bound]`.
pub open spec fn bounded_by(s: Seq<i128>, bound: int) -> bool {
    forall|i: int| 0 <= i < s.len() ==> -bound <= #[trigger] s[i] <= bound
}

/// The canonical ascending reordering of a sequence.
pub open spec fn sort_spec(s: Seq<i128>) -> Seq<i128> {
    s.sort_by(fix_le())
}

pub proof fn lemma_fix_le_total()
    ensures
        total_ordering(fix_le()),
{
}

/// `sort_spec` is a sorted permutation of its input.
pub proof fn lemma_sort_spec_ensures(s: Seq<i128>)
    ensures
        sort_spec(s).to_multiset() == s.to_multiset(),
        sorted(sort_spec(s)),
        sort_spec(s).len() == s.len(),
        forall|x: i128| s.contains(x) <==> sort_spec(s).contains(x),
{
    broadcast use group_to_multiset_ensures;

    lemma_fix_le_total();
    s.lemma_sort_by_ensures(fix_le());
    assert forall|i: int, j: int| 0 <= i < j < sort_spec(s).len() implies #[trigger] sort_spec(
        s,
    )[i] <= #[trigger] sort_spec(s)[j] by {
        assert(fix_le()(sort_spec(s)[i], sort_spec(s)[j]));
    }
    assert forall|x: i128| s.contains(x) <==> sort_spec(s).contains(x) by {
        assert(s.contains(x) ==> s.to_multiset().count(x) > 0);
        assert(sort_spec(s).contains(x) ==> sort_spec(s).to_multiset().count(x) > 0);
    }
    assert(sort_spec(s).to_multiset().len() == s.to_multiset().len());
}

/// Sorting preserves any magnitude bound on the elements.
pub proof fn lemma_sort_spec_bounded(s: Seq<i128>, bound: int)
    requires
        bounded_by(s, bound),
    ensures
        bounded_by(sort_spec(s), bound),
{
    lemma_sort_spec_ensures(s);
    assert forall|i: int| 0 <= i < sort_spec(s).len() implies -bound <= #[trigger] sort_spec(
        s,
    )[i] <= bound by {
        let x = sort_spec(s)[i];
        assert(sort_spec(s).contains(x)) by {
            assert(0 <= i < sort_spec(s).len() && sort_spec(s)[i] == x);
        }
        assert(s.contains(x));
        let j = choose|j: int| 0 <= j < s.len() && s[j] == x;
        assert(-bound <= s[j] <= bound);
    }
}

/// Return the elements of `input` in ascending order.
pub fn sort_vec(input: &Vec<i128>) -> (r: Vec<i128>)
    ensures
        r@ == sort_spec(input@),
        r@.len() == input@.len(),
{
    broadcast use group_to_multiset_ensures;

    let n = input.len();
    let mut out: Vec<i128> = Vec::new();
    let mut k: usize = 0;
    proof {
        assert(input@.subrange(0, 0) =~= out@);
    }
    while k < n
        invariant
            n == input@.len(),
            k <= n,
            sorted(out@),
            out@.to_multiset() == input@.subrange(0, k as int).to_multiset(),
            out@.len() == k,
        decreases n - k,
    {
        let x = input[k];
        let mut pos: usize = 0;
        while pos < out.len() && out[pos] <= x
            invariant
                pos <= out@.len(),
                forall|p: int| 0 <= p < pos ==> #[trigger] out@[p] <= x,
            decreases out@.len() - pos,
        {
            pos += 1;
        }
        let ghost pre = out@;
        out.insert(pos, x);
        proof {
            broadcast use group_to_multiset_ensures;

            assert(out@ == pre.insert(pos as int, x));
            pre.insert_ensures(pos as int, x);
            assert forall|i: int, j: int| 0 <= i < j < out@.len() implies #[trigger] out@[i]
                <= #[trigger] out@[j] by {
                if j < pos {
                    assert(out@[i] == pre[i] && out@[j] == pre[j]);
                } else if i < pos && j == pos {
                    assert(out@[i] == pre[i] && out@[j] == x);
                } else if i < pos && j > pos {
                    assert(out@[i] == pre[i] && out@[j] == pre[j - 1]);
                    assert(i <= j - 1 < pre.len());
                    if i == j - 1 {
                        assert(out@[i] <= x);
                        assert(pos < pre.len() ==> x < pre[pos as int]);
                    }
                } else if i == pos && j > pos {
                    assert(out@[i] == x && out@[j] == pre[j - 1]);
                    assert(pos <= j - 1 < pre.len());
                    assert(pos < pre.len() ==> x < pre[pos as int]);
                    assert(pre[pos as int] <= pre[j - 1]);
                } else {
                    assert(out@[i] == pre[i - 1] && out@[j] == pre[j - 1]);
                }
            }
            assert(pre.insert(pos as int, x).to_multiset() =~= pre.to_multiset().insert(x));
            assert(input@.subrange(0, k + 1) =~= input@.subrange(0, k as int).push(x));
            assert(input@.subrange(0, k as int).push(x).to_multiset() =~= input@.subrange(
                0,
                k as int,
            ).to_multiset().insert(x));
            assert(out@.to_multiset() =~= input@.subrange(0, k + 1).to_multiset());
        }
        k += 1;
    }
    proof {
        assert(input@.subrange(0, n as int) =~= input@);
        lemma_sort_spec_ensures(input@);
        lemma_fix_le_total();
        assert(sorted_by(out@, fix_le()));
        assert(sorted_by(sort_spec(input@), fix_le()));
        lemma_sorted_unique(out@, sort_spec(input@), fix_le());
        assert(out@ =~= sort_spec(input@));
    }
    out
}

} // verus!
