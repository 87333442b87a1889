//! Power-law memory kernel.
//!
//! Weights are `w_i = i^(-alpha)` for `i = 1..K`, evaluated as
//! `exp(-alpha * ln i)` in fixed point, made non-increasing, and normalised
//! so they sum to exactly `SCALE`.  The kernel convolves the most recent
//! combined residuals with these weights to produce the strain signal.

use vstd::prelude::*;
use crate::fixed::{div_trunc, mul_div, SCALE, VAL_LIMIT};
use crate::sorting::bounded_by;
use crate::rolling_window::push_evict;
use crate::transcend::{exp_neg_fix, fix_exp_neg, fix_ln, lemma_exp_neg_zero, lemma_ln_fix_one,
    ln_fix, LN_ARG_LIMIT, LN_BOUND};
use vstd::arithmetic::div_mod::{lemma_div_is_ordered, lemma_div_multiples_vanish,
    lemma_div_pos_is_pos, lemma_fundamental_div_mod};

verus! {

/// Largest accepted kernel capacity.
pub const KCAP_LIMIT: usize = 10_000;

/// Largest accepted decay exponent (ten, in fixed point).
pub const ALPHA_LIMIT: i128 = 10_000_000_000_000;

/// Sum of a sequence of fixed-point values.
pub open spec fn sum_fix(s: Seq<i128>) -> int
    decreases s.len(),
{
    if s.len() == 0 {
        0
    } else {
        sum_fix(s.drop_last()) + s.last()
    }
}

/// Adjacent elements never increase.
pub open spec fn weights_monotone(w: Seq<i128>) -> bool {
    forall|i: int| 1 <= i < w.len() ==> #[trigger] w[i] <= w[i - 1]
}

/// The unnormalised weight of rank `i` (zero-based): `exp(-alpha * ln(i+1))`.
pub open spec fn raw_weight(alpha: int, i: nat) -> int {
    exp_neg_fix((alpha * ln_fix(((i + 1) as int) * SCALE)) / (SCALE as int))
}

/// Raw weights forced non-increasing by clamping each to its predecessor.
pub open spec fn clamped_weight(alpha: int, i: nat) -> int
    decreases i,
{
    if i == 0 {
        raw_weight(alpha, 0)
    } else {
        let w = raw_weight(alpha, i);
        let p = clamped_weight(alpha, (i - 1) as nat);
        if w > p {
            p
        } else {
            w
        }
    }
}

/// The sequence of clamped raw weights.
pub open spec fn raw_weight_seq(alpha: int, k: nat) -> Seq<i128> {
    Seq::new(k, |i: int| clamped_weight(alpha, i as nat) as i128)
}

/// The normalised kernel weights: each raw weight scaled by
/// `SCALE / total`, with the rounding deficit added to the first (largest)
/// weight so the sum is exactly `SCALE`.
pub open spec fn kernel_weights(alpha: int, k: nat) -> Seq<i128> {
    let total = sum_fix(raw_weight_seq(alpha, k));
    let norms = Seq::new(
        k,
        |i: int| ((clamped_weight(alpha, i as nat) * SCALE) / total) as i128,
    );
    norms.update(0, (norms[0] + SCALE - sum_fix(norms)) as i128)
}

/// Dot product of the first `i` weights with the last `i` values of `x`,
/// newest value first.
pub open spec fn dot_rev_upto(w: Seq<i128>, x: Seq<i128>, i: nat) -> int
    decreases i,
{
    if i == 0 {
        0
    } else {
        dot_rev_upto(w, x, (i - 1) as nat) + (w[i - 1] as int) * (x[x.len() - i] as int)
    }
}

/// The strain read off a buffer: the reversed dot product over however many
/// values are available, scaled back down.
pub open spec fn strain_of(w: Seq<i128>, x: Seq<i128>) -> int {
    let n = if w.len() <= x.len() {
        w.len()
    } else {
        x.len()
    };
    div_trunc(dot_rev_upto(w, x, n), SCALE as int)
}

/// A sum of non-negative values dominates each of its elements and is
/// non-negative.
pub proof fn lemma_sum_nonneg_ge_element(s: Seq<i128>, j: int)
    requires
        forall|i: int| 0 <= i < s.len() ==> 0 <= #[trigger] s[i],
        0 <= j < s.len(),
    ensures
        sum_fix(s) >= s[j],
        sum_fix(s) >= 0,
    decreases s.len(),
{
    if s.len() == 1 {
    } else if j == s.len() - 1 {
        lemma_sum_nonneg_ge_element(s.drop_last(), 0);
    } else {
        lemma_sum_nonneg_ge_element(s.drop_last(), j);
    }
}

/// A sum of non-negative values is non-negative.
pub proof fn lemma_sum_nonneg(s: Seq<i128>)
    requires
        forall|p: int| 0 <= p < s.len() ==> 0 <= #[trigger] s[p],
    ensures
        0 <= sum_fix(s),
    decreases s.len(),
{
    if s.len() > 0 {
        lemma_sum_nonneg(s.drop_last());
    }
}

/// A prefix sum of non-negative values never exceeds the whole sum.
pub proof fn lemma_sum_prefix_le(s: Seq<i128>, i: int)
    requires
        forall|p: int| 0 <= p < s.len() ==> 0 <= #[trigger] s[p],
        0 <= i <= s.len(),
    ensures
        sum_fix(s.subrange(0, i)) <= sum_fix(s),
        0 <= sum_fix(s.subrange(0, i)),
    decreases s.len() - i,
{
    lemma_sum_nonneg(s.subrange(0, i));
    if i == s.len() {
        assert(s.subrange(0, i) =~= s);
    } else {
        lemma_sum_prefix_le(s, i + 1);
        assert(s.subrange(0, i + 1).drop_last() =~= s.subrange(0, i));
        assert(sum_fix(s.subrange(0, i + 1)) == sum_fix(s.subrange(0, i)) + s[i]);
    }
}

/// Replacing the first element changes the sum by the difference.
pub proof fn lemma_sum_update_first(s: Seq<i128>, x: i128)
    requires
        s.len() >= 1,
    ensures
        sum_fix(s.update(0, x)) == sum_fix(s) - s[0] + x,
    decreases s.len(),
{
    if s.len() == 1 {
        assert(s.update(0, x).drop_last() =~= s.drop_last());
    } else {
        assert(s.update(0, x).drop_last() =~= s.drop_last().update(0, x));
        lemma_sum_update_first(s.drop_last(), x);
    }
}

/// Floor division distributes sub-additively over sums of non-negative
/// values.
pub proof fn lemma_div_sum_le(a: int, b: int, d: int)
    requires
        0 <= a,
        0 <= b,
        0 < d,
    ensures
        a / d + b / d <= (a + b) / d,
{
    lemma_fundamental_div_mod(a, d);
    lemma_fundamental_div_mod(b, d);
    vstd::arithmetic::div_mod::lemma_mod_division_less_than_divisor(a, d);
    vstd::arithmetic::div_mod::lemma_mod_division_less_than_divisor(b, d);
    let q = a / d + b / d;
    assert(q * d <= a + b) by (nonlinear_arith)
        requires
            a == d * (a / d) + a % d,
            b == d * (b / d) + b % d,
            q == a / d + b / d,
            0 <= a % d,
            0 <= b % d,
    {}
    lemma_div_is_ordered(q * d, a + b, d);
    lemma_div_multiples_vanish(q, d);
}

/// A dot product against weights summing to `w_total` with inputs bounded by
/// `bound` stays within `w_total * bound`.
pub proof fn lemma_dot_bound(w: Seq<i128>, x: Seq<i128>, i: nat, bound: int)
    requires
        i <= w.len(),
        i <= x.len(),
        0 <= bound,
        forall|p: int| 0 <= p < w.len() ==> 0 <= #[trigger] w[p],
        forall|p: int| 0 <= p < x.len() ==> -bound <= #[trigger] x[p] <= bound,
    ensures
        -sum_fix(w.subrange(0, i as int)) * bound <= dot_rev_upto(w, x, i) <= sum_fix(
            w.subrange(0, i as int),
        ) * bound,
    decreases i,
{
    if i == 0 {
        assert(sum_fix(w.subrange(0, 0)) == 0);
    } else {
        lemma_dot_bound(w, x, (i - 1) as nat, bound);
        let s_prev = sum_fix(w.subrange(0, i as int - 1));
        assert(w.subrange(0, i as int).drop_last() =~= w.subrange(0, i as int - 1));
        assert(sum_fix(w.subrange(0, i as int)) == s_prev + w[i as int - 1]);
        let wi = w[i as int - 1] as int;
        let xi = x[x.len() - i] as int;
        assert(-wi * bound <= wi * xi <= wi * bound) by (nonlinear_arith)
            requires
                0 <= wi,
                -bound <= xi <= bound,
        {}
        assert((s_prev + wi) * bound == s_prev * bound + wi * bound) by (nonlinear_arith)
        {}
        assert(-(s_prev + wi) * bound == -s_prev * bound + -wi * bound) by (nonlinear_arith)
        {}
    }
}

/// The dot product of non-negative weights with non-negative inputs is
/// non-negative, and so is the strain read off it.
pub proof fn lemma_strain_nonneg(w: Seq<i128>, x: Seq<i128>)
    requires
        forall|p: int| 0 <= p < w.len() ==> 0 <= #[trigger] w[p],
        forall|p: int| 0 <= p < x.len() ==> 0 <= #[trigger] x[p],
    ensures
        0 <= strain_of(w, x),
{
    lemma_dot_nonneg(
        w,
        x,
        if w.len() <= x.len() {
            w.len()
        } else {
            x.len()
        },
    );
    lemma_div_pos_is_pos(
        dot_rev_upto(
            w,
            x,
            if w.len() <= x.len() {
                w.len()
            } else {
                x.len()
            },
        ),
        SCALE as int,
    );
}

/// The partial dot product of non-negative factors is non-negative.
pub proof fn lemma_dot_nonneg(w: Seq<i128>, x: Seq<i128>, i: nat)
    requires
        i <= w.len(),
        i <= x.len(),
        forall|p: int| 0 <= p < w.len() ==> 0 <= #[trigger] w[p],
        forall|p: int| 0 <= p < x.len() ==> 0 <= #[trigger] x[p],
    ensures
        0 <= dot_rev_upto(w, x, i),
    decreases i,
{
    if i > 0 {
        lemma_dot_nonneg(w, x, (i - 1) as nat);
        assert(0 <= (w[i - 1] as int) * (x[x.len() - i] as int)) by (nonlinear_arith)
            requires
                0 <= w[i - 1],
                0 <= x[x.len() - i],
        {}
    }
}

/// A constant buffer as long as the weights yields exactly the constant:
/// the dot product is the constant times the weight sum.
pub proof fn lemma_dot_const(w: Seq<i128>, x: Seq<i128>, c: i128, i: nat)
    requires
        i <= w.len(),
        i <= x.len(),
        forall|p: int| 0 <= p < x.len() ==> #[trigger] x[p] == c,
    ensures
        dot_rev_upto(w, x, i) == sum_fix(w.subrange(0, i as int)) * (c as int),
    decreases i,
{
    if i == 0 {
        assert(sum_fix(w.subrange(0, 0)) == 0);
        assert(0 * (c as int) == 0) by (nonlinear_arith)
        {}
    } else {
        lemma_dot_const(w, x, c, (i - 1) as nat);
        let s_prev = sum_fix(w.subrange(0, i as int - 1));
        assert(w.subrange(0, i as int).drop_last() =~= w.subrange(0, i as int - 1));
        assert(sum_fix(w.subrange(0, i as int)) == s_prev + w[i as int - 1]);
        assert((s_prev + w[i as int - 1]) * (c as int) == s_prev * (c as int) + (w[i as int
            - 1] as int) * (c as int)) by (nonlinear_arith)
        {}
    }
}

/// Feeding a constant `c` into a kernel whose weights sum to `SCALE` yields
/// a strain of exactly `c` once the buffer holds as many values as there are
/// weights: the weights form a convex combination.
pub proof fn lemma_constant_input_strain(w: Seq<i128>, x: Seq<i128>, c: i128)
    requires
        w.len() == x.len(),
        sum_fix(w) == SCALE,
        forall|p: int| 0 <= p < x.len() ==> #[trigger] x[p] == c,
    ensures
        strain_of(w, x) == c,
{
    lemma_dot_const(w, x, c, w.len());
    assert(w.subrange(0, w.len() as int) =~= w);
    assert(dot_rev_upto(w, x, w.len()) == (SCALE as int) * (c as int)) by (nonlinear_arith)
        requires
            dot_rev_upto(w, x, w.len()) == sum_fix(w) * (c as int),
            sum_fix(w) == SCALE,
    {}
    if c >= 0 {
        lemma_div_multiples_vanish(c as int, SCALE as int);
        assert((SCALE as int) * (c as int) == (c as int) * (SCALE as int)) by (nonlinear_arith)
        {}
    } else {
        lemma_div_multiples_vanish(-(c as int), SCALE as int);
        assert(-((SCALE as int) * (c as int)) == (-(c as int)) * (SCALE as int))
            by (nonlinear_arith)
        {}
    }
}

/// Power-law memory kernel: normalised non-increasing weights plus a bounded
/// FIFO of the most recent combined residuals.
pub struct MemoryKernel {
    weights: Vec<i128>,
    buffer: Vec<i128>,
    capacity: usize,
}

impl MemoryKernel {
    /// The weight vector.
    pub closed spec fn spec_weights(&self) -> Seq<i128> {
        self.weights@
    }

    /// The buffered residuals, oldest first.
    pub closed spec fn contents(&self) -> Seq<i128> {
        self.buffer@
    }

    /// The kernel capacity `K`.
    pub closed spec fn cap(&self) -> int {
        self.capacity as int
    }

    /// Structural invariant: weights are a monotone convex combination, the
    /// buffer is bounded.
    pub open spec fn inv(&self) -> bool {
        &&& 1 <= self.cap() <= KCAP_LIMIT
        &&& self.spec_weights().len() == self.cap()
        &&& forall|i: int| 0 <= i < self.spec_weights().len() ==> 0
            <= #[trigger] self.spec_weights()[i] <= SCALE
        &&& sum_fix(self.spec_weights()) == SCALE
        &&& weights_monotone(self.spec_weights())
        &&& self.contents().len() <= self.cap()
        &&& bounded_by(self.contents(), VAL_LIMIT as int)
    }

    /// Create a kernel of capacity `k` with decay exponent `alpha`.
    #[verifier::rlimit(100)]
    pub fn new(k: usize, alpha: i128) -> (r: MemoryKernel)
        requires
            1 <= k <= KCAP_LIMIT,
            0 < alpha <= ALPHA_LIMIT,
        ensures
            r.inv(),
            r.cap() == k,
            r.contents() == Seq::<i128>::empty(),
            r.spec_weights() == kernel_weights(alpha as int, k as nat),
            sum_fix(r.spec_weights()) == SCALE,
            weights_monotone(r.spec_weights()),
            r.spec_weights().len() == k,
    {
        let mut raws: Vec<i128> = Vec::new();
        let mut i: usize = 0;
        while i < k
            invariant
                i <= k,
                k <= KCAP_LIMIT,
                0 < alpha <= ALPHA_LIMIT,
                raws@.len() == i,
                forall|j: int| 0 <= j < i ==> raws@[j] == clamped_weight(alpha as int, j as nat),
                forall|j: int| 0 <= j < i ==> 0 <= #[trigger] raws@[j] <= SCALE,
            decreases k - i,
        {
            let arg: i128 = ((i as i128) + 1) * SCALE;
            proof {
                assert(SCALE <= arg <= LN_ARG_LIMIT) by (nonlinear_arith)
                    requires
                        arg == ((i as i128) + 1) * SCALE,
                        1 <= (i as i128) + 1 <= 10_001,
                        SCALE == 1_000_000_000_000i128,
                        LN_ARG_LIMIT == 1_000_000_000_000_000_000_000_000_000_000_000_000i128,
                {}
            }
            let lnv = fix_ln(arg);
            proof {
                assert(alpha * lnv <= ALPHA_LIMIT * LN_BOUND) by (nonlinear_arith)
                    requires
                        0 <= alpha <= ALPHA_LIMIT,
                        0 <= lnv <= LN_BOUND,
                {}
                assert(0 <= alpha * lnv) by (nonlinear_arith)
                    requires
                        0 <= alpha,
                        0 <= lnv,
                {}
            }
            let e = mul_div(alpha, lnv, SCALE);
            let raw = fix_exp_neg(e);
            let w: i128 = if i > 0 {
                let prev = raws[i - 1];
                if raw > prev {
                    prev
                } else {
                    raw
                }
            } else {
                raw
            };
            proof {
                assert(raw == raw_weight(alpha as int, i as nat));
                assert(w == clamped_weight(alpha as int, i as nat));
            }
            raws.push(w);
            i += 1;
        }
        proof {
            assert(raws@ =~= raw_weight_seq(alpha as int, k as nat));
        }
        // Sum the raw weights.
        let mut total: i128 = 0;
        let mut i2: usize = 0;
        while i2 < k
            invariant
                i2 <= k,
                k <= KCAP_LIMIT,
                raws@.len() == k,
                forall|j: int| 0 <= j < k ==> 0 <= #[trigger] raws@[j] <= SCALE,
                total == sum_fix(raws@.subrange(0, i2 as int)),
                0 <= total <= (i2 as int) * (SCALE as int),
            decreases k - i2,
        {
            proof {
                assert(raws@.subrange(0, i2 + 1).drop_last() =~= raws@.subrange(0, i2 as int));
                assert(sum_fix(raws@.subrange(0, i2 + 1)) == total + raws@[i2 as int]);
                assert(((i2 + 1) as int) * (SCALE as int) == (i2 as int) * (SCALE as int)
                    + SCALE) by (nonlinear_arith)
                {}
            }
            total = total + raws[i2];
            i2 += 1;
        }
        proof {
            assert(raws@.subrange(0, k as int) =~= raws@);
            assert(total == sum_fix(raws@));
            // The first raw weight is exactly SCALE, so the total is positive.
            lemma_ln_fix_one();
            assert(1 * SCALE == SCALE) by (nonlinear_arith)
            {}
            assert(raw_weight(alpha as int, 0) == exp_neg_fix((alpha * 0) / (SCALE as int)));
            assert(alpha * 0 == 0) by (nonlinear_arith)
            {}
            vstd::arithmetic::div_mod::lemma_div_of0(SCALE as int);
            lemma_exp_neg_zero();
            assert(raws@[0] == SCALE);
            lemma_sum_nonneg_ge_element(raws@, 0);
            assert(total >= SCALE);
            assert((i2 as int) * (SCALE as int) <= 10_000 * SCALE) by (nonlinear_arith)
                requires
                    0 <= i2 <= 10_000,
            {}
        }
        // Normalise.
        let mut norms: Vec<i128> = Vec::new();
        let mut snorm: i128 = 0;
        let mut i3: usize = 0;
        while i3 < k
            invariant
                i3 <= k,
                k <= KCAP_LIMIT,
                raws@.len() == k,
                forall|j: int| 0 <= j < k ==> 0 <= #[trigger] raws@[j] <= SCALE,
                SCALE <= total <= 10_000 * SCALE,
                total == sum_fix(raws@),
                norms@.len() == i3,
                forall|j: int| 0 <= j < i3 ==> norms@[j] == ((raws@[j] * SCALE) / (total as int))
                    as i128,
                forall|j: int| 0 <= j < i3 ==> 0 <= #[trigger] norms@[j] <= SCALE,
                snorm == sum_fix(norms@),
                0 <= snorm,
                snorm <= (sum_fix(raws@.subrange(0, i3 as int)) * SCALE) / (total as int),
            decreases k - i3,
        {
            proof {
                assert(raws@[i3 as int] * SCALE <= SCALE * SCALE) by (nonlinear_arith)
                    requires
                        0 <= raws@[i3 as int] <= SCALE,
                        SCALE >= 0,
                {}
                lemma_sum_nonneg_ge_element(raws@, i3 as int);
                assert(raws@[i3 as int] * SCALE <= total * SCALE) by (nonlinear_arith)
                    requires
                        raws@[i3 as int] <= total,
                        SCALE >= 0,
                {}
                lemma_div_is_ordered(raws@[i3 as int] * SCALE, total * SCALE, total as int);
                lemma_div_multiples_vanish(SCALE as int, total as int);
                assert(total * SCALE == SCALE * total) by (nonlinear_arith)
                {}
            }
            let w = mul_div(raws[i3], SCALE, total);
            proof {
                assert(norms@.push(w).drop_last() =~= norms@);
                // Sub-additivity keeps the running normalised sum below the
                // scaled prefix quotient.
                let pref = sum_fix(raws@.subrange(0, i3 as int));
                lemma_sum_prefix_le(raws@, i3 as int);
                assert(raws@.subrange(0, i3 + 1).drop_last() =~= raws@.subrange(0, i3 as int));
                assert(sum_fix(raws@.subrange(0, i3 + 1)) == pref + raws@[i3 as int]);
                assert(0 <= pref * SCALE) by (nonlinear_arith)
                    requires
                        0 <= pref,
                        SCALE >= 0,
                {}
                lemma_div_sum_le(pref * SCALE, raws@[i3 as int] * SCALE, total as int);
                assert(pref * SCALE + raws@[i3 as int] * SCALE == (pref + raws@[i3 as int])
                    * SCALE) by (nonlinear_arith)
                {}
            }
            norms.push(w);
            snorm = snorm + w;
            i3 += 1;
        }
        proof {
            assert(raws@.subrange(0, k as int) =~= raws@);
            assert(snorm <= (total * SCALE) / (total as int));
            lemma_div_multiples_vanish(SCALE as int, total as int);
            assert(total * SCALE == SCALE * total) by (nonlinear_arith)
            {}
            assert(snorm <= SCALE);
            lemma_sum_nonneg_ge_element(norms@, 0);
        }
        // Distribute the rounding deficit onto the first (largest) weight.
        let deficit: i128 = SCALE - snorm;
        let w0: i128 = norms[0] + deficit;
        let mut weights: Vec<i128> = Vec::new();
        weights.push(w0);
        let mut i4: usize = 1;
        while i4 < k
            invariant
                1 <= i4 <= k,
                norms@.len() == k,
                weights@.len() == i4,
                weights@[0] == norms@[0] + deficit,
                forall|j: int| 1 <= j < i4 ==> weights@[j] == norms@[j],
            decreases k - i4,
        {
            let w = norms[i4];
            weights.push(w);
            i4 += 1;
        }
        proof {
            let ghost kw = kernel_weights(alpha as int, k as nat);
            assert(norms@ =~= Seq::new(
                k as nat,
                |i: int| ((clamped_weight(alpha as int, i as nat) * SCALE) / (total as int))
                    as i128,
            ));
            assert(weights@ =~= norms@.update(0, (norms@[0] + SCALE - sum_fix(norms@)) as i128));
            assert(weights@ =~= kw);
            lemma_sum_update_first(norms@, (norms@[0] + SCALE - sum_fix(norms@)) as i128);
            assert(sum_fix(weights@) == SCALE);
            // Monotonicity: normalised weights inherit the raw order, and the
            // first weight only grew.
            assert forall|j: int| 1 <= j < k implies #[trigger] weights@[j] <= weights@[j
                - 1] by {
                assert(raws@[j] <= raws@[j - 1]) by {
                    assert(raws@[j] == clamped_weight(alpha as int, j as nat));
                }
                assert(raws@[j] * SCALE <= raws@[j - 1] * SCALE) by (nonlinear_arith)
                    requires
                        raws@[j] <= raws@[j - 1],
                        SCALE >= 0,
                {}
                lemma_div_is_ordered(raws@[j] * SCALE, raws@[j - 1] * SCALE, total as int);
            }
            assert forall|j: int| 0 <= j < k implies 0 <= #[trigger] weights@[j] <= SCALE by {
                if j == 0 {
                    lemma_sum_nonneg_ge_element(norms@, 0);
                } else {
                    assert(weights@[j] == norms@[j]);
                }
            }
        }
        MemoryKernel { weights, buffer: Vec::new(), capacity: k }
    }

    /// Push a new combined residual and return the accumulated strain: the
    /// dot product of the weights with the buffer, newest value weighted by
    /// the largest weight.
    pub fn push_and_accumulate(&mut self, value: i128) -> (strain: i128)
        requires
            old(self).inv(),
            -VAL_LIMIT <= value <= VAL_LIMIT,
        ensures
            final(self).inv(),
            final(self).spec_weights() == old(self).spec_weights(),
            final(self).cap() == old(self).cap(),
            final(self).contents() == push_evict(old(self).contents(), old(self).cap(), value),
            strain == strain_of(final(self).spec_weights(), final(self).contents()),
            -VAL_LIMIT <= strain <= VAL_LIMIT,
    {
        if self.buffer.len() == self.capacity {
            let ghost pre = self.buffer@;
            self.buffer.remove(0);
            proof {
                assert(self.buffer@ =~= pre.drop_first());
            }
        }
        self.buffer.push(value);
        let n = self.buffer.len();
        let mut acc: i128 = 0;
        let mut i: usize = 0;
        proof {
            assert(sum_fix(self.weights@.subrange(0, 0)) == 0);
            assert(0 * (VAL_LIMIT as int) == 0) by (nonlinear_arith)
            {}
        }
        while i < n
            invariant
                i <= n,
                n == self.buffer@.len(),
                n <= self.weights@.len(),
                self.inv(),
                acc == dot_rev_upto(self.weights@, self.buffer@, i as nat),
                -sum_fix(self.weights@.subrange(0, i as int)) * (VAL_LIMIT as int) <= acc,
                acc <= sum_fix(self.weights@.subrange(0, i as int)) * (VAL_LIMIT as int),
                sum_fix(self.weights@.subrange(0, i as int)) <= SCALE,
            decreases n - i,
        {
            proof {
                lemma_dot_bound(self.weights@, self.buffer@, (i + 1) as nat, VAL_LIMIT as int);
                lemma_sum_prefix_le(self.weights@, i + 1);
                assert(sum_fix(self.weights@.subrange(0, i + 1)) * (VAL_LIMIT as int) <= (
                SCALE as int) * (VAL_LIMIT as int)) by (nonlinear_arith)
                    requires
                        sum_fix(self.weights@.subrange(0, i + 1)) <= SCALE,
                        0 <= sum_fix(self.weights@.subrange(0, i + 1)),
                        VAL_LIMIT >= 0,
                {}
                assert((self.weights@[i as int] as int) * (self.buffer@[n - 1 - i as int] as int)
                    <= (SCALE as int) * (VAL_LIMIT as int)) by (nonlinear_arith)
                    requires
                        0 <= self.weights@[i as int] <= SCALE,
                        -VAL_LIMIT <= self.buffer@[n - 1 - i as int] <= VAL_LIMIT,
                {}
                assert((self.weights@[i as int] as int) * (self.buffer@[n - 1 - i as int] as int)
                    >= -((SCALE as int) * (VAL_LIMIT as int))) by (nonlinear_arith)
                    requires
                        0 <= self.weights@[i as int] <= SCALE,
                        -VAL_LIMIT <= self.buffer@[n - 1 - i as int] <= VAL_LIMIT,
                {}
            }
            let w = self.weights[i];
            let x = self.buffer[n - 1 - i];
            acc = acc + w * x;
            i += 1;
        }
        proof {
            assert(self.weights@.subrange(0, n as int) =~= self.weights@.subrange(0, n as int));
            lemma_sum_prefix_le(self.weights@, n as int);
            assert(acc <= (SCALE as int) * (VAL_LIMIT as int)) by (nonlinear_arith)
                requires
                    acc <= sum_fix(self.weights@.subrange(0, n as int)) * (VAL_LIMIT as int),
                    0 <= sum_fix(self.weights@.subrange(0, n as int)) <= SCALE,
                    VAL_LIMIT >= 0,
            {}
            assert(acc >= -((SCALE as int) * (VAL_LIMIT as int))) by (nonlinear_arith)
                requires
                    -sum_fix(self.weights@.subrange(0, n as int)) * (VAL_LIMIT as int) <= acc,
                    0 <= sum_fix(self.weights@.subrange(0, n as int)) <= SCALE,
                    VAL_LIMIT >= 0,
            {}
            lemma_div_is_ordered(
                if acc >= 0 {
                    acc as int
                } else {
                    -(acc as int)
                },
                (SCALE as int) * (VAL_LIMIT as int),
                SCALE as int,
            );
            lemma_div_multiples_vanish(VAL_LIMIT as int, SCALE as int);
            assert((SCALE as int) * (VAL_LIMIT as int) == (VAL_LIMIT as int) * (SCALE as int))
                by (nonlinear_arith)
            {}
            lemma_div_pos_is_pos(
                if acc >= 0 {
                    acc as int
                } else {
                    -(acc as int)
                },
                SCALE as int,
            );
        }
        if acc >= 0 {
            acc / SCALE
        } else {
            -((-acc) / SCALE)
        }
    }

    /// The normalised weights (largest first).
    pub fn weights(&self) -> (r: &Vec<i128>)
        ensures
            r@ == self.spec_weights(),
    {
        &self.weights
    }
}

} // verus!
