//! Adaptive capacity estimator: a rolling quantile of the strain history,
//! floored at a configured minimum and optionally smoothed exponentially.

use vstd::prelude::*;
use crate::fixed::{SCALE, STAT_LIMIT, VAL_LIMIT};
use crate::quantile::{lemma_quantile_spec_in_range, quantile, quantile_spec};
use crate::rolling_window::{push_evict, RollingWindow};
use vstd::arithmetic::div_mod::{lemma_div_is_ordered, lemma_div_multiples_vanish};

verus! {

/// The raw estimate: the rolling quantile floored at `e_min`.
pub open spec fn e_raw_spec(contents: Seq<i128>, q: int, e_min: int) -> int {
    let qv = quantile_spec(contents, q);
    if qv >= e_min {
        qv
    } else {
        e_min
    }
}

/// Exponential smoothing `(1 - lambda) * prev + lambda * raw` against the
/// previous estimate, when one exists and smoothing is on.
pub open spec fn smoothed_spec(
    prev: Option<i128>,
    smooth: bool,
    lambda: int,
    e_raw: int,
) -> int {
    if smooth {
        match prev {
            Some(p) => ((SCALE - lambda) * p + lambda * e_raw) / (SCALE as int),
            None => e_raw,
        }
    } else {
        e_raw
    }
}

/// The full capacity update: quantile, floor, smoothing, floor again.
pub open spec fn capacity_update_spec(
    contents: Seq<i128>,
    q: int,
    e_min: int,
    prev: Option<i128>,
    smooth: bool,
    lambda: int,
) -> int {
    let e = smoothed_spec(prev, smooth, lambda, e_raw_spec(contents, q, e_min));
    if e >= e_min {
        e
    } else {
        e_min
    }
}

/// Adaptive capacity estimator over a rolling window of strain values.
pub struct CapacityEstimator {
    window: RollingWindow,
    q: i128,
    smooth: bool,
    lambda: i128,
    e_min: i128,
    prev_e: Option<i128>,
}

impl CapacityEstimator {
    /// The buffered strain values, oldest first.
    pub closed spec fn contents(&self) -> Seq<i128> {
        self.window@
    }

    /// The window length `L`.
    pub closed spec fn cap_l(&self) -> int {
        self.window.cap()
    }

    /// The configured quantile.
    pub closed spec fn spec_q(&self) -> int {
        self.q as int
    }

    /// Whether smoothing is enabled.
    pub closed spec fn spec_smooth(&self) -> bool {
        self.smooth
    }

    /// The smoothing weight.
    pub closed spec fn spec_lambda(&self) -> int {
        self.lambda as int
    }

    /// The capacity floor.
    pub closed spec fn spec_e_min(&self) -> int {
        self.e_min as int
    }

    /// The previous estimate, if any.
    pub closed spec fn spec_prev(&self) -> Option<i128> {
        self.prev_e
    }

    /// Structural invariant.
    pub closed spec fn inv(&self) -> bool {
        &&& self.window.inv()
        &&& 0 <= self.lambda <= SCALE
        &&& 0 <= self.e_min <= VAL_LIMIT
        &&& match self.prev_e {
            Some(p) => self.e_min <= p <= VAL_LIMIT,
            None => true,
        }
    }

    /// Create an estimator over a window of length `window_l`.
    pub fn new(window_l: usize, q: i128, smooth: bool, lambda: i128, e_min: i128) -> (r:
        CapacityEstimator)
        requires
            1 <= window_l,
            0 <= lambda <= SCALE,
            0 <= e_min <= VAL_LIMIT,
        ensures
            r.inv(),
            r.contents() == Seq::<i128>::empty(),
            r.cap_l() == window_l,
            r.spec_q() == q,
            r.spec_smooth() == smooth,
            r.spec_lambda() == lambda,
            r.spec_e_min() == e_min,
            r.spec_prev() is None,
    {
        CapacityEstimator {
            window: RollingWindow::new(window_l),
            q,
            smooth,
            lambda,
            e_min,
            prev_e: None,
        }
    }

    /// Update the estimate with a new strain value and return the capacity,
    /// which is always at least `e_min`.
    pub fn update(&mut self, strain: i128) -> (e: i128)
        requires
            old(self).inv(),
            -VAL_LIMIT <= strain <= VAL_LIMIT,
        ensures
            final(self).inv(),
            final(self).cap_l() == old(self).cap_l(),
            final(self).spec_q() == old(self).spec_q(),
            final(self).spec_smooth() == old(self).spec_smooth(),
            final(self).spec_lambda() == old(self).spec_lambda(),
            final(self).spec_e_min() == old(self).spec_e_min(),
            final(self).contents() == push_evict(old(self).contents(), old(self).cap_l(), strain),
            e == capacity_update_spec(
                final(self).contents(),
                old(self).spec_q(),
                old(self).spec_e_min(),
                old(self).spec_prev(),
                old(self).spec_smooth(),
                old(self).spec_lambda(),
            ),
            final(self).spec_prev() == Some(e),
            old(self).spec_e_min() <= e <= VAL_LIMIT,
    {
        self.window.push(strain);
        let snapshot = self.window.as_slice();
        proof {
            assert(crate::sorting::bounded_by(snapshot@, STAT_LIMIT as int));
            lemma_quantile_spec_in_range(
                snapshot@,
                self.q as int,
                -(VAL_LIMIT as int),
                VAL_LIMIT as int,
            );
        }
        let qv = quantile(&snapshot, self.q);
        let e_raw: i128 = if qv >= self.e_min {
            qv
        } else {
            self.e_min
        };
        let e_smooth: i128 = if self.smooth {
            match self.prev_e {
                Some(p) => {
                    proof {
                        assert(0 <= (SCALE - self.lambda) * p) by (nonlinear_arith)
                            requires
                                0 <= SCALE - self.lambda,
                                0 <= p,
                        {}
                        assert((SCALE - self.lambda) * p <= (SCALE - self.lambda) * VAL_LIMIT)
                            by (nonlinear_arith)
                            requires
                                0 <= SCALE - self.lambda,
                                0 <= p <= VAL_LIMIT,
                        {}
                        assert(0 <= self.lambda * e_raw) by (nonlinear_arith)
                            requires
                                0 <= self.lambda,
                                0 <= e_raw,
                        {}
                        assert(self.lambda * e_raw <= self.lambda * VAL_LIMIT)
                            by (nonlinear_arith)
                            requires
                                0 <= self.lambda,
                                0 <= e_raw <= VAL_LIMIT,
                        {}
                        assert((SCALE - self.lambda) * VAL_LIMIT + self.lambda * VAL_LIMIT
                            == (SCALE as int) * (VAL_LIMIT as int)) by (nonlinear_arith)
                        {}
                    }
                    let num: i128 = (SCALE - self.lambda) * p + self.lambda * e_raw;
                    proof {
                        lemma_div_is_ordered(
                            num as int,
                            (SCALE as int) * (VAL_LIMIT as int),
                            SCALE as int,
                        );
                        lemma_div_multiples_vanish(VAL_LIMIT as int, SCALE as int);
                        assert((SCALE as int) * (VAL_LIMIT as int) == (VAL_LIMIT as int) * (
                        SCALE as int)) by (nonlinear_arith)
                        {}
                        vstd::arithmetic::div_mod::lemma_div_pos_is_pos(num as int, SCALE as int);
                    }
                    num / SCALE
                },
                None => e_raw,
            }
        } else {
            e_raw
        };
        let e: i128 = if e_smooth >= self.e_min {
            e_smooth
        } else {
            self.e_min
        };
        self.prev_e = Some(e);
        e
    }
}

} // verus!
