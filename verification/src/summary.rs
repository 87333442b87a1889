//! Aggregate statistics of a finished run, ready for printing.

use vstd::prelude::*;
use crate::state_machine::EventModel;
use crate::types::{EngineOutputRow, RuptureEvent};

verus! {

/// Aggregate counts and extremes of one engine run.
#[derive(Debug)]
pub struct RunSummary {
    pub total_bars: usize,
    pub candidates: usize,
    pub confirmed: usize,
    pub unconfirmed: usize,
    /// Sum of confirmation lags (bars between candidate and confirmation)
    /// over the confirmed events.
    pub lag_sum: u128,
    /// Largest peak severity among confirmed events, when any exist.
    pub max_peak_confirmed: Option<i128>,
    pub stable_bars: usize,
    pub stressed_bars: usize,
    pub critical_bars: usize,
    pub candidate_bars: usize,
    pub confirmed_bars: usize,
    pub recovery_bars: usize,
}

/// How many events were confirmed.
pub open spec fn count_confirmed(evs: Seq<EventModel>) -> int
    decreases evs.len(),
{
    if evs.len() == 0 {
        0
    } else {
        count_confirmed(evs.drop_last()) + if evs.last().confirmed is Some {
            1int
        } else {
            0int
        }
    }
}

/// The confirmation lag of one event model (zero when unconfirmed or out of
/// order).
pub open spec fn lag_of(e: EventModel) -> int {
    match e.confirmed {
        Some(c) => if c.0 >= e.candidate_index {
            c.0 - e.candidate_index
        } else {
            0
        },
        None => 0,
    }
}

/// Total confirmation lag over all events.
pub open spec fn lag_sum_spec(evs: Seq<EventModel>) -> int
    decreases evs.len(),
{
    if evs.len() == 0 {
        0
    } else {
        lag_sum_spec(evs.drop_last()) + lag_of(evs.last())
    }
}

/// The largest peak severity among confirmed events.
pub open spec fn max_peak_spec(evs: Seq<EventModel>) -> Option<int>
    decreases evs.len(),
{
    if evs.len() == 0 {
        None
    } else {
        let rest = max_peak_spec(evs.drop_last());
        if evs.last().confirmed is Some {
            match rest {
                Some(p) => if evs.last().peak_rho > p {
                    Some(evs.last().peak_rho)
                } else {
                    Some(p)
                },
                None => Some(evs.last().peak_rho),
            }
        } else {
            rest
        }
    }
}

/// How many rows carry the given state label.
pub open spec fn count_label(rows: Seq<EngineOutputRow>, lbl: Seq<char>) -> int
    decreases rows.len(),
{
    if rows.len() == 0 {
        0
    } else {
        count_label(rows.drop_last(), lbl) + if rows.last().state@ == lbl {
            1int
        } else {
            0int
        }
    }
}

/// Whether two strings hold the same characters.
fn label_matches(a: &String, b: &String) -> (r: bool)
    ensures
        r == (a@ == b@),
{
    a.eq(b)
}

/// Count the rows carrying a given label.
fn count_rows_with(rows: &Vec<EngineOutputRow>, lbl: &String) -> (r: usize)
    ensures
        r == count_label(rows@, lbl@),
        r <= rows@.len(),
{
    let n = rows.len();
    let mut cnt: usize = 0;
    let mut i: usize = 0;
    while i < n
        invariant
            i <= n,
            n == rows@.len(),
            cnt == count_label(rows@.subrange(0, i as int), lbl@),
            cnt <= i,
        decreases n - i,
    {
        proof {
            assert(rows@.subrange(0, i + 1).drop_last() =~= rows@.subrange(0, i as int));
            assert(rows@.subrange(0, i + 1).last() == rows@[i as int]);
        }
        if label_matches(&rows[i].state, lbl) {
            cnt += 1;
        }
        i += 1;
    }
    proof {
        assert(rows@.subrange(0, n as int) =~= rows@);
    }
    cnt
}

/// Compute the aggregate statistics of one run: event counts, confirmation
/// lag, peak severity, and the distribution of states over the bars.
pub fn compute_summary(rows: &Vec<EngineOutputRow>, events: &Vec<RuptureEvent>) -> (r: RunSummary)
    ensures
        r.total_bars == rows@.len(),
        r.candidates == events@.len(),
        r.confirmed == count_confirmed(events@.map_values(|e: RuptureEvent| e@)),
        r.unconfirmed == r.candidates - r.confirmed,
        r.lag_sum == lag_sum_spec(events@.map_values(|e: RuptureEvent| e@)),
        (match r.max_peak_confirmed {
            Some(p) => max_peak_spec(events@.map_values(|e: RuptureEvent| e@)) == Some(p as int),
            None => max_peak_spec(events@.map_values(|e: RuptureEvent| e@)) is None,
        }),
        r.stable_bars == count_label(rows@, "Stable"@),
        r.stressed_bars == count_label(rows@, "Stressed"@),
        r.critical_bars == count_label(rows@, "Critical"@),
        r.candidate_bars == count_label(rows@, "Candidate"@),
        r.confirmed_bars == count_label(rows@, "Confirmed"@),
        r.recovery_bars == count_label(rows@, "Recovery"@),
{
    let m = events.len();
    let ghost evs = events@.map_values(|e: RuptureEvent| e@);
    let mut confirmed: usize = 0;
    let mut lag_sum: u128 = 0;
    let mut max_peak: Option<i128> = None;
    let mut j: usize = 0;
    while j < m
        invariant
            j <= m,
            m == events@.len(),
            evs == events@.map_values(|e: RuptureEvent| e@),
            confirmed == count_confirmed(evs.subrange(0, j as int)),
            confirmed <= j,
            lag_sum == lag_sum_spec(evs.subrange(0, j as int)),
            lag_sum <= (j as u128) * 0xffff_ffff_ffff_ffffu128,
            (match max_peak {
                Some(p) => max_peak_spec(evs.subrange(0, j as int)) == Some(p as int),
                None => max_peak_spec(evs.subrange(0, j as int)) is None,
            }),
        decreases m - j,
    {
        proof {
            assert(evs.subrange(0, j + 1).drop_last() =~= evs.subrange(0, j as int));
            assert(evs.subrange(0, j + 1).last() == evs[j as int]);
            assert(evs[j as int] == events@[j as int]@);
            assert((j as u128) * 0xffff_ffff_ffff_ffffu128 + 0xffff_ffff_ffff_ffffu128 == ((j
                + 1) as u128) * 0xffff_ffff_ffff_ffffu128) by (nonlinear_arith)
            {}
            assert(((j + 1) as u128) * 0xffff_ffff_ffff_ffffu128 <= u128::MAX)
                by (nonlinear_arith)
                requires
                    0 <= j + 1 <= 0xffff_ffff_ffff_ffffu128,
            {}
        }
        let e = &events[j];
        match (e.confirmed_index, &e.confirmed_timestamp) {
            (Some(ci), Some(_)) => {
                confirmed += 1;
                let lag: usize = if ci >= e.candidate_index {
                    ci - e.candidate_index
                } else {
                    0
                };
                lag_sum = lag_sum + (lag as u128);
                let peak = e.peak_rho;
                max_peak = match max_peak {
                    Some(p) => if peak > p {
                        Some(peak)
                    } else {
                        Some(p)
                    },
                    None => Some(peak),
                };
            },
            _ => {},
        }
        j += 1;
    }
    proof {
        assert(evs.subrange(0, m as int) =~= evs);
    }
    let stable_l = "Stable".to_owned();
    let stressed_l = "Stressed".to_owned();
    let critical_l = "Critical".to_owned();
    let candidate_l = "Candidate".to_owned();
    let confirmed_l = "Confirmed".to_owned();
    let recovery_l = "Recovery".to_owned();
    RunSummary {
        total_bars: rows.len(),
        candidates: m,
        confirmed,
        unconfirmed: m - confirmed,
        lag_sum,
        max_peak_confirmed: max_peak,
        stable_bars: count_rows_with(rows, &stable_l),
        stressed_bars: count_rows_with(rows, &stressed_l),
        critical_bars: count_rows_with(rows, &critical_l),
        candidate_bars: count_rows_with(rows, &candidate_l),
        confirmed_bars: count_rows_with(rows, &confirmed_l),
        recovery_bars: count_rows_with(rows, &recovery_l),
    }
}

} // verus!
