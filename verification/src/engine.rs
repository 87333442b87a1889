//! The full per-bar pipeline: features, residuals, combiner, memory kernel,
//! capacity estimator, state machine — one output row per bar plus the event
//! log.
//!
//! Every intermediate stream has a closed-form specification indexed by bar,
//! and `run_engine` is proved to emit exactly those values.

use vstd::prelude::*;
use crate::capacity::{capacity_update_spec, CapacityEstimator};
use crate::combine::{combine_spec, soft_max_combine, TAU_LIMIT};
use crate::config::Config;
use crate::features::{a_at, accel_at, bars_bounded, closes_of, compute_acceleration,
    compute_normed, compute_returns, return_at, u_at, v_at, volumes_of, win_after,
    MAD_SCALE_LIMIT};
use crate::fixed::{safe_div, spec_safe_div, SCALE, VAL_LIMIT};
use crate::memory::{kernel_weights, lemma_strain_nonneg, strain_of, MemoryKernel, ALPHA_LIMIT,
    KCAP_LIMIT};
use crate::residuals::{channel_residual, compute_residuals, liquidity_input};
use crate::state_machine::{sm_init, sm_step, SmModel, StateMachine};
use crate::types::{state_label, Bar, EngineOutputRow, RuptureEvent};

verus! {

/// Ranges the engine accepts: window lengths at least one and within the
/// kernel capacity limit, and every numeric parameter inside the bounds the
/// fixed-point arithmetic supports.
pub open spec fn engine_config_ok(c: Config) -> bool {
    &&& 1 <= c.windows.robust_scale_n
    &&& 1 <= c.windows.memory_k <= KCAP_LIMIT
    &&& 1 <= c.windows.capacity_l
    &&& 0 < c.memory.alpha <= ALPHA_LIMIT
    &&& 0 <= c.robust.mad_scale_factor <= MAD_SCALE_LIMIT
    &&& 0 <= c.numerics.eps <= VAL_LIMIT
    &&& 0 <= c.numerics.residual_clip_max <= VAL_LIMIT
    &&& 0 <= c.residuals.theta_vol <= VAL_LIMIT
    &&& 0 <= c.residuals.theta_liq <= VAL_LIMIT
    &&& 0 <= c.residuals.theta_acc <= VAL_LIMIT
    &&& 1 <= c.combine.tau <= TAU_LIMIT
    &&& 0 <= c.capacity.lambda <= SCALE
    &&& 0 <= c.capacity.e_min <= VAL_LIMIT
    &&& 1 <= c.state_machine.confirm_k
    &&& 1 <= c.state_machine.recovery_hold
}

/// The stream of per-bar returns.
pub open spec fn rets_spec(bars: Seq<Bar>, use_log: bool) -> Seq<i128> {
    Seq::new(bars.len(), |i: int| return_at(closes_of(bars), i, use_log) as i128)
}

/// The stream of per-bar accelerations.
pub open spec fn accels_spec(bars: Seq<Bar>, use_log: bool) -> Seq<i128> {
    Seq::new(bars.len(), |i: int| accel_at(rets_spec(bars, use_log), i) as i128)
}

/// Normalised absolute return at bar `i`.
pub open spec fn u_spec(bars: Seq<Bar>, c: Config, i: int) -> int {
    u_at(
        rets_spec(bars, c.features.use_log_returns),
        i,
        c.windows.robust_scale_n as int,
        c.robust.mad_scale_factor as int,
        c.numerics.eps as int,
    )
}

/// Normalised volume at bar `i`.
pub open spec fn v_spec(bars: Seq<Bar>, c: Config, i: int) -> int {
    v_at(volumes_of(bars), i, c.windows.robust_scale_n as int, c.numerics.eps as int)
}

/// Normalised absolute acceleration at bar `i`.
pub open spec fn a_spec(bars: Seq<Bar>, c: Config, i: int) -> int {
    a_at(
        accels_spec(bars, c.features.use_log_returns),
        i,
        c.windows.robust_scale_n as int,
        c.robust.mad_scale_factor as int,
        c.numerics.eps as int,
    )
}

/// Volatility channel residual at bar `i`.
pub open spec fn r_vol_at(bars: Seq<Bar>, c: Config, i: int) -> int {
    channel_residual(
        u_spec(bars, c, i),
        c.residuals.theta_vol as int,
        c.numerics.clip_residuals,
        c.numerics.residual_clip_max as int,
    )
}

/// Liquidity channel residual at bar `i`.
pub open spec fn r_liq_at(bars: Seq<Bar>, c: Config, i: int) -> int {
    channel_residual(
        liquidity_input(u_spec(bars, c, i), v_spec(bars, c, i), c.numerics.eps as int),
        c.residuals.theta_liq as int,
        c.numerics.clip_residuals,
        c.numerics.residual_clip_max as int,
    )
}

/// Acceleration channel residual at bar `i`.
pub open spec fn r_acc_at(bars: Seq<Bar>, c: Config, i: int) -> int {
    channel_residual(
        a_spec(bars, c, i),
        c.residuals.theta_acc as int,
        c.numerics.clip_residuals,
        c.numerics.residual_clip_max as int,
    )
}

/// Combined residual at bar `i`.
pub open spec fn combined_at(bars: Seq<Bar>, c: Config, i: int) -> int {
    combine_spec(r_vol_at(bars, c, i), r_liq_at(bars, c, i), r_acc_at(bars, c, i), c.combine.tau
        as int)
}

/// The stream of combined residuals.
pub open spec fn combined_seq(bars: Seq<Bar>, c: Config) -> Seq<i128> {
    Seq::new(bars.len(), |i: int| combined_at(bars, c, i) as i128)
}

/// Strain at bar `i`: the kernel weights folded over the most recent
/// combined residuals.
pub open spec fn strain_at(bars: Seq<Bar>, c: Config, i: int) -> int {
    strain_of(
        kernel_weights(c.memory.alpha as int, c.windows.memory_k as nat),
        win_after(combined_seq(bars, c), i + 1, c.windows.memory_k as int),
    )
}

/// The stream of strain values.
pub open spec fn strains_spec(bars: Seq<Bar>, c: Config) -> Seq<i128> {
    Seq::new(bars.len(), |i: int| strain_at(bars, c, i) as i128)
}

/// Capacity at bar `i`, following the estimator's smoothing recursion.
pub open spec fn cap_at(bars: Seq<Bar>, c: Config, i: int) -> int
    decreases i,
{
    capacity_update_spec(
        win_after(strains_spec(bars, c), i + 1, c.windows.capacity_l as int),
        c.capacity.q as int,
        c.capacity.e_min as int,
        if i <= 0 {
            None
        } else {
            Some(cap_at(bars, c, i - 1) as i128)
        },
        c.capacity.smooth,
        c.capacity.lambda as int,
    )
}

/// Severity ratio at bar `i`.
pub open spec fn rho_at(bars: Seq<Bar>, c: Config, i: int) -> int {
    spec_safe_div(strain_at(bars, c, i), cap_at(bars, c, i) + c.numerics.eps)
}

/// The state machine model after processing the first `i` bars.
pub open spec fn machine_after(bars: Seq<Bar>, c: Config, i: int) -> SmModel
    decreases i,
{
    if i <= 0 {
        sm_init()
    } else {
        sm_step(
            c.state_machine,
            machine_after(bars, c, i - 1),
            i - 1,
            bars[i - 1].ts@,
            rho_at(bars, c, i - 1),
        ).0
    }
}

/// The machine transition taken at bar `i`.
pub open spec fn bar_step(bars: Seq<Bar>, c: Config, i: int) -> (SmModel, crate::types::RuptureState, bool, bool) {
    sm_step(c.state_machine, machine_after(bars, c, i), i, bars[i].ts@, rho_at(bars, c, i))
}

/// Clone one event record.
fn clone_event(e: &RuptureEvent) -> (r: RuptureEvent)
    ensures
        r@ == e@,
{
    RuptureEvent {
        candidate_index: e.candidate_index,
        candidate_timestamp: e.candidate_timestamp.clone(),
        confirmed_index: e.confirmed_index,
        confirmed_timestamp: match &e.confirmed_timestamp {
            Some(t) => Some(t.clone()),
            None => None,
        },
        peak_rho: e.peak_rho,
        confirmation_k: e.confirmation_k,
        confirmation_m: e.confirmation_m,
    }
}

/// Run the full engine pipeline on a sequence of bars and return the
/// per-bar output rows and the event log.
#[verifier::rlimit(100)]
pub fn run_engine(bars: &Vec<Bar>, config: &Config) -> (out: (
    Vec<EngineOutputRow>,
    Vec<RuptureEvent>,
))
    requires
        bars_bounded(bars@),
        engine_config_ok(*config),
    ensures
        out.0@.len() == bars@.len(),
        forall|i: int| 0 <= i < bars@.len() ==> {
            let row = #[trigger] out.0@[i];
            &&& row.timestamp@ == bars@[i].ts@
            &&& row.close == bars@[i].close
            &&& row.volume == bars@[i].volume
            &&& row.r_vol == r_vol_at(bars@, *config, i)
            &&& row.r_liq == r_liq_at(bars@, *config, i)
            &&& row.r_acc == r_acc_at(bars@, *config, i)
            &&& row.r_combined == combined_at(bars@, *config, i)
            &&& row.strain == strain_at(bars@, *config, i)
            &&& row.capacity == cap_at(bars@, *config, i)
            &&& row.rho == rho_at(bars@, *config, i)
            &&& row.state@ == state_label(bar_step(bars@, *config, i).1)
            &&& row.candidate_flag == bar_step(bars@, *config, i).2
            &&& row.confirmed_flag == bar_step(bars@, *config, i).3
        },
        out.1@.map_values(|e: RuptureEvent| e@) == machine_after(
            bars@,
            *config,
            bars@.len() as int,
        ).events,
{
    let ghost c = *config;
    let rets = compute_returns(bars, config.features.use_log_returns);
    let accel = compute_acceleration(&rets);
    proof {
        assert(rets@ =~= rets_spec(bars@, c.features.use_log_returns));
        assert(accel@ =~= accels_spec(bars@, c.features.use_log_returns));
    }
    let normed = compute_normed(
        bars,
        &rets,
        &accel,
        config.windows.robust_scale_n,
        config.robust.mad_scale_factor,
        config.numerics.eps,
    );
    let mut memory = MemoryKernel::new(config.windows.memory_k, config.memory.alpha);
    let mut capacity = CapacityEstimator::new(
        config.windows.capacity_l,
        config.capacity.q,
        config.capacity.smooth,
        config.capacity.lambda,
        config.capacity.e_min,
    );
    let mut state_machine = StateMachine::new(config.state_machine.clone());
    let mut rows: Vec<EngineOutputRow> = Vec::new();
    let n = bars.len();
    let mut i: usize = 0;
    proof {
        assert(memory.contents() =~= win_after(combined_seq(bars@, c), 0, c.windows.memory_k
            as int));
        assert(capacity.contents() =~= win_after(
            strains_spec(bars@, c),
            0,
            c.windows.capacity_l as int,
        ));
    }
    while i < n
        invariant
            i <= n,
            n == bars@.len(),
            bars_bounded(bars@),
            engine_config_ok(c),
            c == *config,
            rets@ == rets_spec(bars@, c.features.use_log_returns),
            accel@ == accels_spec(bars@, c.features.use_log_returns),
            rets@.len() == n,
            accel@.len() == n,
            normed@.len() == n,
            forall|j: int|
                #![trigger normed@[j]]
                0 <= j < n ==> normed@[j].u == u_spec(bars@, c, j) && normed@[j].v == v_spec(
                    bars@,
                    c,
                    j,
                ) && normed@[j].a == a_spec(bars@, c, j),
            forall|j: int|
                #![trigger normed@[j]]
                0 <= j < n ==> 0 <= normed@[j].u <= VAL_LIMIT && 0 <= normed@[j].v <= VAL_LIMIT
                    && 0 <= normed@[j].a <= VAL_LIMIT,
            memory.inv(),
            memory.cap() == c.windows.memory_k,
            memory.spec_weights() == kernel_weights(
                c.memory.alpha as int,
                c.windows.memory_k as nat,
            ),
            memory.contents() == win_after(
                combined_seq(bars@, c),
                i as int,
                c.windows.memory_k as int,
            ),
            capacity.inv(),
            capacity.cap_l() == c.windows.capacity_l,
            capacity.spec_q() == c.capacity.q,
            capacity.spec_smooth() == c.capacity.smooth,
            capacity.spec_lambda() == c.capacity.lambda,
            capacity.spec_e_min() == c.capacity.e_min,
            capacity.contents() == win_after(
                strains_spec(bars@, c),
                i as int,
                c.windows.capacity_l as int,
            ),
            capacity.spec_prev() == (if i == 0 {
                None
            } else {
                Some(cap_at(bars@, c, i as int - 1) as i128)
            }),
            state_machine.inv(),
            state_machine.spec_cfg() == c.state_machine,
            state_machine@ == machine_after(bars@, c, i as int),
            rows@.len() == i,
            forall|j: int| 0 <= j < i ==> {
                let row = #[trigger] rows@[j];
                &&& row.timestamp@ == bars@[j].ts@
                &&& row.close == bars@[j].close
                &&& row.volume == bars@[j].volume
                &&& row.r_vol == r_vol_at(bars@, c, j)
                &&& row.r_liq == r_liq_at(bars@, c, j)
                &&& row.r_acc == r_acc_at(bars@, c, j)
                &&& row.r_combined == combined_at(bars@, c, j)
                &&& row.strain == strain_at(bars@, c, j)
                &&& row.capacity == cap_at(bars@, c, j)
                &&& row.rho == rho_at(bars@, c, j)
                &&& row.state@ == state_label(bar_step(bars@, c, j).1)
                &&& row.candidate_flag == bar_step(bars@, c, j).2
                &&& row.confirmed_flag == bar_step(bars@, c, j).3
            },
        decreases n - i,
    {
        let mut res = compute_residuals(&normed[i], &config.residuals, &config.numerics);
        proof {
            assert(res.r_vol == r_vol_at(bars@, c, i as int));
            assert(res.r_liq == r_liq_at(bars@, c, i as int));
            assert(res.r_acc == r_acc_at(bars@, c, i as int));
        }
        let combined = soft_max_combine(res.r_vol, res.r_liq, res.r_acc, config.combine.tau);
        res.r = combined;
        proof {
            assert(combined == combined_at(bars@, c, i as int));
            assert(combined == combined_seq(bars@, c)[i as int]);
            crate::features::lemma_win_after_push(
                combined_seq(bars@, c),
                i as int,
                c.windows.memory_k as int,
            );
        }
        let strain = memory.push_and_accumulate(combined);
        proof {
            assert(memory.contents() == win_after(
                combined_seq(bars@, c),
                i as int + 1,
                c.windows.memory_k as int,
            ));
            assert(strain == strain_at(bars@, c, i as int));
            assert forall|p: int|
                0 <= p < combined_seq(bars@, c).len() implies 0 <= #[trigger] combined_seq(
                bars@,
                c,
            )[p] by {
                assert(combined_seq(bars@, c)[p] == combined_at(bars@, c, p) as i128);
            }
            lemma_strain_nonneg(memory.spec_weights(), memory.contents());
            assert(strain == strains_spec(bars@, c)[i as int]);
            crate::features::lemma_win_after_push(
                strains_spec(bars@, c),
                i as int,
                c.windows.capacity_l as int,
            );
        }
        let cap = capacity.update(strain);
        proof {
            assert(capacity.contents() == win_after(
                strains_spec(bars@, c),
                i as int + 1,
                c.windows.capacity_l as int,
            ));
            assert(cap == cap_at(bars@, c, i as int));
        }
        let rho = safe_div(strain, cap, config.numerics.eps);
        proof {
            assert(rho == rho_at(bars@, c, i as int));
        }
        let bar = &bars[i];
        let (state, candidate_flag, confirmed_flag) = state_machine.update(
            i,
            bar.ts.as_str(),
            rho,
        );
        proof {
            assert(state_machine@ == machine_after(bars@, c, i as int + 1));
        }
        let row = EngineOutputRow {
            timestamp: bar.ts.clone(),
            close: bar.close,
            volume: bar.volume,
            r_vol: res.r_vol,
            r_liq: res.r_liq,
            r_acc: res.r_acc,
            r_combined: res.r,
            strain,
            capacity: cap,
            rho,
            state: state.label(),
            candidate_flag,
            confirmed_flag,
        };
        rows.push(row);
        i += 1;
    }
    let machine_events = state_machine.events();
    let m = machine_events.len();
    let mut events: Vec<RuptureEvent> = Vec::new();
    let mut j: usize = 0;
    while j < m
        invariant
            j <= m,
            m == machine_events@.len(),
            events@.len() == j,
            forall|p: int| 0 <= p < j ==> #[trigger] events@[p]@ == machine_events@[p]@,
        decreases m - j,
    {
        let e = clone_event(&machine_events[j]);
        events.push(e);
        j += 1;
    }
    proof {
        assert(events@.map_values(|e: RuptureEvent| e@) =~= machine_events@.map_values(
            |e: RuptureEvent| e@,
        ));
        assert(state_machine@ == machine_after(bars@, c, n as int));
    }
    (rows, events)
}

} // verus!
