use rupture_engine::capacity::CapacityEstimator;
use rupture_engine::config::{CapacityConfig, CombineConfig, Config, FeaturesConfig, IoConfig,
    MemoryConfig, NumericsConfig, OutputsConfig, PreprocessConfig, ResidualsConfig, RobustConfig,
    StateMachineConfig, WindowsConfig};
use rupture_engine::diagnostics::{count_large_gaps, count_zero_volume};
use rupture_engine::engine::run_engine;
use rupture_engine::error::RuptureError;
use rupture_engine::features::{compute_acceleration, compute_returns};
use rupture_engine::fixed::{safe_div, SCALE};
use rupture_engine::memory::MemoryKernel;
use rupture_engine::preprocess::{clean_bars, validate_bars};
use rupture_engine::state_machine::StateMachine;
use rupture_engine::summary::compute_summary;
use rupture_engine::types::{Bar, RuptureState};

fn fx(x: f64) -> i128 {
    (x * (SCALE as f64)).round() as i128
}

fn bar(ts: &str, close: f64, volume: f64) -> Bar {
    Bar {
        ts: ts.to_string(),
        open: fx(close),
        high: fx(close),
        low: fx(close),
        close: fx(close),
        volume: fx(volume),
    }
}

fn make_config() -> Config {
    Config {
        io: IoConfig {
            timestamp_column: "timestamp".to_string(),
            open_column: "open".to_string(),
            high_column: "high".to_string(),
            low_column: "low".to_string(),
            close_column: "close".to_string(),
            volume_column: "volume".to_string(),
            parse_timestamps: false,
            drop_invalid_rows: true,
            sort_by_timestamp: true,
        },
        preprocess: PreprocessConfig {
            require_positive_close: true,
            allow_zero_volume: false,
            min_rows: 1,
        },
        numerics: NumericsConfig {
            eps: fx(1e-9),
            clip_residuals: true,
            residual_clip_max: fx(50.0),
        },
        windows: WindowsConfig { robust_scale_n: 3, memory_k: 10, capacity_l: 50 },
        features: FeaturesConfig { use_log_returns: true },
        robust: RobustConfig { mad_scale_factor: fx(1.4826), use_volume_median: true },
        residuals: ResidualsConfig {
            theta_vol: fx(100.0),
            theta_liq: fx(100.0),
            theta_acc: fx(100.0),
        },
        combine: CombineConfig { tau: fx(0.35) },
        memory: MemoryConfig { alpha: fx(0.5) },
        capacity: CapacityConfig { q: fx(0.8), smooth: false, lambda: fx(0.1), e_min: fx(1.0) },
        state_machine: StateMachineConfig {
            rho_stressed: fx(0.60),
            rho_critical: fx(0.85),
            rho_rupture: fx(1.00),
            confirm_k: 3,
            confirm_m: 2,
            enable_recovery: true,
            recovery_hold: 2,
        },
        outputs: OutputsConfig {
            write_csv_timeseries: true,
            csv_timeseries_name: "timeseries.csv".to_string(),
            write_json_events: true,
            json_events_name: "events.json".to_string(),
            write_json_config_snapshot: false,
            json_config_snapshot_name: "config.json".to_string(),
        },
    }
}

#[test]
fn test_engine_quiet_series_stays_stable() {
    let bars: Vec<Bar> = (0..6).map(|i| bar(&format!("t{}", i), 100.0, 1000.0)).collect();
    let config = make_config();
    let (rows, events) = run_engine(&bars, &config);
    assert_eq!(rows.len(), 6);
    assert!(events.is_empty());
    for (i, row) in rows.iter().enumerate() {
        assert_eq!(row.timestamp, format!("t{}", i));
        assert_eq!(row.close, fx(100.0));
        assert_eq!(row.volume, fx(1000.0));
        // Constant prices: every channel residual is zero, the combined
        // residual is tau * ln 3.
        assert_eq!(row.r_vol, 0);
        assert_eq!(row.r_liq, 0);
        assert_eq!(row.r_acc, 0);
        let expected_combined = 0.35 * (3.0f64).ln();
        assert!((row.r_combined as f64 / SCALE as f64 - expected_combined).abs() < 1e-9);
        // Strain stays below the capacity floor of 1.0, so rho stays small.
        assert!(row.capacity >= fx(1.0));
        assert!(row.rho >= 0);
        assert!(row.rho < fx(0.6));
        assert_eq!(row.state, "Stable");
        assert!(!row.candidate_flag);
        assert!(!row.confirmed_flag);
    }
}

#[test]
fn test_returns_percent_change_exact() {
    let bars = vec![bar("t0", 100.0, 1.0), bar("t1", 110.0, 1.0)];
    let rets = compute_returns(&bars, false);
    assert_eq!(rets, vec![0, fx(0.1)]);
}

#[test]
fn test_returns_log_known_value() {
    let e = std::f64::consts::E;
    let bars = vec![bar("t0", 1.0, 1.0), bar("t1", e, 1.0)];
    let rets = compute_returns(&bars, true);
    assert_eq!(rets[0], 0);
    assert!((rets[1] as f64 / SCALE as f64 - 1.0).abs() < 1e-9);
}

#[test]
fn test_acceleration_is_return_difference() {
    let rets = vec![0, fx(0.1), fx(0.3), fx(0.2)];
    let accel = compute_acceleration(&rets);
    assert_eq!(accel, vec![0, fx(0.1), fx(0.2), fx(-0.1)]);
}

#[test]
fn test_config_validate_accepts_defaults() {
    let config = make_config();
    assert!(config.validate().is_ok());
}

#[test]
fn test_config_validate_rejects_alpha() {
    let mut config = make_config();
    config.memory.alpha = fx(1.5);
    match config.validate() {
        Err(RuptureError::Config(m)) => {
            assert_eq!(m, "memory.alpha must be in the open interval (0, 1)")
        },
        other => panic!("expected a config error, got {:?}", other),
    }
}

#[test]
fn test_config_validate_rejects_small_windows() {
    let mut config = make_config();
    config.windows.memory_k = 5;
    match config.validate() {
        Err(RuptureError::Config(m)) => assert_eq!(m, "windows.memory_k must be at least 10"),
        other => panic!("expected a config error, got {:?}", other),
    }
    let mut config = make_config();
    config.windows.capacity_l = 10;
    match config.validate() {
        Err(RuptureError::Config(m)) => assert_eq!(m, "windows.capacity_l must be at least 50"),
        other => panic!("expected a config error, got {:?}", other),
    }
}

#[test]
fn test_config_validate_rejects_confirmation_window() {
    let mut config = make_config();
    config.state_machine.confirm_k = 4;
    match config.validate() {
        Err(RuptureError::Config(m)) => {
            assert_eq!(m, "state_machine.confirm_k must be 1, 2, or 3")
        },
        other => panic!("expected a config error, got {:?}", other),
    }
    let mut config = make_config();
    config.state_machine.confirm_m = 4;
    match config.validate() {
        Err(RuptureError::Config(m)) => {
            assert_eq!(m, "state_machine.confirm_m must satisfy 1 <= m <= k")
        },
        other => panic!("expected a config error, got {:?}", other),
    }
}

#[test]
fn test_config_validate_rejects_quantile_and_tau() {
    let mut config = make_config();
    config.capacity.q = fx(1.0);
    match config.validate() {
        Err(RuptureError::Config(m)) => {
            assert_eq!(m, "capacity.q must be in the open interval (0, 1)")
        },
        other => panic!("expected a config error, got {:?}", other),
    }
    let mut config = make_config();
    config.combine.tau = 0;
    match config.validate() {
        Err(RuptureError::Config(m)) => assert_eq!(m, "combine.tau must be positive"),
        other => panic!("expected a config error, got {:?}", other),
    }
}

#[test]
fn test_validate_bars_empty() {
    let config = make_config();
    let bars: Vec<Bar> = vec![];
    match validate_bars(&bars, &config.preprocess, &config.windows) {
        Err(RuptureError::EmptyData(_)) => {},
        other => panic!("expected an empty-data error, got {:?}", other),
    }
}

#[test]
fn test_validate_bars_too_few_rows() {
    let config = make_config();
    let bars: Vec<Bar> = (0..10).map(|i| bar(&format!("t{}", i), 100.0, 1.0)).collect();
    // capacity_l = 50 dominates the requirement.
    match validate_bars(&bars, &config.preprocess, &config.windows) {
        Err(RuptureError::Validation(_)) => {},
        other => panic!("expected a validation error, got {:?}", other),
    }
}

#[test]
fn test_validate_bars_rejects_bad_rows() {
    let mut config = make_config();
    config.windows = WindowsConfig { robust_scale_n: 1, memory_k: 1, capacity_l: 1 };
    config.preprocess.min_rows = 1;
    let mut bars: Vec<Bar> = (0..3).map(|i| bar(&format!("t{}", i), 100.0, 1.0)).collect();
    bars[1].close = fx(-1.0);
    assert!(matches!(
        validate_bars(&bars, &config.preprocess, &config.windows),
        Err(RuptureError::Validation(_))
    ));
    let mut bars: Vec<Bar> = (0..3).map(|i| bar(&format!("t{}", i), 100.0, 1.0)).collect();
    bars[2].volume = 0;
    assert!(matches!(
        validate_bars(&bars, &config.preprocess, &config.windows),
        Err(RuptureError::Validation(_))
    ));
    let bars: Vec<Bar> = (0..3).map(|i| bar(&format!("t{}", i), 100.0, 1.0)).collect();
    assert!(validate_bars(&bars, &config.preprocess, &config.windows).is_ok());
}

#[test]
fn test_clean_bars_sorts_dedups_and_filters() {
    let mut b_dup = bar("a", 101.0, 2.0);
    b_dup.volume = fx(9.0);
    let bars = vec![bar("b", 100.0, 1.0), bar("a", 101.0, 2.0), b_dup, bar("c", -5.0, 3.0)];
    let cleaned = clean_bars(bars, true);
    // Sorted by timestamp, the duplicate "a" keeps its first occurrence, and
    // the non-positive close "c" is dropped.
    assert_eq!(cleaned.len(), 2);
    assert_eq!(cleaned[0].ts, "a");
    assert_eq!(cleaned[0].volume, fx(2.0));
    assert_eq!(cleaned[1].ts, "b");
}

#[test]
fn test_clean_bars_without_sort_keeps_order() {
    let bars = vec![bar("b", 100.0, 1.0), bar("a", 101.0, 2.0)];
    let cleaned = clean_bars(bars, false);
    assert_eq!(cleaned.len(), 2);
    assert_eq!(cleaned[0].ts, "b");
    assert_eq!(cleaned[1].ts, "a");
}

#[test]
fn test_summary_counts_states_and_events() {
    let bars: Vec<Bar> = (0..6).map(|i| bar(&format!("t{}", i), 100.0, 1000.0)).collect();
    let config = make_config();
    let (rows, events) = run_engine(&bars, &config);
    let summary = compute_summary(&rows, &events);
    assert_eq!(summary.total_bars, 6);
    assert_eq!(summary.stable_bars, 6);
    assert_eq!(summary.stressed_bars, 0);
    assert_eq!(summary.candidates, 0);
    assert_eq!(summary.confirmed, 0);
    assert_eq!(summary.unconfirmed, 0);
    assert!(summary.max_peak_confirmed.is_none());
}

#[test]
fn test_diagnostics_counts() {
    let bars = vec![
        bar("t0", 100.0, 0.0),
        bar("t1", 130.0, 1.0),
        bar("t2", 104.0, 1.0),
        bar("t3", 83.0, 0.0),
    ];
    assert_eq!(count_zero_volume(&bars), 2);
    // 100 -> 130 is +30%, 130 -> 104 is -20% exactly (not a gap), 104 -> 83
    // is just over -20%.
    assert_eq!(count_large_gaps(&bars), 2);
}

#[test]
fn test_engine_columns_consistent_with_components() {
    // Replay the engine's own output columns through the public components:
    // the strain column must equal a fresh kernel fed the combined residuals,
    // the capacity column a fresh estimator fed the strain column, rho the
    // safe division, and the state column a fresh state machine fed rho.
    let closes = [100.0, 101.0, 99.5, 103.0, 96.0, 104.0, 95.0, 110.0, 90.0, 115.0];
    let volumes = [1000.0, 1200.0, 800.0, 2500.0, 400.0, 3000.0, 350.0, 5000.0, 300.0, 6000.0];
    let bars: Vec<Bar> = closes
        .iter()
        .zip(volumes.iter())
        .enumerate()
        .map(|(i, (&c, &v))| bar(&format!("t{}", i), c, v))
        .collect();
    let mut config = make_config();
    config.residuals = ResidualsConfig {
        theta_vol: fx(0.5),
        theta_liq: fx(0.5),
        theta_acc: fx(0.5),
    };
    config.windows = WindowsConfig { robust_scale_n: 3, memory_k: 4, capacity_l: 3 };
    config.capacity.e_min = fx(0.1);
    config.capacity.smooth = true;

    let (rows, events) = run_engine(&bars, &config);
    assert_eq!(rows.len(), bars.len());

    let mut kernel = MemoryKernel::new(config.windows.memory_k, config.memory.alpha);
    let mut estimator = CapacityEstimator::new(
        config.windows.capacity_l,
        config.capacity.q,
        config.capacity.smooth,
        config.capacity.lambda,
        config.capacity.e_min,
    );
    let mut machine = StateMachine::new(config.state_machine);
    for (i, row) in rows.iter().enumerate() {
        let strain = kernel.push_and_accumulate(row.r_combined);
        assert_eq!(strain, row.strain, "strain mismatch at bar {}", i);
        let cap = estimator.update(strain);
        assert_eq!(cap, row.capacity, "capacity mismatch at bar {}", i);
        let rho = safe_div(strain, cap, config.numerics.eps);
        assert_eq!(rho, row.rho, "rho mismatch at bar {}", i);
        let (state, cand, conf) = machine.update(i, &row.timestamp, rho);
        assert_eq!(state.label(), row.state, "state mismatch at bar {}", i);
        assert_eq!(cand, row.candidate_flag);
        assert_eq!(conf, row.confirmed_flag);
    }
    assert_eq!(machine.events().len(), events.len());
}

#[test]
fn test_engine_detects_sustained_rupture() {
    // A long quiet stretch, then the price doubles bar after bar.  The
    // normalisation window has seen no dispersion, so the spike saturates the
    // residual channels while the capacity quantile lags: a candidate opens
    // on the first doubling and the m-of-k rule confirms it.
    let mut closes = vec![100.0; 9];
    closes.extend([200.0, 400.0, 800.0, 1600.0]);
    let bars: Vec<Bar> = closes
        .iter()
        .enumerate()
        .map(|(i, &c)| bar(&format!("t{}", i), c, 1000.0))
        .collect();
    let mut config = make_config();
    config.windows = WindowsConfig { robust_scale_n: 3, memory_k: 2, capacity_l: 3 };
    let (rows, events) = run_engine(&bars, &config);

    for row in rows.iter().take(9) {
        assert_eq!(row.state, "Stable");
    }
    assert!(rows[9].candidate_flag, "the first doubling should open a candidate");
    assert_eq!(rows[9].state, "Candidate");
    assert!(rows[11].confirmed_flag, "the sustained spike should confirm");
    assert_eq!(rows[11].state, "Confirmed");

    assert_eq!(events.len(), 1);
    assert_eq!(events[0].candidate_index, 9);
    assert_eq!(events[0].candidate_timestamp, "t9");
    assert_eq!(events[0].confirmed_index, Some(11));
}

#[test]
fn test_state_labels() {
    assert_eq!(RuptureState::Stable.label(), "Stable");
    assert_eq!(RuptureState::Stressed.label(), "Stressed");
    assert_eq!(RuptureState::Critical.label(), "Critical");
    assert_eq!(RuptureState::CandidateRupture.label(), "Candidate");
    assert_eq!(RuptureState::ConfirmedRupture.label(), "Confirmed");
    assert_eq!(RuptureState::Recovery.label(), "Recovery");
}
