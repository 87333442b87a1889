//! Configuration of the pipeline, with verified range validation.
//!
//! Real-valued parameters are fixed point (`SCALE` units), as everywhere in
//! the crate.

use vstd::prelude::*;
use crate::error::RuptureError;
use crate::fixed::SCALE;

verus! {

/// Input/output column mapping and row handling.
#[derive(Debug, Clone)]
pub struct IoConfig {
    pub timestamp_column: String,
    pub open_column: String,
    pub high_column: String,
    pub low_column: String,
    pub close_column: String,
    pub volume_column: String,
    pub parse_timestamps: bool,
    pub drop_invalid_rows: bool,
    pub sort_by_timestamp: bool,
}

/// Requirements on the cleaned input series.
#[derive(Debug, Clone, Copy)]
pub struct PreprocessConfig {
    pub require_positive_close: bool,
    pub allow_zero_volume: bool,
    pub min_rows: usize,
}

/// Numerical guards.
#[derive(Debug, Clone, Copy)]
pub struct NumericsConfig {
    pub eps: i128,
    pub clip_residuals: bool,
    pub residual_clip_max: i128,
}

/// Window lengths of the three stateful components.
#[derive(Debug, Clone, Copy)]
pub struct WindowsConfig {
    pub robust_scale_n: usize,
    pub memory_k: usize,
    pub capacity_l: usize,
}

/// Feature extraction choices.
#[derive(Debug, Clone, Copy)]
pub struct FeaturesConfig {
    pub use_log_returns: bool,
}

/// Robust normalisation parameters.
#[derive(Debug, Clone, Copy)]
pub struct RobustConfig {
    pub mad_scale_factor: i128,
    pub use_volume_median: bool,
}

/// Residual channel thresholds.
#[derive(Debug, Clone, Copy)]
pub struct ResidualsConfig {
    pub theta_vol: i128,
    pub theta_liq: i128,
    pub theta_acc: i128,
}

/// Soft combiner temperature.
#[derive(Debug, Clone, Copy)]
pub struct CombineConfig {
    pub tau: i128,
}

/// Memory kernel decay exponent.
#[derive(Debug, Clone, Copy)]
pub struct MemoryConfig {
    pub alpha: i128,
}

/// Capacity estimator parameters.
#[derive(Debug, Clone, Copy)]
pub struct CapacityConfig {
    pub q: i128,
    pub smooth: bool,
    pub lambda: i128,
    pub e_min: i128,
}

/// Rupture state machine thresholds and confirmation protocol.
#[derive(Debug, Clone, Copy)]
pub struct StateMachineConfig {
    pub rho_stressed: i128,
    pub rho_critical: i128,
    pub rho_rupture: i128,
    pub confirm_k: usize,
    pub confirm_m: usize,
    pub enable_recovery: bool,
    pub recovery_hold: usize,
}

/// Which output artifacts to write.
#[derive(Debug, Clone)]
pub struct OutputsConfig {
    pub write_csv_timeseries: bool,
    pub csv_timeseries_name: String,
    pub write_json_events: bool,
    pub json_events_name: String,
    pub write_json_config_snapshot: bool,
    pub json_config_snapshot_name: String,
}

/// The full run configuration.
#[derive(Debug, Clone)]
pub struct Config {
    pub io: IoConfig,
    pub preprocess: PreprocessConfig,
    pub numerics: NumericsConfig,
    pub windows: WindowsConfig,
    pub features: FeaturesConfig,
    pub robust: RobustConfig,
    pub residuals: ResidualsConfig,
    pub combine: CombineConfig,
    pub memory: MemoryConfig,
    pub capacity: CapacityConfig,
    pub state_machine: StateMachineConfig,
    pub outputs: OutputsConfig,
}

/// `memory.alpha` lies in the open unit interval.
pub open spec fn alpha_ok(c: Config) -> bool {
    0 < c.memory.alpha < SCALE
}

/// `windows.memory_k` is at least ten.
pub open spec fn memory_k_ok(c: Config) -> bool {
    c.windows.memory_k >= 10
}

/// `windows.capacity_l` is at least fifty.
pub open spec fn capacity_l_ok(c: Config) -> bool {
    c.windows.capacity_l >= 50
}

/// `state_machine.confirm_k` is one, two or three.
pub open spec fn confirm_k_ok(c: Config) -> bool {
    1 <= c.state_machine.confirm_k <= 3
}

/// `state_machine.confirm_m` lies between one and `confirm_k`.
pub open spec fn confirm_m_ok(c: Config) -> bool {
    1 <= c.state_machine.confirm_m <= c.state_machine.confirm_k
}

/// `capacity.q` lies in the open unit interval.
pub open spec fn q_ok(c: Config) -> bool {
    0 < c.capacity.q < SCALE
}

/// `combine.tau` is strictly positive.
pub open spec fn tau_ok(c: Config) -> bool {
    c.combine.tau > 0
}

/// All validated parameter ranges hold.
pub open spec fn config_valid(c: Config) -> bool {
    &&& alpha_ok(c)
    &&& memory_k_ok(c)
    &&& capacity_l_ok(c)
    &&& confirm_k_ok(c)
    &&& confirm_m_ok(c)
    &&& q_ok(c)
    &&& tau_ok(c)
}

impl Config {
    /// Validate parameter ranges and consistency, reporting the first
    /// violated rule.
    pub fn validate(&self) -> (r: Result<(), RuptureError>)
        ensures
            r.is_ok() <==> config_valid(*self),
            !alpha_ok(*self) ==> (match r {
                Err(RuptureError::Config(m)) => m@
                    == "memory.alpha must be in the open interval (0, 1)"@,
                _ => false,
            }),
            alpha_ok(*self) && !memory_k_ok(*self) ==> (match r {
                Err(RuptureError::Config(m)) => m@ == "windows.memory_k must be at least 10"@,
                _ => false,
            }),
            alpha_ok(*self) && memory_k_ok(*self) && !capacity_l_ok(*self) ==> (match r {
                Err(RuptureError::Config(m)) => m@ == "windows.capacity_l must be at least 50"@,
                _ => false,
            }),
            alpha_ok(*self) && memory_k_ok(*self) && capacity_l_ok(*self) && !confirm_k_ok(*self)
                ==> (match r {
                Err(RuptureError::Config(m)) => m@
                    == "state_machine.confirm_k must be 1, 2, or 3"@,
                _ => false,
            }),
            alpha_ok(*self) && memory_k_ok(*self) && capacity_l_ok(*self) && confirm_k_ok(*self)
                && !confirm_m_ok(*self) ==> (match r {
                Err(RuptureError::Config(m)) => m@
                    == "state_machine.confirm_m must satisfy 1 <= m <= k"@,
                _ => false,
            }),
            alpha_ok(*self) && memory_k_ok(*self) && capacity_l_ok(*self) && confirm_k_ok(*self)
                && confirm_m_ok(*self) && !q_ok(*self) ==> (match r {
                Err(RuptureError::Config(m)) => m@
                    == "capacity.q must be in the open interval (0, 1)"@,
                _ => false,
            }),
            alpha_ok(*self) && memory_k_ok(*self) && capacity_l_ok(*self) && confirm_k_ok(*self)
                && confirm_m_ok(*self) && q_ok(*self) && !tau_ok(*self) ==> (match r {
                Err(RuptureError::Config(m)) => m@ == "combine.tau must be positive"@,
                _ => false,
            }),
    {
        if self.memory.alpha <= 0 || self.memory.alpha >= SCALE {
            return Err(
                RuptureError::Config("memory.alpha must be in the open interval (0, 1)".to_owned()),
            );
        }
        if self.windows.memory_k < 10 {
            return Err(RuptureError::Config("windows.memory_k must be at least 10".to_owned()));
        }
        if self.windows.capacity_l < 50 {
            return Err(RuptureError::Config("windows.capacity_l must be at least 50".to_owned()));
        }
        if self.state_machine.confirm_k < 1 || self.state_machine.confirm_k > 3 {
            return Err(
                RuptureError::Config("state_machine.confirm_k must be 1, 2, or 3".to_owned()),
            );
        }
        if self.state_machine.confirm_m < 1 || self.state_machine.confirm_m
            > self.state_machine.confirm_k {
            return Err(
                RuptureError::Config(
                    "state_machine.confirm_m must satisfy 1 <= m <= k".to_owned(),
                ),
            );
        }
        if self.capacity.q <= 0 || self.capacity.q >= SCALE {
            return Err(
                RuptureError::Config("capacity.q must be in the open interval (0, 1)".to_owned()),
            );
        }
        if self.combine.tau <= 0 {
            return Err(RuptureError::Config("combine.tau must be positive".to_owned()));
        }
        Ok(())
    }
}

} // verus!
