//! Core data records of the pipeline.

use vstd::prelude::*;

verus! {

/// Raw OHLCV bar: an ordered timestamp label plus fixed-point prices and
/// volume.
#[derive(Debug, Clone)]
pub struct Bar {
    pub ts: String,
    pub open: i128,
    pub high: i128,
    pub low: i128,
    pub close: i128,
    pub volume: i128,
}

/// Derived per-bar features.
#[derive(Debug, Clone)]
pub struct Derived {
    pub ret: i128,
    pub abs_ret: i128,
    pub accel: i128,
}

/// Robustly normalised feature values (dimensionless, non-negative).
#[derive(Debug, Clone)]
pub struct Normed {
    /// Normalised absolute return: `|R_t| / robust_scale_returns`.
    pub u: i128,
    /// Normalised volume: `V_t / median_volume`.
    pub v: i128,
    /// Normalised absolute acceleration: `|A_t| / robust_scale_accel`.
    pub a: i128,
}

/// Individual residual channel values plus the combined residual.
#[derive(Debug, Clone)]
pub struct Residuals {
    pub r_vol: i128,
    pub r_liq: i128,
    pub r_acc: i128,
    pub r: i128,
}

/// Strain and capacity at a single bar.
#[derive(Debug, Clone)]
pub struct StrainPoint {
    pub s: i128,
    pub e: i128,
    pub rho: i128,
}

/// Deterministic rupture state.
#[derive(Debug, Clone, Copy, PartialEq, Eq, Structural)]
pub enum RuptureState {
    Stable,
    Stressed,
    Critical,
    CandidateRupture,
    ConfirmedRupture,
    Recovery,
}

/// The short display label of each state.
pub open spec fn state_label(s: RuptureState) -> Seq<char> {
    match s {
        RuptureState::Stable => "Stable"@,
        RuptureState::Stressed => "Stressed"@,
        RuptureState::Critical => "Critical"@,
        RuptureState::CandidateRupture => "Candidate"@,
        RuptureState::ConfirmedRupture => "Confirmed"@,
        RuptureState::Recovery => "Recovery"@,
    }
}

impl RuptureState {
    /// Human-readable label of the state.
    pub fn label(&self) -> (r: String)
        ensures
            r@ == state_label(*self),
    {
        match self {
            RuptureState::Stable => "Stable".to_owned(),
            RuptureState::Stressed => "Stressed".to_owned(),
            RuptureState::Critical => "Critical".to_owned(),
            RuptureState::CandidateRupture => "Candidate".to_owned(),
            RuptureState::ConfirmedRupture => "Confirmed".to_owned(),
            RuptureState::Recovery => "Recovery".to_owned(),
        }
    }
}

/// Full output row for a single bar of the time series.
#[derive(Debug, Clone)]
pub struct EngineOutputRow {
    pub timestamp: String,
    pub close: i128,
    pub volume: i128,
    pub r_vol: i128,
    pub r_liq: i128,
    pub r_acc: i128,
    pub r_combined: i128,
    pub strain: i128,
    pub capacity: i128,
    pub rho: i128,
    pub state: String,
    pub candidate_flag: bool,
    pub confirmed_flag: bool,
}

/// A detected rupture event with timing information.  `confirmed_index`
/// absent means the candidate episode failed confirmation.
#[derive(Debug, Clone)]
pub struct RuptureEvent {
    pub candidate_index: usize,
    pub candidate_timestamp: String,
    pub confirmed_index: Option<usize>,
    pub confirmed_timestamp: Option<String>,
    pub peak_rho: i128,
    pub confirmation_k: usize,
    pub confirmation_m: usize,
}

} // verus!
