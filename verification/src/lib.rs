//! Deterministic rupture-detection engine for ordered price/volume series.
//!
//! Every quantity is carried in a fixed-point representation (twelve decimal
//! fractional digits in an `i128`), so the whole analytic pipeline — robust
//! statistics, feature normalisation, residual channels, the log-sum-exp
//! combiner, the power-law memory kernel, the adaptive capacity estimator and
//! the rupture state machine — is exact integer arithmetic with verified
//! contracts.

pub mod capacity;
pub mod combine;
pub mod config;
pub mod diagnostics;
pub mod engine;
pub mod error;
pub mod features;
pub mod fixed;
pub mod mad;
pub mod median;
pub mod memory;
pub mod preprocess;
pub mod quantile;
pub mod residuals;
pub mod rolling_window;
pub mod sorting;
pub mod state_machine;
pub mod summary;
pub mod transcend;
pub mod types;
