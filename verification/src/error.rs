//! Error type of the library.
//!
//! Only the pure classification errors live here; wrapping of file, CSV and
//! JSON failures belongs to the binary around the library.

use vstd::prelude::*;

verus! {

/// Errors produced by configuration and input validation.
#[derive(Debug, Clone)]
pub enum RuptureError {
    /// A configuration parameter is outside its documented range.
    Config(String),
    /// The input series violates a validation rule.
    Validation(String),
    /// The input series is empty.
    EmptyData(String),
}

} // verus!
