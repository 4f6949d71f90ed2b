//! A probability model for round-based claim verification.
//!
//! Provers repeatedly try to validate a claim; every round adds confidence,
//! while a fixed share of doubt (incompleteness, selection bias, Byzantine
//! failure) never goes away. The crate turns a claim's parameters into an
//! acceptance probability and a qualitative finality status.
//!
//! Probabilities are fixed-point numbers: a `u64` counting units of 10^-18,
//! so that [`fixed::ONE`] stands for certainty.

pub mod accuracy;
pub mod claim;
pub mod error;
pub mod finality;
pub mod fixed;
pub mod laws;
pub mod model;
pub mod params;
pub mod random;
