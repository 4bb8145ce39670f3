//! Change-point detection for integer-valued time series.
//!
//! The core is an e-divisive search: a top-down segmentation driven by the
//! energy distance between two samples and validated by a Monte-Carlo
//! permutation test. Samples are 64-bit integers and every statistic is an
//! exact rational, so each computation is verified against the mathematical
//! definition of the statistic.

pub mod change_points;
pub mod interpolation;
pub mod estimator;
pub mod hypothesis_testing;
pub mod rational;
pub mod utils;

mod random;
mod subvec;
