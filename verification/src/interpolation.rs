//! How a resampled series behaves outside the original time range.

use vstd::prelude::*;

verus! {

/// Extrapolation policy for points outside the original time range: continue
/// the boundary segment's slope, or hold the boundary value.
pub enum Exterpolation {
    Linear,
    Saturation,
}

} // verus!
