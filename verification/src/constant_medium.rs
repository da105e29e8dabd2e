//! A constant-density participating medium bounded by another surface.

use vstd::prelude::*;
use crate::fx::COORD_BOUND;

verus! {

/// Fog of uniform density inside a boundary surface; the phase function
/// is a material handle.
#[derive(Clone, Copy, PartialEq, Eq, Structural, Debug)]
pub struct ConstantMedium {
    pub boundary: usize,
    pub phase_function: usize,
    pub density: i64,
}

impl ConstantMedium {
    pub fn new(boundary: usize, d: i64, phase_function: usize) -> (c: ConstantMedium)
        requires
            1 <= d <= COORD_BOUND,
        ensures
            c.boundary == boundary,
            c.phase_function == phase_function,
            c.density == d,
    {
        ConstantMedium { boundary, phase_function, density: d }
    }
}

} // verus!
