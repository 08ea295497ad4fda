//! How a signal is read between its samples.
use vstd::prelude::*;

verus! {

/// How a signal is read between its samples.
#[derive(Debug, Clone, Copy, PartialEq, Eq, Structural)]
pub enum Interpolation {
    /// A straight line between neighbouring samples.
    Linear,
    /// The previous sample held constant until the next one.
    ZeroOrderHold,
    /// A natural cubic spline through the samples.
    CubicSpline,
}

impl Default for Interpolation {
    fn default() -> (r: Interpolation)
        ensures
            r == Interpolation::Linear,
    {
        Interpolation::Linear
    }
}

} // verus!
