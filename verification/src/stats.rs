//! Settings of the statistical checks.
use vstd::prelude::*;

verus! {

/// The seed a sequential test starts from when none is given.
pub const DEFAULT_SEED: u64 = 42;

/// The seed a sequential test starts from when none is given.
pub fn default_seed() -> (r: u64)
    ensures
        r == DEFAULT_SEED,
{
    DEFAULT_SEED
}

/// How a noise draw combines with a deterministic reading.
#[derive(Debug, Clone, Copy, PartialEq, Eq, Structural)]
pub enum NoiseInteraction {
    /// The noise is added to the reading: `reading + noise`.
    Additive,
    /// The noise scales the reading: `reading * noise`.
    Multiplicative,
}

/// Which interval a statistical check reports around its estimate.
#[derive(Debug, Clone, Copy, PartialEq, Eq, Structural)]
pub enum IntervalMethod {
    /// The Wilson score interval.
    Wilson,
    /// The Clopper-Pearson exact interval.
    ClopperPearson,
    /// The Jeffreys credible interval.
    Jeffreys,
    /// The Agresti-Coull interval.
    AgrestiCoull,
}

impl Default for IntervalMethod {
    fn default() -> (r: IntervalMethod)
        ensures
            r == IntervalMethod::Wilson,
    {
        IntervalMethod::Wilson
    }
}

} // verus!
