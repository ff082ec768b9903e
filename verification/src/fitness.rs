//! The capability that scores an organism; supplied by the caller of the
//! evolution loop.

use vstd::prelude::*;

verus! {

/// Anything that can score an organism of type `T`. The score is the bit
/// pattern of an IEEE single-precision value; the library orders scores
/// but never interprets them numerically.
pub trait FitnessTrait<T> {
    /// Scores one organism. The result is entirely up to the
    /// implementation.
    fn calculate(&self, organism: &T) -> u32;
}

} // verus!
