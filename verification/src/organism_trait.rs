//! The interface the population requires of an organism: a fitness score,
//! a stagnation counter, and a mutation step that produces offspring.

use vstd::prelude::*;

verus! {

/// The failure of an organism's mutation step, carrying a short
/// description of the cause.
pub struct OrganismTraitError {
    pub cause: String,
}

impl OrganismTraitError {
    /// Creates an error from the description of its cause.
    pub fn new(cause: String) -> (r: OrganismTraitError)
        ensures
            r.cause == cause,
    {
        OrganismTraitError { cause }
    }
}

/// What the population requires of an organism.
pub trait OrganismTrait<C>: Sized {
    /// The fitness word of the organism.
    spec fn fitness(&self) -> u32;

    /// The stagnation count of the organism.
    spec fn stagnation(&self) -> usize;

    /// Stores a fitness word, leaving the stagnation count untouched.
    fn set_fitness(&mut self, fitness: u32)
        ensures
            final(self).fitness() == fitness,
            final(self).stagnation() == old(self).stagnation(),
    ;

    /// Returns the fitness word.
    fn get_fitness(&self) -> (r: u32)
        ensures
            r == self.fitness(),
    ;

    /// Raises the stagnation count by one, saturating at its maximum, and
    /// leaves the fitness untouched.
    fn inc_stagnation(&mut self)
        ensures
            final(self).fitness() == old(self).fitness(),
            final(self).stagnation() == (if old(self).stagnation() == usize::MAX {
                usize::MAX
            } else {
                (old(self).stagnation() + 1) as usize
            }),
    ;

    /// Returns the stagnation count.
    fn get_stagnation(&self) -> (r: usize)
        ensures
            r == self.stagnation(),
    ;

    /// Produces a mutated offspring, optionally crossing over with
    /// `child`.
    fn mutate(&self, child: Option<&Self>, config: &C) -> Result<Self, OrganismTraitError>;
}

} // verus!
