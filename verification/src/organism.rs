//! An individual of the population: a genome, the network compiled from
//! it, a fitness word, a stagnation counter, and the cached sorted
//! hidden-node-identifier signature used for distance comparisons.
//!
//! Mutation always produces a fresh organism, so the signature is
//! computed once at construction and never changes.

use vstd::prelude::*;

use crate::config::Config;
use crate::genome::{ids_of_type, network_matches, sort_u32, u32_leq, Genome};
use crate::network::Network;
use crate::neuron_type::NeuronType;
use crate::organism_trait::{OrganismTrait, OrganismTraitError};
use crate::rng::{RandomSource, SystemRandom};

verus! {

/// An individual: one genome and the network compiled from it, with its
/// run-time fitness bookkeeping. The fitness is the bit pattern of an
/// IEEE single-precision value, stored by the caller.
#[derive(Debug)]
pub struct Organism {
    pub genome: Genome,
    pub network: Network,
    pub fitness: u32,
    pub stagnation: usize,
    pub genotype: Vec<u32>,
    pub id: Option<String>,
}

impl Organism {
    /// Wraps a genome: compiles its network and caches the sorted
    /// hidden-node-identifier signature; fitness and stagnation start at
    /// zero.
    pub fn new(genome: Genome) -> (r: Organism)
        ensures
            r.genome == genome,
            network_matches(r.genome, r.network),
            r.fitness == 0,
            r.stagnation == 0,
            r.id is None,
            r.genotype@ == ids_of_type(genome.nodes@, NeuronType::Hidden).sort_by(u32_leq()),
    {
        let network = genome.get_network();
        let genotype = sort_u32(genome.get_hidden_node_ids());
        Organism { genome, network, fitness: 0, stagnation: 0, genotype, id: None }
    }

    /// Returns the sorted hidden-node-identifier signature.
    pub fn get_genotype(&self) -> (r: Vec<u32>)
        ensures
            r@ == self.genotype@,
    {
        let mut out: Vec<u32> = Vec::new();
        let mut i: usize = 0;
        while i < self.genotype.len()
            invariant
                i <= self.genotype@.len(),
                out@ == self.genotype@.take(i as int),
            decreases self.genotype@.len() - i,
        {
            out.push(self.genotype[i]);
            proof {
                assert(out@ =~= self.genotype@.take(i + 1int));
            }
            i += 1;
        }
        proof {
            assert(self.genotype@.take(self.genotype@.len() as int) =~= self.genotype@);
        }
        out
    }

    /// Sets the organism's identifier.
    pub fn set_id(&mut self, id: String)
        ensures
            final(self).id == Some(id),
            final(self).genome == old(self).genome,
            final(self).fitness == old(self).fitness,
            final(self).stagnation == old(self).stagnation,
    {
        self.id = Some(id);
    }

    /// Returns the organism's identifier, if set.
    pub fn get_id(&self) -> (r: Option<&String>)
        ensures
            match r {
                Some(s) => self.id == Some(*s),
                None => self.id is None,
            },
    {
        self.id.as_ref()
    }

    /// Mutates the genome against the optional mate, drawing randomness
    /// from the supplied source, and wraps the result in a fresh
    /// organism. Never fails: the composite genome mutation absorbs the
    /// failures of its sub-operators. A driver that wants weight words
    /// bounded to a real interval passes its own [`RandomSource`]; the
    /// trait-level `mutate` draws from the process-wide generator, whose
    /// weight words are uniform bit patterns.
    pub fn mutate_with<R: RandomSource>(
        &self,
        child: Option<&Organism>,
        config: &Config,
        rng: &mut R,
    ) -> (r: Result<Organism, OrganismTraitError>)
        ensures
            r is Ok,
            r matches Ok(o) ==> {
                &&& network_matches(o.genome, o.network)
                &&& o.fitness == 0
                &&& o.stagnation == 0
                &&& o.id is None
                &&& o.genotype@ == ids_of_type(o.genome.nodes@, NeuronType::Hidden).sort_by(
                    u32_leq(),
                )
                &&& self.genome.counts_ok() ==> (o.genome.counts_ok() && o.genome.inputs
                    == self.genome.inputs && o.genome.outputs == self.genome.outputs)
            },
    {
        let mate: Option<&Genome> = match child {
            Some(c) => Some(&c.genome),
            None => None,
        };
        match self.genome.mutate(mate, config, rng) {
            Ok(g) => Ok(Organism::new(g)),
            Err(_) => Err(OrganismTraitError::new(String::new())),
        }
    }

    /// Overwrites the stagnation counter.
    pub fn set_stagnation(&mut self, stagnation: usize)
        ensures
            final(self).stagnation == stagnation,
            final(self).fitness == old(self).fitness,
            final(self).genome == old(self).genome,
    {
        self.stagnation = stagnation;
    }
}

impl OrganismTrait<Config> for Organism {
    open spec fn fitness(&self) -> u32 {
        self.fitness
    }

    open spec fn stagnation(&self) -> usize {
        self.stagnation
    }

    fn set_fitness(&mut self, fitness: u32) {
        self.fitness = fitness;
    }

    fn get_fitness(&self) -> (r: u32) {
        self.fitness
    }

    fn inc_stagnation(&mut self) {
        if self.stagnation < usize::MAX {
            self.stagnation = self.stagnation + 1;
        }
    }

    fn get_stagnation(&self) -> (r: usize) {
        self.stagnation
    }

    /// Mutates the genome against the optional mate and wraps the result
    /// in a fresh organism, drawing its randomness from the process-wide
    /// generator.
    fn mutate(&self, child: Option<&Self>, config: &Config) -> (r: Result<
        Self,
        OrganismTraitError,
    >)
        ensures
            r is Ok,
            r matches Ok(o) ==> {
                &&& network_matches(o.genome, o.network)
                &&& o.fitness == 0
                &&& o.stagnation == 0
                &&& o.genotype@ == ids_of_type(o.genome.nodes@, NeuronType::Hidden).sort_by(
                    u32_leq(),
                )
                &&& self.genome.counts_ok() ==> (o.genome.counts_ok() && o.genome.inputs
                    == self.genome.inputs && o.genome.outputs == self.genome.outputs)
            },
    {
        let mut rng = SystemRandom;
        self.mutate_with(child, config, &mut rng)
    }
}

} // verus!
