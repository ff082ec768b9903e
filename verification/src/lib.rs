//! NEAT-style neuroevolution: genomes that encode small feed-forward
//! networks, structural and behavioural mutation operators, a deterministic
//! compilation step into a position-indexed network, and a generic
//! population loop driven by a caller-supplied fitness capability.
//!
//! Weights, biases and fitness scores are carried as opaque 32-bit words
//! (the bit patterns of IEEE single-precision values); all structural logic
//! is verified over those words, and the numeric evaluation of a compiled
//! network is left to the caller.

pub mod activation;
pub mod config;
pub mod connection;
pub mod fitness;
pub mod genome;
pub mod levenshtein;
pub mod organism;
pub mod organism_trait;
pub mod population;
pub mod network;
pub mod neuron_type;
pub mod node;
pub mod rng;

pub use activation::Activation;
pub use config::Config;
pub use connection::Connection;
pub use fitness::FitnessTrait;
pub use genome::Genome;
pub use organism::Organism;
pub use organism_trait::OrganismTrait;
pub use organism_trait::OrganismTraitError;
pub use population::Population;
pub use genome::GenomeError;
pub use levenshtein::levenshtein;
pub use levenshtein::LevenshteinError;
pub use network::Link;
pub use network::Network;
pub use network::Neuron;
pub use neuron_type::NeuronType;
pub use node::Node;
