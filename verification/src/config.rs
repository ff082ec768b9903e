//! The evolution configuration: per-operator trial probabilities,
//! perturbation magnitude bounds, and hard structural caps.

use vstd::prelude::*;

verus! {

/// Configuration of the mutation operators. Probabilities are in parts
/// per million (see [`crate::rng::PROB_ONE`]); magnitude bounds are the
/// bit patterns of IEEE single-precision values and are handed unchanged
/// to the random source.
#[derive(Debug, Clone)]
pub struct Config {
    /// Probability of adding a node during mutation.
    pub add_node: u32,
    /// Probability of adding a connection during mutation.
    pub add_connection: u32,
    /// Probability of crossover during reproduction.
    pub crossover: u32,
    /// Maximum number of connections allowed.
    pub connection_max: usize,
    /// Probability of toggling a connection during mutation.
    pub connection_enabled: u32,
    /// Magnitude bound for fresh connection weights.
    pub connection_weight: u32,
    /// Probability of perturbing connection weights.
    pub connection_weight_prob: u32,
    /// Magnitude bound for connection weight perturbation.
    pub connection_weight_delta: u32,
    /// Upper bound on the repeat count of weight perturbation per trial.
    pub connection_weight_iter: usize,
    /// Maximum number of nodes allowed.
    pub node_max: usize,
    /// Magnitude bound for fresh node biases.
    pub node_bias: u32,
    /// Probability of toggling a node during mutation.
    pub node_enabled: u32,
    /// Probability of perturbing a node bias.
    pub node_bias_prob: u32,
    /// Magnitude bound for node bias perturbation.
    pub node_bias_delta: u32,
    /// Probability of changing a node activation.
    pub node_activation_prob: u32,
}

impl Default for Config {
    /// The stock configuration: moderate structural mutation rates, a
    /// frequent small weight perturbation, and caps of 1000 nodes and
    /// 10000 connections. The magnitude words encode the values one
    /// (0x3F800000) and one tenth (0x3DCCCCCD).
    fn default() -> (r: Config)
        ensures
            r.add_node == 150000,
            r.add_connection == 150000,
            r.connection_enabled == 100000,
            r.crossover == 300000,
            r.connection_weight == 0x3F800000,
            r.connection_weight_prob == 800000,
            r.connection_weight_delta == 0x3DCCCCCD,
            r.connection_weight_iter == 5,
            r.node_bias_prob == 150000,
            r.node_bias_delta == 0x3DCCCCCD,
            r.node_bias == 0x3F800000,
            r.node_activation_prob == 150000,
            r.connection_max == 10000,
            r.node_max == 1000,
            r.node_enabled == 500000,
    {
        Config {
            add_node: 150000,
            add_connection: 150000,
            connection_enabled: 100000,
            crossover: 300000,
            connection_weight: 0x3F800000,
            connection_weight_prob: 800000,
            connection_weight_delta: 0x3DCCCCCD,
            connection_weight_iter: 5,
            node_bias_prob: 150000,
            node_bias_delta: 0x3DCCCCCD,
            node_bias: 0x3F800000,
            node_activation_prob: 150000,
            connection_max: 10000,
            node_max: 1000,
            node_enabled: 500000,
        }
    }
}

} // verus!
