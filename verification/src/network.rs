//! The compiled, position-indexed, purely feed-forward evaluator derived
//! from a genome: a position-ordered list of neurons, each holding its
//! bias word, activation choice and incoming links. The structure is
//! read-only after construction; the numeric evaluation over the weight
//! words is performed by the caller.

use vstd::prelude::*;

use crate::activation::Activation;
use crate::neuron_type::NeuronType;

verus! {

/// An incoming link of a compiled neuron: source position, destination
/// position, and the weight word.
#[derive(Debug, Clone, Copy)]
pub struct Link {
    pub weight: u32,
    pub from_id: u32,
    pub to_id: u32,
}

impl Link {
    /// Creates a link between two positions with a given weight word.
    pub fn new(from_id: u32, to_id: u32, weight: u32) -> (r: Link)
        ensures
            r.from_id == from_id,
            r.to_id == to_id,
            r.weight == weight,
    {
        Link { from_id, to_id, weight }
    }

    /// Returns the weight word of the link.
    pub fn get_weight(&self) -> (r: u32)
        ensures
            r == self.weight,
    {
        self.weight
    }

    /// Returns the source position.
    pub fn get_from(&self) -> (r: u32)
        ensures
            r == self.from_id,
    {
        self.from_id
    }

    /// Returns the destination position.
    pub fn get_to(&self) -> (r: u32)
        ensures
            r == self.to_id,
    {
        self.to_id
    }
}

/// A compiled neuron: its position, bias word, role, activation choice,
/// and incoming links.
#[derive(Debug, Clone)]
pub struct Neuron {
    pub position: u32,
    pub bias: u32,
    pub neuron_type: NeuronType,
    pub connections: Vec<Link>,
    pub activation: Activation,
}

impl Neuron {
    /// Creates a neuron.
    pub fn new(
        neuron_type: NeuronType,
        bias: u32,
        position: u32,
        activation: Activation,
        connections: Vec<Link>,
    ) -> (r: Neuron)
        ensures
            r.neuron_type == neuron_type,
            r.bias == bias,
            r.position == position,
            r.activation == activation,
            r.connections@ == connections@,
    {
        Neuron { neuron_type, position, bias, connections, activation }
    }

    /// The same neuron with its incoming links replaced.
    pub fn with_connections(self, connections: Vec<Link>) -> (r: Neuron)
        ensures
            r.neuron_type == self.neuron_type,
            r.bias == self.bias,
            r.position == self.position,
            r.activation == self.activation,
            r.connections@ == connections@,
    {
        Neuron { connections, ..self }
    }

    /// Returns the bias word.
    pub fn get_bias(&self) -> (r: u32)
        ensures
            r == self.bias,
    {
        self.bias
    }

    /// Returns the position.
    pub fn get_position(&self) -> (r: u32)
        ensures
            r == self.position,
    {
        self.position
    }

    /// Returns the role.
    pub fn get_neuron_type(&self) -> (r: &NeuronType)
        ensures
            *r == self.neuron_type,
    {
        &self.neuron_type
    }

    /// Returns the activation choice.
    pub fn get_activation(&self) -> (r: Activation)
        ensures
            r == self.activation,
    {
        self.activation
    }

    /// Returns the incoming links.
    pub fn get_connections(&self) -> (r: Vec<Link>)
        ensures
            r@ == self.connections@,
    {
        let mut out: Vec<Link> = Vec::new();
        let mut i: usize = 0;
        while i < self.connections.len()
            invariant
                i <= self.connections@.len(),
                out@ == self.connections@.take(i as int),
            decreases self.connections@.len() - i,
        {
            out.push(self.connections[i]);
            proof {
                assert(out@ =~= self.connections@.take(i + 1int));
            }
            i += 1;
        }
        proof {
            assert(self.connections@.take(self.connections@.len() as int) =~= self.connections@);
        }
        out
    }
}

/// Counts the neurons of role `t`.
pub open spec fn count_neurons(neurons: Seq<Neuron>, t: NeuronType) -> int
    decreases neurons.len(),
{
    if neurons.len() == 0 {
        0
    } else {
        count_neurons(neurons.drop_last(), t) + if neurons.last().neuron_type == t {
            1int
        } else {
            0int
        }
    }
}

/// The compiled network: neurons in position order, with the counts of
/// input and output neurons.
#[derive(Debug, Clone)]
pub struct Network {
    pub inputs: usize,
    pub outputs: usize,
    pub neurons: Vec<Neuron>,
}

impl Network {
    /// Creates a network from a list of neurons, counting its input and
    /// output neurons.
    pub fn new(neurons: Vec<Neuron>) -> (r: Network)
        ensures
            r.neurons@ == neurons@,
            r.inputs == count_neurons(neurons@, NeuronType::Input),
            r.outputs == count_neurons(neurons@, NeuronType::Output),
    {
        let mut inputs: usize = 0;
        let mut outputs: usize = 0;
        let mut i: usize = 0;
        while i < neurons.len()
            invariant
                i <= neurons@.len(),
                inputs == count_neurons(neurons@.take(i as int), NeuronType::Input),
                outputs == count_neurons(neurons@.take(i as int), NeuronType::Output),
                inputs <= i,
                outputs <= i,
            decreases neurons@.len() - i,
        {
            proof {
                assert(neurons@.take(i + 1int).drop_last() =~= neurons@.take(i as int));
                assert(neurons@.take(i + 1int).last() == neurons@[i as int]);
            }
            let t = neurons[i].get_neuron_type().to_bytes();
            if t == 1 {
                inputs += 1;
            } else if t == 3 {
                outputs += 1;
            }
            i += 1;
        }
        proof {
            assert(neurons@.take(neurons@.len() as int) =~= neurons@);
        }
        Network { neurons, inputs, outputs }
    }

    /// Returns the number of input neurons.
    pub fn get_inputs(&self) -> (r: usize)
        ensures
            r == self.inputs,
    {
        self.inputs
    }

    /// Returns the number of output neurons.
    pub fn get_outputs(&self) -> (r: usize)
        ensures
            r == self.outputs,
    {
        self.outputs
    }

    /// Returns how many neurons the network holds.
    pub fn len(&self) -> (r: usize)
        ensures
            r == self.neurons@.len(),
    {
        self.neurons.len()
    }

    /// Returns the neuron at position `i`.
    pub fn get_neuron(&self, i: usize) -> (r: &Neuron)
        requires
            i < self.neurons@.len(),
        ensures
            *r == self.neurons@[i as int],
    {
        &self.neurons[i]
    }
}

} // verus!
