use neuro_neat::activation::Activation;
use neuro_neat::config::Config;
use neuro_neat::connection::Connection;
use neuro_neat::genome::Genome;
use neuro_neat::network::Network;
use neuro_neat::neuron_type::NeuronType;
use neuro_neat::node::Node;
use neuro_neat::rng::{RandomSource, SplitMix};

/// Evaluates a compiled network on one sample, interpreting the stored
/// 32-bit words as IEEE single-precision values.
fn activate(network: &Network, inputs: Vec<f32>) -> Vec<f32> {
    let mut state = vec![0f32; network.len()];
    let mut i = 0;
    while i < network.len() {
        let neuron = network.get_neuron(i);
        let pos = neuron.get_position() as usize;
        if neuron.get_neuron_type().to_bytes() == 1 {
            state[pos] = inputs[pos];
        } else {
            let mut value = f32::from_bits(neuron.get_bias());
            for link in neuron.get_connections() {
                value += state[link.get_from() as usize] * f32::from_bits(link.get_weight());
            }
            state[pos] = apply(neuron.get_activation(), value);
        }
        i += 1;
    }
    state[state.len() - network.get_outputs()..].to_vec()
}

fn apply(activation: Activation, x: f32) -> f32 {
    match activation {
        Activation::Sigmoid => 1.0 / (1.0 + (-4.924273 * x).exp()),
        Activation::Tanh => x.tanh(),
        Activation::Identity => x,
        Activation::Step => {
            if x > 0.0 {
                1.0
            } else {
                0.0
            }
        }
        Activation::Relu => x.max(0.0),
        Activation::SoftSign => x / (1.0 + x.abs()),
        Activation::Sinusoid => x.sin(),
        Activation::Gaussian => (-1.0 * x.powi(2)).exp(),
        Activation::Selu => {
            let alpha = 1.673_263_2;
            (if x > 0.0 { x } else { alpha * x.exp() - alpha }) * 1.050_700_9
        }
    }
}

/// A source whose weight perturbation adds a fixed delta.
struct FixedDelta {
    delta: f32,
}

impl RandomSource for FixedDelta {
    fn next_below(&mut self, _len: usize) -> usize {
        0
    }

    fn next_in_range(&mut self, from: u32, _to: u32) -> u32 {
        from
    }

    fn coin(&mut self, _prob: u32) -> bool {
        false
    }

    fn next_weight(&mut self, magnitude: u32) -> u32 {
        magnitude
    }

    fn next_perturbed(&mut self, base: u32, _magnitude: u32) -> u32 {
        (f32::from_bits(base) + self.delta).to_bits()
    }
}

#[test]
fn genome_it_works() {
    let nodes = vec![
        Node::new(NeuronType::Input, 0, 0f32.to_bits(), None, None),
        Node::new(NeuronType::Hidden, 2, 0f32.to_bits(), None, None),
        Node::new(NeuronType::Hidden, 3, 0f32.to_bits(), None, None),
        Node::new(NeuronType::Output, 1, 0f32.to_bits(), None, None),
    ];
    let connections = vec![
        Connection::new(0, 1, 0f32.to_bits()),
        Connection::new(0, 2, 0f32.to_bits()),
        Connection::new(0, 3, 0f32.to_bits()),
        Connection::new(2, 1, 0f32.to_bits()),
        Connection::new(3, 1, 0f32.to_bits()),
    ];

    let genome = Genome::new(nodes, connections).unwrap();

    assert_eq!(genome.get_nodes().len(), 4);
    assert_eq!(genome.get_connections().len(), 5);
    let positions: Vec<u32> = genome.get_nodes().iter().map(|n| n.get_position()).collect();
    assert_eq!(positions, vec![0, 1, 2, 3]);
}

#[test]
fn genome_generate_genome() {
    let config = Config {
        node_bias: 1.0f32.to_bits(),
        connection_weight: 1.0f32.to_bits(),
        ..Config::default()
    };
    let mut rng = SplitMix::new(11);

    let genome = Genome::generate_genome(1, 1, vec![2], None, &config, &mut rng).unwrap();

    assert_eq!(genome.get_nodes().len(), 4);
    assert_eq!(genome.get_connections().len(), 4);
}

fn sigmoid_genome() -> Genome {
    let nodes = vec![
        Node::new(NeuronType::Input, 0, 0.0f32.to_bits(), None, Some(1)),
        Node::new(
            NeuronType::Hidden,
            2,
            0.5f32.to_bits(),
            Some(Activation::Sigmoid),
            Some(2),
        ),
        Node::new(
            NeuronType::Hidden,
            3,
            0.4f32.to_bits(),
            Some(Activation::Sigmoid),
            Some(3),
        ),
        Node::new(
            NeuronType::Output,
            1,
            0.3f32.to_bits(),
            Some(Activation::Sigmoid),
            Some(4),
        ),
    ];
    let connections = vec![
        Connection::new(0, 1, 0.9f32.to_bits()),
        Connection::new(0, 2, 0.7f32.to_bits()),
        Connection::new(0, 3, 0.5f32.to_bits()),
        Connection::new(2, 1, 0.3f32.to_bits()),
        Connection::new(3, 1, 0.1f32.to_bits()),
    ];
    Genome::new(nodes, connections).unwrap()
}

#[test]
fn genome_get_network() {
    let genome = sigmoid_genome();
    let network = genome.get_network();

    assert_eq!(activate(&network, vec![1.0]), vec![0.9996177]);
    assert_eq!(activate(&network, vec![1.2]), vec![0.9998430]);
    assert_eq!(activate(&network, vec![0.5]), vec![0.99639386]);
    assert_eq!(activate(&network, vec![0.1]), vec![0.977193]);
}

#[test]
fn genome_add_node() {
    let config = Config {
        node_bias: 1.0f32.to_bits(),
        node_max: 10,
        ..Config::default()
    };

    let nodes = vec![
        Node::new(NeuronType::Input, 0, 0.0f32.to_bits(), None, Some(1)),
        Node::new(NeuronType::Output, 1, (-0.3f32).to_bits(), None, Some(2)),
    ];
    let connections = vec![Connection::new(0, 1, 0.7f32.to_bits())];

    let genome = Genome::new(nodes, connections).unwrap();
    let mut rng = SplitMix::new(5);
    let new_genome = genome.mutate_add_node(&config, &mut rng).unwrap();

    assert_eq!(new_genome.get_nodes().len(), 3);
    assert_eq!(new_genome.get_connections().len(), 3);
}

#[test]
fn genome_mutate_connection_weight() {
    let config = Config {
        connection_weight_delta: 1.0f32.to_bits(),
        ..Config::default()
    };

    let nodes = vec![
        Node::new(NeuronType::Input, 0, 0f32.to_bits(), None, None),
        Node::new(NeuronType::Output, 1, (-0.3f32).to_bits(), None, None),
    ];
    let connections = vec![Connection::new(0, 1, 0.7f32.to_bits())];

    let genome = Genome::new(nodes, connections).unwrap();
    let mut rng = FixedDelta { delta: 0.25 };
    let new_genome = genome.mutate_connection_weight(&config, &mut rng).unwrap();

    assert_ne!(
        new_genome.get_connections().first().unwrap().get_weight(),
        0.7f32.to_bits()
    );
}

#[test]
fn genome_mutate_connection_enabled() {
    let nodes = vec![
        Node::new(NeuronType::Input, 0, 0f32.to_bits(), None, None),
        Node::new(NeuronType::Input, 1, 0f32.to_bits(), None, None),
        Node::new(NeuronType::Output, 2, 0f32.to_bits(), None, None),
    ];
    let connections = vec![
        Connection::new(0, 2, 0f32.to_bits()),
        Connection::new(1, 2, 0f32.to_bits()),
    ];

    let genome = Genome::new(nodes, connections).unwrap();
    let mut rng = SplitMix::new(3);
    let new_genome = genome.mutate_connection_enabled(&mut rng).unwrap();

    let mut enabled = 0;
    let mut disabled = 0;

    for con in new_genome.get_connections() {
        if con.get_enabled() {
            enabled += 1;
        } else {
            disabled += 1;
        }
    }

    assert_eq!(enabled, 1);
    assert_eq!(disabled, 1);
}

#[test]
fn genome_mutate_crossover() {
    let nodes = vec![
        Node::new(NeuronType::Input, 0, 0f32.to_bits(), None, None),
        Node::new(NeuronType::Input, 1, 0f32.to_bits(), None, None),
        Node::new(NeuronType::Hidden, 2, 0f32.to_bits(), None, None),
        Node::new(NeuronType::Output, 3, 0f32.to_bits(), None, None),
    ];
    let connections = vec![
        Connection::new(0, 3, 0f32.to_bits()),
        Connection::new(1, 3, 0f32.to_bits()),
        Connection::new(0, 2, 0f32.to_bits()),
        Connection::new(2, 3, 0f32.to_bits()),
    ];

    let genome = Genome::new(nodes, connections).unwrap();

    let nodes = vec![
        Node::new(NeuronType::Input, 0, 0f32.to_bits(), None, None),
        Node::new(NeuronType::Input, 1, 0f32.to_bits(), None, None),
        Node::new(NeuronType::Hidden, 3, 0f32.to_bits(), None, None),
        Node::new(NeuronType::Output, 4, 0f32.to_bits(), None, None),
    ];
    let connections = vec![
        Connection::new(0, 4, 0f32.to_bits()),
        Connection::new(1, 4, 0f32.to_bits()),
        Connection::new(1, 3, 0f32.to_bits()),
        Connection::new(3, 4, 0f32.to_bits()),
    ];

    let child_genome = Genome::new(nodes, connections).unwrap();

    let new_genome = genome.mutate_crossover(&child_genome).unwrap();

    assert_eq!(new_genome.get_connections().len(), 7);
    assert_eq!(new_genome.get_nodes().len(), 5);
}

#[test]
fn genome_get_distance() {
    let nodes = vec![
        Node::new(NeuronType::Input, 0, 0f32.to_bits(), None, None),
        Node::new(NeuronType::Input, 1, 0f32.to_bits(), None, None),
        Node::new(NeuronType::Hidden, 2, 0f32.to_bits(), None, None),
        Node::new(NeuronType::Output, 3, 0f32.to_bits(), None, None),
    ];
    let connections = vec![
        Connection::new(0, 3, 0f32.to_bits()),
        Connection::new(1, 3, 0f32.to_bits()),
        Connection::new(0, 2, 0f32.to_bits()),
        Connection::new(2, 3, 0f32.to_bits()),
    ];

    let genome = Genome::new(nodes, connections).unwrap();

    let nodes = vec![
        Node::new(NeuronType::Input, 0, 0f32.to_bits(), None, None),
        Node::new(NeuronType::Input, 1, 0f32.to_bits(), None, None),
        Node::new(NeuronType::Hidden, 2, 0f32.to_bits(), None, None),
        Node::new(NeuronType::Output, 3, 0f32.to_bits(), None, None),
    ];
    let connections = vec![
        Connection::new(0, 3, 0f32.to_bits()),
        Connection::new(1, 3, 0f32.to_bits()),
        Connection::new(1, 2, 0f32.to_bits()),
        Connection::new(2, 3, 0f32.to_bits()),
    ];

    let child_genome = Genome::new(nodes, connections).unwrap();

    assert_eq!(genome.get_distance(&child_genome), 0);

    let nodes = vec![
        Node::new(NeuronType::Input, 0, 0f32.to_bits(), None, None),
        Node::new(NeuronType::Input, 1, 0f32.to_bits(), None, None),
        Node::new(NeuronType::Hidden, 2, 0f32.to_bits(), None, None),
        Node::new(NeuronType::Hidden, 3, 0f32.to_bits(), None, None),
        Node::new(NeuronType::Output, 4, 0f32.to_bits(), None, None),
    ];
    let connections = vec![
        Connection::new(0, 4, 0f32.to_bits()),
        Connection::new(1, 4, 0f32.to_bits()),
        Connection::new(1, 2, 0f32.to_bits()),
        Connection::new(2, 4, 0f32.to_bits()),
        Connection::new(1, 3, 0f32.to_bits()),
        Connection::new(3, 4, 0f32.to_bits()),
    ];

    let child_genome = Genome::new(nodes, connections).unwrap();

    assert_eq!(genome.get_distance(&child_genome), 1);
}
