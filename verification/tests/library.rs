use neuro_neat::activation::Activation;
use neuro_neat::config::Config;
use neuro_neat::connection::Connection;
use neuro_neat::fitness::FitnessTrait;
use neuro_neat::genome::Genome;
use neuro_neat::levenshtein::levenshtein;
use neuro_neat::node::Node;
use neuro_neat::neuron_type::NeuronType;
use neuro_neat::organism::Organism;
use neuro_neat::organism_trait::OrganismTrait;
use neuro_neat::population::Population;
use neuro_neat::genome::GenomeError;
use neuro_neat::rng::{get_random_position, get_random_range, SplitMix};

#[test]
fn levenshtein_it_works() {
    // The letter sequences of "kitten" / "smitten" / "fitting", with each
    // distinct letter encoded as a distinct number.
    let kitten = vec![0, 1, 2, 2, 3, 4];
    let smitten = vec![5, 6, 1, 2, 2, 3, 4];
    let fitting = vec![7, 1, 2, 2, 1, 4, 8];

    let distance = levenshtein(kitten.clone(), smitten);
    assert_eq!(distance.unwrap(), 2);

    let distance = levenshtein(kitten, fitting);
    assert_eq!(distance.unwrap(), 3);
}

#[test]
fn activation_bytes_round_trip() {
    for a in Activation::to_vec() {
        let b = a.to_bytes();
        assert_eq!(Activation::from_bytes(b).to_bytes(), b);
    }
    assert_eq!(Activation::from_bytes(0).to_bytes(), Activation::Identity.to_bytes());
    assert_eq!(Activation::from_bytes(200).to_bytes(), Activation::Identity.to_bytes());
}

#[test]
fn neuron_type_bytes_round_trip() {
    let all = [
        NeuronType::Input,
        NeuronType::Hidden,
        NeuronType::Output,
        NeuronType::Unknown,
    ];
    for t in all {
        let b = t.to_bytes();
        assert_eq!(NeuronType::from_bytes(b).to_bytes(), b);
    }
    assert_eq!(NeuronType::from_bytes(77).to_bytes(), NeuronType::Unknown.to_bytes());
}

#[test]
fn config_default_values() {
    let config = Config::default();
    assert_eq!(config.add_node, 150000);
    assert_eq!(config.add_connection, 150000);
    assert_eq!(config.crossover, 300000);
    assert_eq!(config.connection_weight, 1.0f32.to_bits());
    assert_eq!(config.connection_weight_delta, 0.1f32.to_bits());
    assert_eq!(config.connection_weight_iter, 5);
    assert_eq!(config.node_bias, 1.0f32.to_bits());
    assert_eq!(config.node_bias_delta, 0.1f32.to_bits());
    assert_eq!(config.connection_max, 10000);
    assert_eq!(config.node_max, 1000);
    assert_eq!(config.node_enabled, 500000);
}

#[test]
fn random_draws_stay_in_range() {
    for _ in 0..100 {
        assert!(get_random_position(5) < 5);
        let v = get_random_range(10, 20);
        assert!((10..20).contains(&v));
    }
}

#[test]
fn splitmix_is_reproducible() {
    let mut a = SplitMix::new(42);
    let mut b = SplitMix::new(42);
    for _ in 0..16 {
        assert_eq!(a.next_word(), b.next_word());
    }
}

fn fully_connected(inputs: usize, outputs: usize) -> Genome {
    let config = Config::default();
    let mut rng = SplitMix::new(9);
    Genome::generate_genome(inputs, outputs, vec![], None, &config, &mut rng).unwrap()
}

#[test]
fn generated_genome_is_fully_connected() {
    let config = Config::default();
    let genome = fully_connected(3, 2);

    assert_eq!(genome.get_nodes().len(), 5);
    assert_eq!(genome.get_connections().len(), 6);

    for i in 0..3u32 {
        for o in 0..2usize {
            let out_id = (config.node_max - 2 + o) as u32;
            assert!(genome
                .get_connections()
                .iter()
                .any(|c| c.get_from() == i && c.get_to() == out_id && c.get_enabled()));
        }
    }
}

#[test]
fn sorted_positions_form_permutation() {
    let nodes = vec![
        Node::new(NeuronType::Input, 0, 0, None, None),
        Node::new(NeuronType::Hidden, 2, 0, None, None),
        Node::new(NeuronType::Hidden, 3, 0, None, None),
        Node::new(NeuronType::Output, 1, 0, None, None),
    ];
    let connections = vec![
        Connection::new(0, 1, 0),
        Connection::new(0, 2, 0),
        Connection::new(0, 3, 0),
        Connection::new(2, 1, 0),
        Connection::new(3, 1, 0),
    ];
    let genome = Genome::new(nodes, connections).unwrap();

    let nodes = genome.get_nodes();
    let mut seen = vec![false; nodes.len()];
    for node in &nodes {
        let p = node.get_position() as usize;
        assert!(p < nodes.len());
        assert!(!seen[p]);
        seen[p] = true;
    }

    let pos_of = |id: u32| {
        nodes
            .iter()
            .find(|n| n.get_id() == id)
            .map(|n| n.get_position())
            .unwrap()
    };
    for conn in genome.get_connections() {
        if conn.get_enabled() {
            assert!(pos_of(conn.get_from()) < pos_of(conn.get_to()));
        }
    }
}

#[test]
fn distance_of_genome_to_itself_is_zero() {
    let genome = fully_connected(2, 1);
    assert_eq!(genome.get_distance(&genome), 0);
}

#[test]
fn distance_is_symmetric() {
    let a = {
        let nodes = vec![
            Node::new(NeuronType::Input, 0, 0, None, None),
            Node::new(NeuronType::Hidden, 5, 0, None, None),
            Node::new(NeuronType::Output, 1, 0, None, None),
        ];
        let conns = vec![Connection::new(0, 1, 0)];
        Genome::new(nodes, conns).unwrap()
    };
    let b = {
        let nodes = vec![
            Node::new(NeuronType::Input, 0, 0, None, None),
            Node::new(NeuronType::Hidden, 5, 0, None, None),
            Node::new(NeuronType::Hidden, 7, 0, None, None),
            Node::new(NeuronType::Output, 1, 0, None, None),
        ];
        let conns = vec![Connection::new(0, 1, 0)];
        Genome::new(nodes, conns).unwrap()
    };
    assert_eq!(a.get_distance(&b), b.get_distance(&a));
    assert_eq!(a.get_distance(&b), 1);
}

/// Scores an organism by how many connections its genome holds.
struct ConnectionCount;

impl FitnessTrait<Organism> for ConnectionCount {
    fn calculate(&self, organism: &Organism) -> u32 {
        (organism.genome.get_connections().len() as f32).to_bits()
    }
}

#[test]
fn population_insert_and_len() {
    let mut population: Population<Config, Organism> = Population::new(3, Config::default());
    assert!(population.is_empty());
    population.add_organism(Organism::new(fully_connected(2, 1)));
    assert_eq!(population.len(), 1);
    assert!(!population.is_empty());
}

#[test]
fn epoch_respects_capacity_and_returns_best() {
    let capacity = 3;
    let mut population: Population<Config, Organism> = Population::new(capacity, Config::default());
    for _ in 0..capacity {
        population.add_organism(Organism::new(fully_connected(2, 1)));
    }
    let dataset = ConnectionCount;
    let mut rng = SplitMix::new(77);

    for _ in 0..4 {
        let best = population.epoch(&dataset, &mut rng);
        let best = best.expect("a non-empty population has a best organism");
        assert!(best.get_stagnation() >= 1);
        let best_fitness = f32::from_bits(best.get_fitness());
        assert!(best_fitness >= 2.0);
        assert_eq!(population.len(), capacity);
    }
}

#[test]
fn organism_caches_sorted_genotype() {
    let nodes = vec![
        Node::new(NeuronType::Input, 0, 0, None, None),
        Node::new(NeuronType::Hidden, 9, 0, None, None),
        Node::new(NeuronType::Hidden, 4, 0, None, None),
        Node::new(NeuronType::Output, 1, 0, None, None),
    ];
    let conns = vec![Connection::new(0, 1, 0)];
    let organism = Organism::new(Genome::new(nodes, conns).unwrap());
    assert_eq!(organism.get_genotype(), vec![4, 9]);
}

#[test]
fn add_node_rejects_full_genome() {
    let config = Config {
        node_max: 2,
        ..Config::default()
    };
    let genome = {
        let nodes = vec![
            Node::new(NeuronType::Input, 0, 0, None, None),
            Node::new(NeuronType::Output, 1, 0, None, None),
        ];
        let conns = vec![Connection::new(0, 1, 0)];
        Genome::new(nodes, conns).unwrap()
    };
    let mut rng = SplitMix::new(1);
    let r = genome.mutate_add_node(&config, &mut rng);
    assert!(matches!(r, Err(neuro_neat::genome::GenomeError::MaxNodes)));
}

#[test]
fn weights_round_trip() {
    let nodes = vec![
        Node::new(NeuronType::Input, 0, 0.25f32.to_bits(), None, None),
        Node::new(NeuronType::Hidden, 2, 0.5f32.to_bits(), Some(Activation::Relu), None),
        Node::new(NeuronType::Output, 1, (-0.75f32).to_bits(), Some(Activation::Tanh), None),
    ];
    let conns = vec![
        Connection::new(0, 2, 0.9f32.to_bits()),
        Connection::new(2, 1, (-0.1f32).to_bits()),
    ];
    let genome = Genome::new(nodes, conns).unwrap();

    let words = genome.to_weights();
    assert_eq!(words.len(), 6 + 4 * 3 + 4 * 2);
    assert_eq!(&words[..6], &[1, 1, 1, 1, 3, 2]);

    let decoded = Genome::from_weights(&words).unwrap();
    assert_eq!(decoded.get_nodes().len(), 3);
    assert_eq!(decoded.get_connections().len(), 2);
    for (a, b) in genome.get_nodes().iter().zip(decoded.get_nodes().iter()) {
        assert_eq!(a.get_id(), b.get_id());
        assert_eq!(a.get_bias(), b.get_bias());
        assert_eq!(a.get_position(), b.get_position());
        assert_eq!(a.get_enabled(), b.get_enabled());
        assert_eq!(a.get_activation().to_bytes(), b.get_activation().to_bytes());
        assert_eq!(a.get_type().to_bytes(), b.get_type().to_bytes());
    }
    for (a, b) in genome.get_connections().iter().zip(decoded.get_connections().iter()) {
        assert_eq!(a.get_from(), b.get_from());
        assert_eq!(a.get_to(), b.get_to());
        assert_eq!(a.get_weight(), b.get_weight());
        assert_eq!(a.get_enabled(), b.get_enabled());
    }
}

#[test]
fn weights_reject_bad_streams() {
    let genome = fully_connected(2, 1);
    let words = genome.to_weights();

    let mut truncated = words.clone();
    truncated.pop();
    assert_eq!(Genome::from_weights(&truncated).unwrap_err(), GenomeError::DecodeMismatch);

    let mut too_long = words.clone();
    too_long.push(0);
    assert_eq!(Genome::from_weights(&too_long).unwrap_err(), GenomeError::DecodeMismatch);

    let mut bad_tag = words.clone();
    bad_tag[0] = 2;
    assert_eq!(Genome::from_weights(&bad_tag).unwrap_err(), GenomeError::DecodeMismatch);

    assert!(Genome::from_weights(&words).is_ok());
}

#[test]
fn mutate_with_zero_probabilities_is_identity() {
    let config = Config {
        add_node: 0,
        add_connection: 0,
        crossover: 0,
        connection_enabled: 0,
        connection_weight_prob: 0,
        node_enabled: 0,
        node_bias_prob: 0,
        node_activation_prob: 0,
        ..Config::default()
    };
    let genome = fully_connected(2, 2);
    let mate = fully_connected(2, 2);
    let mut rng = SplitMix::new(31);

    let out = genome.mutate(Some(&mate), &config, &mut rng).unwrap();

    assert_eq!(out.get_nodes().len(), genome.get_nodes().len());
    assert_eq!(out.get_connections().len(), genome.get_connections().len());
    for (a, b) in genome.get_nodes().iter().zip(out.get_nodes().iter()) {
        assert_eq!(a.get_id(), b.get_id());
        assert_eq!(a.get_bias(), b.get_bias());
        assert_eq!(a.get_enabled(), b.get_enabled());
    }
    for (a, b) in genome.get_connections().iter().zip(out.get_connections().iter()) {
        assert_eq!(a.get_id(), b.get_id());
        assert_eq!(a.get_weight(), b.get_weight());
        assert_eq!(a.get_enabled(), b.get_enabled());
    }
}

#[test]
fn add_organism_respects_capacity() {
    let mut population: Population<Config, Organism> = Population::new(2, Config::default());
    for _ in 0..4 {
        population.add_organism(Organism::new(fully_connected(2, 1)));
    }
    assert_eq!(population.len(), 2);
}

#[test]
fn sort_orders_groups_by_prior_position() {
    // The stored positions disagree with the collection order: the input
    // at index 1 and the output at index 3 come first in prior order.
    let nodes = vec![
        Node::new(NeuronType::Input, 0, 0, None, Some(9)),
        Node::new(NeuronType::Input, 1, 0, None, Some(2)),
        Node::new(NeuronType::Output, 2, 0, None, Some(7)),
        Node::new(NeuronType::Output, 3, 0, None, Some(1)),
    ];
    let genome = Genome::new(nodes, vec![]).unwrap();

    let sorted = genome.get_nodes();
    let pos_of = |id: u32| {
        sorted
            .iter()
            .find(|n| n.get_id() == id)
            .map(|n| n.get_position())
            .unwrap()
    };
    assert_eq!(pos_of(1), 0);
    assert_eq!(pos_of(0), 1);
    assert_eq!(pos_of(3), 2);
    assert_eq!(pos_of(2), 3);
}
