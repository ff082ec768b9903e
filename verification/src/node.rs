//! A vertex of a genome: identifier, role, bias word, activation choice,
//! enabled flag, and the position assigned by topological sorting.

use vstd::prelude::*;

use crate::activation::Activation;
use crate::neuron_type::NeuronType;

verus! {

/// A node of a genome. The bias is the bit pattern of an IEEE
/// single-precision value and is never interpreted by the library;
/// `position` is assigned only by topological sorting and is otherwise
/// undefined.
#[derive(Debug, Clone, Copy)]
pub struct Node {
    pub id: u32,
    pub bias: u32,
    pub enabled: bool,
    pub activation: Activation,
    pub neuron_type: NeuronType,
    pub position: Option<u32>,
}

impl Node {
    pub open spec fn id_spec(self) -> u32 {
        self.id
    }

    pub open spec fn bias_spec(self) -> u32 {
        self.bias
    }

    pub open spec fn enabled_spec(self) -> bool {
        self.enabled
    }

    pub open spec fn activation_spec(self) -> Activation {
        self.activation
    }

    pub open spec fn neuron_type_spec(self) -> NeuronType {
        self.neuron_type
    }

    pub open spec fn position_opt_spec(self) -> Option<u32> {
        self.position
    }

    /// The assigned position, or zero where none was assigned yet.
    pub open spec fn position_spec(self) -> u32 {
        match self.position {
            Some(p) => p,
            None => 0,
        }
    }

    /// A node equal to `self` except for its position.
    pub open spec fn with_position_spec(self, position: u32) -> Node {
        Node { position: Some(position), ..self }
    }

    /// A node equal to `self` except for its bias word.
    pub open spec fn with_bias_spec(self, bias: u32) -> Node {
        Node { bias, ..self }
    }

    /// A node equal to `self` except for its activation choice.
    pub open spec fn with_activation_spec(self, activation: Activation) -> Node {
        Node { activation, ..self }
    }

    /// A node equal to `self` except for its enabled flag.
    pub open spec fn with_enabled_spec(self, enabled: bool) -> Node {
        Node { enabled, ..self }
    }

    /// Creates an enabled node with the given parameters; a missing
    /// activation defaults to `Identity`.
    pub fn new(
        neuron_type: NeuronType,
        id: u32,
        bias: u32,
        activation: Option<Activation>,
        position: Option<u32>,
    ) -> (r: Node)
        ensures
            r.id_spec() == id,
            r.bias_spec() == bias,
            r.enabled_spec(),
            r.neuron_type_spec() == neuron_type,
            r.position_opt_spec() == position,
            r.activation_spec() == (match activation {
                Some(a) => a,
                None => Activation::Identity,
            }),
    {
        let act = match activation {
            Some(a) => a,
            None => Activation::Identity,
        };
        Node { id, neuron_type, enabled: true, position, bias, activation: act }
    }

    /// Returns the assigned position, or zero where none was assigned.
    pub fn get_position(&self) -> (r: u32)
        ensures
            r == self.position_spec(),
    {
        match self.position {
            Some(p) => p,
            None => 0,
        }
    }

    /// Assigns the position.
    pub fn set_position(&mut self, position: u32)
        ensures
            *final(self) == old(self).with_position_spec(position),
    {
        self.position = Some(position);
    }

    /// Returns the node's identifier.
    pub fn get_id(&self) -> (r: u32)
        ensures
            r == self.id_spec(),
    {
        self.id
    }

    /// Returns the node's role.
    pub fn get_type(&self) -> (r: NeuronType)
        ensures
            r == self.neuron_type_spec(),
    {
        self.neuron_type
    }

    /// Sets the bias word.
    pub fn set_bias(&mut self, bias: u32)
        ensures
            *final(self) == old(self).with_bias_spec(bias),
    {
        self.bias = bias;
    }

    /// Returns the bias word.
    pub fn get_bias(&self) -> (r: u32)
        ensures
            r == self.bias_spec(),
    {
        self.bias
    }

    /// Sets the activation choice.
    pub fn set_activation(&mut self, activation: Activation)
        ensures
            *final(self) == old(self).with_activation_spec(activation),
    {
        self.activation = activation;
    }

    /// Returns the activation choice.
    pub fn get_activation(&self) -> (r: Activation)
        ensures
            r == self.activation_spec(),
    {
        self.activation
    }

    /// Flips the enabled flag.
    pub fn toggle_enabled(&mut self)
        ensures
            *final(self) == old(self).with_enabled_spec(!old(self).enabled_spec()),
    {
        self.enabled = !self.enabled;
    }

    /// Returns whether the node is enabled.
    pub fn get_enabled(&self) -> (r: bool)
        ensures
            r == self.enabled_spec(),
    {
        self.enabled
    }

    /// The four words of the node's flat encoding: identifier, bias
    /// word, position (zero when unassigned), and the packed info word.
    pub open spec fn encode_spec(self) -> Seq<u32> {
        seq![
            self.id,
            self.bias,
            self.position_spec(),
            pack_info(self.enabled, self.activation.to_bytes_spec(), self.neuron_type.to_bytes_spec()),
        ]
    }

    /// The node encoded by four words.
    pub open spec fn decode_spec(w: Seq<u32>) -> Node {
        Node {
            id: w[0],
            bias: w[1],
            position: Some(w[2]),
            enabled: (w[3] & 0xFF) == 1,
            activation: Activation::from_bytes_spec(((w[3] >> 8u32) & 0xFF) as u8),
            neuron_type: NeuronType::from_bytes_spec(((w[3] >> 16u32) & 0xFF) as u8),
        }
    }

    /// Converts the node to its four flat words.
    pub fn to_weights(&self) -> (r: Vec<u32>)
        ensures
            r@ == self.encode_spec(),
    {
        let enabled: u32 = if self.enabled {
            1
        } else {
            0
        };
        let info = enabled | ((self.activation.to_bytes() as u32) << 8u32) | ((
        self.neuron_type.to_bytes() as u32) << 16u32);
        let mut out: Vec<u32> = Vec::new();
        out.push(self.id);
        out.push(self.bias);
        out.push(self.get_position());
        out.push(info);
        proof {
            assert(out@ =~= self.encode_spec());
        }
        out
    }

    /// Reads a node from the four words at `at`.
    pub fn from_weights(words: &Vec<u32>, at: usize) -> (r: Node)
        requires
            at + 4 <= words@.len(),
        ensures
            r == Node::decode_spec(words@.subrange(at as int, at + 4int)),
    {
        let n = words.len();
        let info = words[at + 3];
        let r = Node {
            id: words[at],
            bias: words[at + 1],
            position: Some(words[at + 2]),
            enabled: (info & 0xFF) == 1,
            activation: Activation::from_bytes(#[verifier::truncate] (((info >> 8u32) & 0xFF) as u8)),
            neuron_type: NeuronType::from_bytes(#[verifier::truncate] (((info >> 16u32) & 0xFF) as u8)),
        };
        proof {
            assert(words@.subrange(at as int, at + 4int)[0] == words@[at as int]);
        }
        r
    }
}

/// The packed info word of the flat encoding: the enabled flag in the
/// low byte, the activation id in the second byte, the role id in the
/// third.
pub open spec fn pack_info(enabled: bool, act: u8, ty: u8) -> u32 {
    (if enabled {
        1u32
    } else {
        0u32
    }) | ((act as u32) << 8u32) | ((ty as u32) << 16u32)
}

/// Unpacking the info word recovers what was packed, for the byte-sized
/// ids the encoders produce.
pub proof fn lemma_pack_info_round_trip(enabled: bool, act: u8, ty: u8)
    requires
        act <= 0xFF,
        ty <= 0xFF,
    ensures
        (pack_info(enabled, act, ty) & 0xFF) == (if enabled {
            1u32
        } else {
            0u32
        }),
        ((pack_info(enabled, act, ty) >> 8u32) & 0xFF) == act,
        ((pack_info(enabled, act, ty) >> 16u32) & 0xFF) == ty,
{
    let e: u32 = if enabled {
        1
    } else {
        0
    };
    let a = act as u32;
    let t = ty as u32;
    assert(((e | (a << 8u32) | (t << 16u32)) & 0xFF) == e && (((e | (a << 8u32) | (t << 16u32))
        >> 8u32) & 0xFF) == a && (((e | (a << 8u32) | (t << 16u32)) >> 16u32) & 0xFF) == t)
        by (bit_vector)
        requires
            e <= 1,
            a <= 0xFF,
            t <= 0xFF,
    ;
}

/// A node with an assigned position round-trips through its four flat
/// words.
pub proof fn lemma_node_round_trip(nd: Node)
    requires
        nd.position is Some,
    ensures
        Node::decode_spec(nd.encode_spec()) == nd,
{
    lemma_pack_info_round_trip(
        nd.enabled,
        nd.activation.to_bytes_spec(),
        nd.neuron_type.to_bytes_spec(),
    );
    crate::activation::lemma_activation_bytes_round_trip(nd.activation);
    crate::neuron_type::lemma_neuron_type_bytes_round_trip(nd.neuron_type);
}

} // verus!
