//! The role of a node inside a network, and its stable byte id used by the
//! flat binary encoding.

use vstd::prelude::*;

verus! {

/// The role of a node. `Unknown` only arises when decoding a byte that
/// names no role.
#[derive(Debug, Clone, Copy, PartialEq, Eq, Structural)]
pub enum NeuronType {
    Input,
    Hidden,
    Output,
    Unknown,
}

impl NeuronType {
    /// The stable id of a role in the binary encoding.
    pub open spec fn to_bytes_spec(self) -> u8 {
        match self {
            NeuronType::Input => 1,
            NeuronType::Hidden => 2,
            NeuronType::Output => 3,
            NeuronType::Unknown => 0,
        }
    }

    /// The role encoded by a byte; unknown bytes decode to `Unknown`.
    pub open spec fn from_bytes_spec(byte: u8) -> NeuronType {
        match byte {
            1u8 => NeuronType::Input,
            2u8 => NeuronType::Hidden,
            3u8 => NeuronType::Output,
            _ => NeuronType::Unknown,
        }
    }

    /// Converts the role to its stable byte id.
    pub fn to_bytes(&self) -> (r: u8)
        ensures
            r == self.to_bytes_spec(),
            r <= 3,
    {
        match self {
            NeuronType::Input => 1,
            NeuronType::Hidden => 2,
            NeuronType::Output => 3,
            NeuronType::Unknown => 0,
        }
    }

    /// Creates a role from its byte id.
    pub fn from_bytes(byte: u8) -> (r: NeuronType)
        ensures
            r == NeuronType::from_bytes_spec(byte),
    {
        match byte {
            1 => NeuronType::Input,
            2 => NeuronType::Hidden,
            3 => NeuronType::Output,
            _ => NeuronType::Unknown,
        }
    }
}

/// The byte id round-trips: decoding the id of any role yields that role.
pub proof fn lemma_neuron_type_bytes_round_trip(t: NeuronType)
    ensures
        NeuronType::from_bytes_spec(t.to_bytes_spec()) == t,
{
}

} // verus!
