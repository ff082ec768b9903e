//! The fixed set of named nonlinearities a node can apply, together with
//! the stable numeric id used by the flat binary encoding.
//!
//! The numeric transform itself operates on IEEE single-precision values
//! and is applied by the caller that evaluates a compiled network; the
//! library only carries the choice of nonlinearity.

use vstd::prelude::*;

verus! {

/// A named nonlinearity. The variant only selects the transform; the
/// transform itself is applied outside the library.
#[derive(Debug, Clone, Copy, PartialEq, Eq, Structural)]
pub enum Activation {
    Sigmoid,
    Tanh,
    Identity,
    Step,
    Relu,
    SoftSign,
    Sinusoid,
    Gaussian,
    Selu,
}

impl Activation {
    /// Every activation, in declaration order, for uniform choice by index.
    pub fn to_vec() -> (r: Vec<Activation>)
        ensures
            r@.len() == 9,
            r@[0] == Activation::Sigmoid,
            r@[1] == Activation::Tanh,
            r@[2] == Activation::Identity,
            r@[3] == Activation::Step,
            r@[4] == Activation::Relu,
            r@[5] == Activation::SoftSign,
            r@[6] == Activation::Sinusoid,
            r@[7] == Activation::Gaussian,
            r@[8] == Activation::Selu,
    {
        let mut v: Vec<Activation> = Vec::new();
        v.push(Activation::Sigmoid);
        v.push(Activation::Tanh);
        v.push(Activation::Identity);
        v.push(Activation::Step);
        v.push(Activation::Relu);
        v.push(Activation::SoftSign);
        v.push(Activation::Sinusoid);
        v.push(Activation::Gaussian);
        v.push(Activation::Selu);
        v
    }

    /// The stable id of an activation in the binary encoding.
    pub open spec fn to_bytes_spec(self) -> u8 {
        match self {
            Activation::Sigmoid => 1,
            Activation::Tanh => 2,
            Activation::Identity => 3,
            Activation::Step => 4,
            Activation::Relu => 5,
            Activation::SoftSign => 6,
            Activation::Sinusoid => 7,
            Activation::Gaussian => 8,
            Activation::Selu => 9,
        }
    }

    /// The activation encoded by a byte; unknown bytes decode to `Identity`.
    pub open spec fn from_bytes_spec(byte: u8) -> Activation {
        match byte {
            1u8 => Activation::Sigmoid,
            2u8 => Activation::Tanh,
            3u8 => Activation::Identity,
            4u8 => Activation::Step,
            5u8 => Activation::Relu,
            6u8 => Activation::SoftSign,
            7u8 => Activation::Sinusoid,
            8u8 => Activation::Gaussian,
            9u8 => Activation::Selu,
            _ => Activation::Identity,
        }
    }

    /// Converts the activation to its stable byte id.
    pub fn to_bytes(&self) -> (r: u8)
        ensures
            r == self.to_bytes_spec(),
            1 <= r <= 9,
    {
        match self {
            Activation::Sigmoid => 1,
            Activation::Tanh => 2,
            Activation::Identity => 3,
            Activation::Step => 4,
            Activation::Relu => 5,
            Activation::SoftSign => 6,
            Activation::Sinusoid => 7,
            Activation::Gaussian => 8,
            Activation::Selu => 9,
        }
    }

    /// Creates an activation from its byte id.
    pub fn from_bytes(byte: u8) -> (r: Activation)
        ensures
            r == Activation::from_bytes_spec(byte),
    {
        match byte {
            1 => Activation::Sigmoid,
            2 => Activation::Tanh,
            3 => Activation::Identity,
            4 => Activation::Step,
            5 => Activation::Relu,
            6 => Activation::SoftSign,
            7 => Activation::Sinusoid,
            8 => Activation::Gaussian,
            9 => Activation::Selu,
            _ => Activation::Identity,
        }
    }
}

/// The byte id round-trips: decoding the id of any activation yields that
/// same activation.
pub proof fn lemma_activation_bytes_round_trip(a: Activation)
    ensures
        Activation::from_bytes_spec(a.to_bytes_spec()) == a,
{
}

} // verus!
