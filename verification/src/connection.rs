//! A directed, weighted, enable-flagged edge between two node identifiers.

use vstd::prelude::*;

use crate::node::pack_info;

verus! {

/// A directed edge of a genome. Its identity key is the ordered pair
/// `(from, to)`; the weight is the bit pattern of an IEEE single-precision
/// value and is never interpreted by the library.
#[derive(Debug, Clone, Copy)]
pub struct Connection {
    pub from: u32,
    pub to: u32,
    pub weight: u32,
    pub enabled: bool,
}

impl Connection {
    pub open spec fn from_spec(self) -> u32 {
        self.from
    }

    pub open spec fn to_spec(self) -> u32 {
        self.to
    }

    pub open spec fn weight_spec(self) -> u32 {
        self.weight
    }

    pub open spec fn enabled_spec(self) -> bool {
        self.enabled
    }

    /// The identity key of the connection.
    pub open spec fn key_spec(self) -> (u32, u32) {
        (self.from, self.to)
    }

    /// A connection equal to `self` except for its weight word.
    pub open spec fn with_weight_spec(self, weight: u32) -> Connection {
        Connection { weight, ..self }
    }

    /// A connection equal to `self` except for its enabled flag.
    pub open spec fn with_enabled_spec(self, enabled: bool) -> Connection {
        Connection { enabled, ..self }
    }

    /// Creates an enabled connection between two nodes with a given weight
    /// word.
    pub fn new(from: u32, to: u32, weight: u32) -> (r: Connection)
        ensures
            r.from_spec() == from,
            r.to_spec() == to,
            r.weight_spec() == weight,
            r.enabled_spec(),
    {
        Connection { from, to, weight, enabled: true }
    }

    /// Flips the enabled flag.
    pub fn toggle_enabled(&mut self)
        ensures
            *final(self) == old(self).with_enabled_spec(!old(self).enabled_spec()),
    {
        self.enabled = !self.enabled;
    }

    /// Sets the enabled flag.
    pub fn set_enabled(&mut self, enabled: bool)
        ensures
            *final(self) == old(self).with_enabled_spec(enabled),
    {
        self.enabled = enabled;
    }

    /// Returns whether the connection is enabled.
    pub fn get_enabled(&self) -> (r: bool)
        ensures
            r == self.enabled_spec(),
    {
        self.enabled
    }

    /// Returns the identity key `(from, to)` of the connection.
    pub fn get_id(&self) -> (r: (u32, u32))
        ensures
            r == self.key_spec(),
    {
        (self.from, self.to)
    }

    /// Returns the source node id.
    pub fn get_from(&self) -> (r: u32)
        ensures
            r == self.from_spec(),
    {
        self.from
    }

    /// Returns the target node id.
    pub fn get_to(&self) -> (r: u32)
        ensures
            r == self.to_spec(),
    {
        self.to
    }

    /// Returns the weight word.
    pub fn get_weight(&self) -> (r: u32)
        ensures
            r == self.weight_spec(),
    {
        self.weight
    }

    /// Sets the weight word.
    pub fn set_weight(&mut self, weight: u32)
        ensures
            *final(self) == old(self).with_weight_spec(weight),
    {
        self.weight = weight;
    }

    /// The four words of the connection's flat encoding: source, target,
    /// weight word, and the packed info word.
    pub open spec fn encode_spec(self) -> Seq<u32> {
        seq![self.from, self.to, self.weight, pack_info(self.enabled, 0, 0)]
    }

    /// The connection encoded by four words.
    pub open spec fn decode_spec(w: Seq<u32>) -> Connection {
        Connection { from: w[0], to: w[1], weight: w[2], enabled: (w[3] & 0xFF) == 1 }
    }

    /// Converts the connection to its four flat words.
    pub fn to_weights(&self) -> (r: Vec<u32>)
        ensures
            r@ == self.encode_spec(),
    {
        let enabled: u32 = if self.enabled {
            1
        } else {
            0
        };
        let mut out: Vec<u32> = Vec::new();
        out.push(self.from);
        out.push(self.to);
        out.push(self.weight);
        out.push(enabled);
        proof {
            crate::node::lemma_pack_info_round_trip(self.enabled, 0, 0);
            assert(pack_info(self.enabled, 0, 0) == enabled) by {
                assert((0u32 << 8u32) == 0 && (0u32 << 16u32) == 0 && (enabled | 0 | 0)
                    == enabled) by (bit_vector)
                    requires
                        enabled <= 1,
                ;
            }
            assert(out@ =~= self.encode_spec());
        }
        out
    }

    /// Reads a connection from the four words at `at`.
    pub fn from_weights(words: &Vec<u32>, at: usize) -> (r: Connection)
        requires
            at + 4 <= words@.len(),
        ensures
            r == Connection::decode_spec(words@.subrange(at as int, at + 4int)),
    {
        let n = words.len();
        let info = words[at + 3];
        let r = Connection {
            from: words[at],
            to: words[at + 1],
            weight: words[at + 2],
            enabled: (info & 0xFF) == 1,
        };
        proof {
            assert(words@.subrange(at as int, at + 4int)[0] == words@[at as int]);
        }
        r
    }
}

/// A connection round-trips through its four flat words.
pub proof fn lemma_connection_round_trip(c: Connection)
    ensures
        Connection::decode_spec(c.encode_spec()) == c,
{
    crate::node::lemma_pack_info_round_trip(c.enabled, 0, 0);
}

} // verus!
