//! The evolvable graph encoding of a candidate network: an unordered
//! collection of nodes and of connections, cached input/output counts,
//! a topological ordering over the enabled connections, the structural
//! and behavioural mutation operators, crossover, genotype distance, and
//! the flat binary encoding.

use vstd::prelude::*;

use crate::activation::Activation;
use crate::connection::Connection;
use crate::neuron_type::NeuronType;
use crate::network::Link;
use crate::network::Network;
use crate::network::Neuron;
use crate::node::Node;
use vstd::multiset::Multiset;

verus! {

/// The typed failures of genome construction, sorting, mutation and
/// decoding.
#[derive(Debug, Clone, Copy, PartialEq, Eq, Structural)]
pub enum GenomeError {
    /// The node cap was reached; the mutation is a no-op.
    MaxNodes,
    /// The connection cap was reached; the mutation is a no-op.
    MaxConnections,
    /// The topological sort exceeded its progress ceiling.
    SortNodesStacked,
    /// No unused hidden node id was found, or no connection could be
    /// split.
    AddNodeNodeIdNotFound,
    /// No enabled connection was found to perturb.
    ConnectionWeightIndexNotFound,
    /// No connection was found to toggle.
    ConnectionEnabledApplicantNotFound,
    /// The node picked for a bias change vanished from the genome.
    NodeBiasPositionNotFound,
    /// No node was eligible for a bias change.
    NodeBiasApplicantNotFound,
    /// The node picked for an activation change vanished from the genome.
    NodeActivationPositionNotFound,
    /// No node was eligible for an activation change.
    NodeActivationApplicantNotFound,
    /// The node picked for an enabled toggle vanished from the genome.
    NodeEnabledPositionNotFound,
    /// No node was eligible for an enabled toggle.
    NodeEnabledApplicantNotFound,
    /// The flat encoding has a wrong tag or version, or a wrong length.
    DecodeMismatch,
}

/// Counts the nodes of role `t`.
pub open spec fn count_type(nodes: Seq<Node>, t: NeuronType) -> int
    decreases nodes.len(),
{
    if nodes.len() == 0 {
        0
    } else {
        count_type(nodes.drop_last(), t) + if nodes.last().neuron_type == t {
            1int
        } else {
            0int
        }
    }
}

/// Whether some node carries the identifier `id`.
pub open spec fn has_id(nodes: Seq<Node>, id: u32) -> bool {
    exists|i: int| 0 <= i < nodes.len() && nodes[i].id == id
}

/// Whether the node identifiers are pairwise distinct.
pub open spec fn nodes_distinct(nodes: Seq<Node>) -> bool {
    forall|i: int, j: int|
        0 <= i < j < nodes.len() ==> nodes[i].id != nodes[j].id
}

/// Whether the connection identity keys `(from, to)` are pairwise
/// distinct.
pub open spec fn conns_distinct(conns: Seq<Connection>) -> bool {
    forall|i: int, j: int|
        0 <= i < j < conns.len() ==> (conns[i].from != conns[j].from || conns[i].to
            != conns[j].to)
}

/// Whether some connection carries the identity key `(from, to)`.
pub open spec fn has_conn_key(conns: Seq<Connection>, from: u32, to: u32) -> bool {
    exists|i: int| 0 <= i < conns.len() && conns[i].from == from && conns[i].to == to
}

/// Whether two nodes agree on every field but the position.
pub open spec fn eq_mod_position(a: Node, b: Node) -> bool {
    &&& a.id == b.id
    &&& a.bias == b.bias
    &&& a.enabled == b.enabled
    &&& a.activation == b.activation
    &&& a.neuron_type == b.neuron_type
}

/// Whether two node collections agree pointwise on every field but the
/// positions.
pub open spec fn nodes_eq_mod_position(a: Seq<Node>, b: Seq<Node>) -> bool {
    &&& a.len() == b.len()
    &&& forall|i: int| 0 <= i < a.len() ==> eq_mod_position(#[trigger] a[i], #[trigger] b[i])
}

/// The evolvable graph encoding. `inputs` and `outputs` cache the counts
/// of `Input`- and `Output`-typed nodes.
#[derive(Debug, Clone)]
pub struct Genome {
    pub connections: Vec<Connection>,
    pub nodes: Vec<Node>,
    pub inputs: u32,
    pub outputs: u32,
}

impl Genome {
    /// Whether the cached input/output counts match the node collection.
    pub open spec fn counts_ok(self) -> bool {
        &&& self.inputs == count_type(self.nodes@, NeuronType::Input)
        &&& self.outputs == count_type(self.nodes@, NeuronType::Output)
    }

    /// Whether every node holds an assigned position and the positions
    /// form a permutation of `0..node_count`.
    pub open spec fn positions_ok(self) -> bool {
        &&& self.nodes@.len() <= u32::MAX
        &&& forall|i: int|
            0 <= i < self.nodes@.len() ==> ((#[trigger] self.nodes@[i].position) matches Some(p)
                && p < self.nodes@.len())
        &&& forall|i: int, j: int|
            0 <= i < j < self.nodes@.len() ==> self.nodes@[i].position
                != self.nodes@[j].position
    }

    /// Whether the genome respects its structural invariants: distinct
    /// node identifiers, distinct connection keys, and correct cached
    /// counts.
    pub open spec fn wf(self) -> bool {
        &&& nodes_distinct(self.nodes@)
        &&& conns_distinct(self.connections@)
        &&& self.counts_ok()
    }

    /// Returns the nodes.
    pub fn get_nodes(&self) -> (r: Vec<Node>)
        ensures
            r@ == self.nodes@,
    {
        copy_nodes(&self.nodes)
    }

    /// Returns the connections.
    pub fn get_connections(&self) -> (r: Vec<Connection>)
        ensures
            r@ == self.connections@,
    {
        copy_connections(&self.connections)
    }

    /// Appends a connection; the caller keeps the identity keys distinct.
    pub fn add_connection(&mut self, connection: Connection)
        ensures
            final(self).connections@ == old(self).connections@.push(connection),
            final(self).nodes@ == old(self).nodes@,
            final(self).inputs == old(self).inputs,
            final(self).outputs == old(self).outputs,
    {
        self.connections.push(connection);
    }

    /// The identifiers of all nodes, in collection order.
    pub fn get_all_node_ids(&self) -> (r: Vec<u32>)
        ensures
            r@.len() == self.nodes@.len(),
            forall|i: int| 0 <= i < r@.len() ==> r@[i] == self.nodes@[i].id,
    {
        let mut out: Vec<u32> = Vec::new();
        let mut i: usize = 0;
        while i < self.nodes.len()
            invariant
                i <= self.nodes@.len(),
                out@.len() == i,
                forall|k: int| 0 <= k < i ==> out@[k] == self.nodes@[k].id,
            decreases self.nodes@.len() - i,
        {
            out.push(self.nodes[i].get_id());
            i += 1;
        }
        out
    }

    /// The identifiers of the nodes of role `t`, in collection order.
    fn node_ids_of_type(&self, t: NeuronType) -> (r: Vec<u32>)
        ensures
            r@ == ids_of_type(self.nodes@, t),
    {
        let mut out: Vec<u32> = Vec::new();
        let mut i: usize = 0;
        while i < self.nodes.len()
            invariant
                i <= self.nodes@.len(),
                out@ == ids_of_type(self.nodes@.take(i as int), t),
            decreases self.nodes@.len() - i,
        {
            proof {
                assert(self.nodes@.take(i + 1int).drop_last() =~= self.nodes@.take(i as int));
                assert(self.nodes@.take(i + 1int).last() == self.nodes@[i as int]);
            }
            let node = &self.nodes[i];
            if node.get_type().to_bytes() == t.to_bytes() {
                out.push(node.get_id());
            }
            i += 1;
        }
        proof {
            assert(self.nodes@.take(self.nodes@.len() as int) =~= self.nodes@);
        }
        out
    }

    /// The identifiers of the `Hidden` nodes, in collection order.
    pub fn get_hidden_node_ids(&self) -> (r: Vec<u32>)
        ensures
            r@ == ids_of_type(self.nodes@, NeuronType::Hidden),
    {
        self.node_ids_of_type(NeuronType::Hidden)
    }

    /// The identifiers of the `Input` nodes, in collection order.
    pub fn get_input_node_ids(&self) -> (r: Vec<u32>)
        ensures
            r@ == ids_of_type(self.nodes@, NeuronType::Input),
    {
        self.node_ids_of_type(NeuronType::Input)
    }

    /// The identifiers of the `Output` nodes, in collection order.
    pub fn get_output_node_ids(&self) -> (r: Vec<u32>)
        ensures
            r@ == ids_of_type(self.nodes@, NeuronType::Output),
    {
        self.node_ids_of_type(NeuronType::Output)
    }

    /// The index of the first node carrying `id`, if any.
    pub fn get_node_position_by_id(&self, id: u32) -> (r: Option<usize>)
        ensures
            match r {
                Some(i) => i < self.nodes@.len() && self.nodes@[i as int].id == id
                    && forall|k: int| 0 <= k < i ==> self.nodes@[k].id != id,
                None => !has_id(self.nodes@, id),
            },
    {
        let mut i: usize = 0;
        while i < self.nodes.len()
            invariant
                i <= self.nodes@.len(),
                forall|k: int| 0 <= k < i ==> self.nodes@[k].id != id,
            decreases self.nodes@.len() - i,
        {
            if self.nodes[i].get_id() == id {
                return Some(i);
            }
            i += 1;
        }
        None
    }

    /// The index of the first connection carrying the identity key `id`,
    /// if any.
    pub fn get_connection_position_by_id(&self, id: (u32, u32)) -> (r: Option<usize>)
        ensures
            match r {
                Some(i) => i < self.connections@.len() && self.connections@[i as int].from == id.0
                    && self.connections@[i as int].to == id.1,
                None => !has_conn_key(self.connections@, id.0, id.1),
            },
    {
        let mut i: usize = 0;
        while i < self.connections.len()
            invariant
                i <= self.connections@.len(),
                forall|k: int|
                    0 <= k < i ==> !(self.connections@[k].from == id.0 && self.connections@[k].to
                        == id.1),
            decreases self.connections@.len() - i,
        {
            let c = &self.connections[i];
            if c.get_from() == id.0 && c.get_to() == id.1 {
                return Some(i);
            }
            i += 1;
        }
        None
    }

    /// The header of the flat encoding: tag, version, input count, output
    /// count, node count, connection count.
    pub fn get_topology(&self) -> (r: Vec<usize>)
        requires
            self.inputs <= usize::MAX,
            self.outputs <= usize::MAX,
        ensures
            r@.len() == 6,
            r@[0] == 1usize,
            r@[1] == 1usize,
            r@[2] == self.inputs as usize,
            r@[3] == self.outputs as usize,
            r@[4] == self.nodes@.len(),
            r@[5] == self.connections@.len(),
    {
        let mut out: Vec<usize> = Vec::new();
        out.push(1);
        out.push(1);
        out.push(self.inputs as usize);
        out.push(self.outputs as usize);
        out.push(self.nodes.len());
        out.push(self.connections.len());
        out
    }
}

/// A fresh vector holding the same nodes.
pub fn copy_nodes(v: &Vec<Node>) -> (r: Vec<Node>)
    ensures
        r@ == v@,
{
    let mut out: Vec<Node> = Vec::new();
    let mut i: usize = 0;
    while i < v.len()
        invariant
            i <= v@.len(),
            out@ == v@.take(i as int),
        decreases v@.len() - i,
    {
        out.push(v[i]);
        proof {
            assert(out@ =~= v@.take(i + 1int));
        }
        i += 1;
    }
    proof {
        assert(v@.take(v@.len() as int) =~= v@);
    }
    out
}

/// A fresh vector holding the same connections.
pub fn copy_connections(v: &Vec<Connection>) -> (r: Vec<Connection>)
    ensures
        r@ == v@,
{
    let mut out: Vec<Connection> = Vec::new();
    let mut i: usize = 0;
    while i < v.len()
        invariant
            i <= v@.len(),
            out@ == v@.take(i as int),
        decreases v@.len() - i,
    {
        out.push(v[i]);
        proof {
            assert(out@ =~= v@.take(i + 1int));
        }
        i += 1;
    }
    proof {
        assert(v@.take(v@.len() as int) =~= v@);
    }
    out
}

/// The identifiers of the nodes of role `t`, in collection order.
pub open spec fn ids_of_type(nodes: Seq<Node>, t: NeuronType) -> Seq<u32>
    decreases nodes.len(),
{
    if nodes.len() == 0 {
        Seq::empty()
    } else {
        let rest = ids_of_type(nodes.drop_last(), t);
        if nodes.last().neuron_type == t {
            rest.push(nodes.last().id)
        } else {
            rest
        }
    }
}

} // verus!

verus! {

/// Counts the `true` entries of a flag sequence.
pub open spec fn count_true(s: Seq<bool>) -> int
    decreases s.len(),
{
    if s.len() == 0 {
        0
    } else {
        count_true(s.drop_last()) + if s.last() {
            1int
        } else {
            0int
        }
    }
}

/// A nonzero role count has a witness.
proof fn lemma_count_type_pos(nodes: Seq<Node>, t: NeuronType, k: int)
    requires
        0 <= k < nodes.len(),
        nodes[k].neuron_type == t,
    ensures
        count_type(nodes, t) > 0,
    decreases nodes.len(),
{
    if k == nodes.len() - 1 {
        lemma_count_type_le_len(nodes.drop_last(), t);
    } else {
        lemma_count_type_pos(nodes.drop_last(), t, k);
    }
}

/// Whether no node is of the `Unknown` role.
pub open spec fn all_typed(nodes: Seq<Node>) -> bool {
    forall|i: int| 0 <= i < nodes.len() ==> (#[trigger] nodes[i].neuron_type) != NeuronType::Unknown
}

proof fn lemma_count_type_take_step(s: Seq<Node>, t: NeuronType, i: int)
    requires
        0 <= i < s.len(),
    ensures
        count_type(s.take(i + 1), t) == count_type(s.take(i), t) + if s[i].neuron_type == t {
            1int
        } else {
            0int
        },
{
    assert(s.take(i + 1).drop_last() =~= s.take(i));
    assert(s.take(i + 1).last() == s[i]);
}

proof fn lemma_count_type_le_len(s: Seq<Node>, t: NeuronType)
    ensures
        0 <= count_type(s, t) <= s.len(),
    decreases s.len(),
{
    if s.len() > 0 {
        lemma_count_type_le_len(s.drop_last(), t);
    }
}

proof fn lemma_count_true_zero(s: Seq<bool>)
    requires
        forall|k: int| 0 <= k < s.len() ==> !(#[trigger] s[k]),
    ensures
        count_true(s) == 0,
    decreases s.len(),
{
    if s.len() > 0 {
        lemma_count_true_zero(s.drop_last());
    }
}

proof fn lemma_count_true_full(s: Seq<bool>)
    requires
        forall|k: int| 0 <= k < s.len() ==> #[trigger] s[k],
    ensures
        count_true(s) == s.len(),
    decreases s.len(),
{
    if s.len() > 0 {
        lemma_count_true_full(s.drop_last());
    }
}

proof fn lemma_count_true_lt(s: Seq<bool>, k: int)
    requires
        0 <= k < s.len(),
        !s[k],
    ensures
        count_true(s) < s.len(),
    decreases s.len(),
{
    if k == s.len() - 1 {
        lemma_count_true_le_len(s.drop_last());
    } else {
        lemma_count_true_lt(s.drop_last(), k);
    }
}

proof fn lemma_count_true_le_len(s: Seq<bool>)
    ensures
        0 <= count_true(s) <= s.len(),
    decreases s.len(),
{
    if s.len() > 0 {
        lemma_count_true_le_len(s.drop_last());
    }
}

proof fn lemma_count_true_update(s: Seq<bool>, k: int)
    requires
        0 <= k < s.len(),
        !s[k],
    ensures
        count_true(s.update(k, true)) == count_true(s) + 1,
    decreases s.len(),
{
    if k == s.len() - 1 {
        assert(s.update(k, true).drop_last() =~= s.drop_last());
        assert(s.update(k, true).last());
    } else {
        assert(s.update(k, true).drop_last() =~= s.drop_last().update(k, true));
        assert(s.update(k, true).last() == s.last());
        lemma_count_true_update(s.drop_last(), k);
    }
}

/// The bookkeeping of the sort: `placed[p]` is the node index that
/// received position `p`, `slot[k]` the position of node `k`, and the two
/// are mutually inverse over the flagged nodes.
pub open spec fn placement_ok(
    nodes: Seq<Node>,
    assigned: Seq<bool>,
    placed: Seq<int>,
    slot: Seq<int>,
    counter: int,
    n: int,
) -> bool {
    &&& nodes.len() == n
    &&& assigned.len() == n
    &&& slot.len() == n
    &&& placed.len() == counter
    &&& counter == count_true(assigned)
    &&& forall|p: int| 0 <= p < counter ==> 0 <= #[trigger] placed[p] < n && slot[placed[p]] == p
    &&& forall|p: int| 0 <= p < counter ==> assigned[#[trigger] placed[p]]
    &&& forall|k: int|
        0 <= k < n && #[trigger] assigned[k] ==> 0 <= slot[k] < counter && placed[slot[k]] == k
            && nodes[k].position == Some(slot[k] as u32)
}

/// Input nodes take the leading positions, hidden nodes the middle
/// block, output nodes the trailing one.
#[verifier::opaque]
pub open spec fn phase_bounds(nodes: Seq<Node>) -> bool {
    let n_in = count_type(nodes, NeuronType::Input);
    let n_hid = count_type(nodes, NeuronType::Hidden);
    let n_out = count_type(nodes, NeuronType::Output);
    forall|i: int|
        0 <= i < nodes.len() ==> match (#[trigger] nodes[i]).neuron_type {
            NeuronType::Input => nodes[i].position matches Some(p) && p < n_in,
            NeuronType::Hidden => nodes[i].position matches Some(p) && n_in <= p < n_in + n_hid,
            NeuronType::Output => nodes[i].position matches Some(p) && n_in + n_hid <= p < n_in
                + n_hid + n_out,
            NeuronType::Unknown => true,
        }
}

/// No two nodes of known role share a position.
#[verifier::opaque]
pub open spec fn typed_positions_distinct(nodes: Seq<Node>) -> bool {
    forall|i: int, j: int|
        0 <= i < j < nodes.len() && (#[trigger] nodes[i]).neuron_type != NeuronType::Unknown && (
        #[trigger] nodes[j]).neuron_type != NeuronType::Unknown ==> nodes[i].position
            != nodes[j].position
}

/// Whether node `i` comes before node `j` in prior order: by the stored
/// position, ties broken by collection index.
pub open spec fn lex_before(nodes: Seq<Node>, i: int, j: int) -> bool {
    nodes[i].position_spec() < nodes[j].position_spec() || (nodes[i].position_spec()
        == nodes[j].position_spec() && i < j)
}

/// The nodes of role `t` keep their prior relative order: whichever came
/// first by stored position (ties by collection index) receives the
/// smaller new position.
#[verifier::opaque]
pub open spec fn group_order_kept(old_nodes: Seq<Node>, nodes: Seq<Node>, t: NeuronType) -> bool {
    forall|i: int, j: int|
        #![trigger old_nodes[i].neuron_type, old_nodes[j].neuron_type, nodes[i], nodes[j]]
        0 <= i < old_nodes.len() && 0 <= j < old_nodes.len() && i != j
            && old_nodes[i].neuron_type == t && old_nodes[j].neuron_type == t && lex_before(
            old_nodes,
            i,
            j,
        ) ==> nodes[i].position_spec() < nodes[j].position_spec()
}

/// Every enabled connection into a hidden node leaves from a node with a
/// strictly smaller assigned position.
#[verifier::opaque]
pub open spec fn hidden_in_edges_ordered(nodes: Seq<Node>, conns: Seq<Connection>) -> bool {
    forall|i: int, c: int|
        0 <= i < nodes.len() && nodes[i].neuron_type == NeuronType::Hidden && 0 <= c < conns.len()
            && (#[trigger] conns[c]).enabled && conns[c].to == (#[trigger] nodes[i]).id
            ==> exists|j: int|
            0 <= j < nodes.len() && (#[trigger] nodes[j]).id == conns[c].from
                && nodes[j].position_spec() < nodes[i].position_spec()
}

/// The ordering record of the sort: for each placed hidden node `k` and
/// each enabled connection `c` into it, `wit[(k, c)]` names a placed
/// source node holding the connection's origin at an earlier slot.
pub open spec fn sources_ordered(
    old_nodes: Seq<Node>,
    conns: Seq<Connection>,
    assigned: Seq<bool>,
    slot: Seq<int>,
    wit: Map<(int, int), int>,
    n: int,
) -> bool {
    forall|k: int, c: int|
        #![trigger assigned[k], conns[c]]
        0 <= k < n && assigned[k] && old_nodes[k].neuron_type == NeuronType::Hidden && 0 <= c
            < conns.len() && conns[c].enabled && conns[c].to == old_nodes[k].id ==> {
            let j = wit[(k, c)];
            &&& wit.dom().contains((k, c))
            &&& 0 <= j < n
            &&& assigned[j]
            &&& old_nodes[j].id == conns[c].from
            &&& slot[j] < slot[k]
        }
}

proof fn lemma_count_true_one_type(nodes: Seq<Node>, flags: Seq<bool>, a: NeuronType)
    requires
        flags.len() == nodes.len(),
        forall|k: int|
            0 <= k < nodes.len() ==> ((#[trigger] flags[k]) <==> nodes[k].neuron_type == a),
    ensures
        count_true(flags) == count_type(nodes, a),
    decreases nodes.len(),
{
    if nodes.len() > 0 {
        lemma_count_true_one_type(nodes.drop_last(), flags.drop_last(), a);
    }
}

proof fn lemma_count_true_two_types(
    nodes: Seq<Node>,
    flags: Seq<bool>,
    a: NeuronType,
    b: NeuronType,
)
    requires
        flags.len() == nodes.len(),
        a != b,
        forall|k: int|
            0 <= k < nodes.len() ==> ((#[trigger] flags[k]) <==> (nodes[k].neuron_type == a
                || nodes[k].neuron_type == b)),
    ensures
        count_true(flags) == count_type(nodes, a) + count_type(nodes, b),
    decreases nodes.len(),
{
    if nodes.len() > 0 {
        lemma_count_true_two_types(nodes.drop_last(), flags.drop_last(), a, b);
    }
}

proof fn lemma_count_true_three_types(
    nodes: Seq<Node>,
    flags: Seq<bool>,
    a: NeuronType,
    b: NeuronType,
    c: NeuronType,
)
    requires
        flags.len() == nodes.len(),
        a != b,
        b != c,
        a != c,
        forall|k: int|
            0 <= k < nodes.len() ==> ((#[trigger] flags[k]) <==> (nodes[k].neuron_type == a
                || nodes[k].neuron_type == b || nodes[k].neuron_type == c)),
    ensures
        count_true(flags) == count_type(nodes, a) + count_type(nodes, b) + count_type(nodes, c),
    decreases nodes.len(),
{
    if nodes.len() > 0 {
        lemma_count_true_three_types(nodes.drop_last(), flags.drop_last(), a, b, c);
    }
}

/// The role-block placement: with every node placed within its block,
/// the position bounds, the distinctness, and (for fully typed
/// collections) the permutation all follow from the placement record.
proof fn lemma_sort_bounds(
    old_nodes: Seq<Node>,
    nodes: Seq<Node>,
    assigned: Seq<bool>,
    placed: Seq<int>,
    slot: Seq<int>,
    counter: int,
    n_in_g: int,
    n_mid_g: int,
    n: int,
)
    requires
        old_nodes.len() == n,
        nodes_eq_mod_position(nodes, old_nodes),
        placement_ok(nodes, assigned, placed, slot, counter, n),
        n <= u32::MAX,
        forall|k: int|
            0 <= k < n ==> ((#[trigger] assigned[k]) <==> (old_nodes[k].neuron_type
                == NeuronType::Input || old_nodes[k].neuron_type == NeuronType::Hidden
                || old_nodes[k].neuron_type == NeuronType::Output)),
        forall|k: int|
            0 <= k < n && #[trigger] assigned[k] && old_nodes[k].neuron_type == NeuronType::Input
                ==> slot[k] < n_in_g,
        forall|k: int|
            0 <= k < n && #[trigger] assigned[k] && old_nodes[k].neuron_type == NeuronType::Hidden
                ==> n_in_g <= slot[k] < n_mid_g,
        forall|k: int|
            0 <= k < n && #[trigger] assigned[k] && old_nodes[k].neuron_type == NeuronType::Output
                ==> slot[k] >= n_mid_g,
        n_in_g == count_type(old_nodes, NeuronType::Input),
        n_mid_g == n_in_g + count_type(old_nodes, NeuronType::Hidden),
        counter == n_mid_g + count_type(old_nodes, NeuronType::Output),
    ensures
        phase_bounds(nodes),
        typed_positions_distinct(nodes),
        all_typed(old_nodes) ==> (forall|i: int|
            0 <= i < n ==> ((#[trigger] nodes[i].position) matches Some(p) && p < n)),
        all_typed(old_nodes) ==> (forall|i: int, j: int|
            0 <= i < j < n ==> nodes[i].position != nodes[j].position),
{
    reveal(phase_bounds);
    reveal(typed_positions_distinct);
    lemma_count_type_eq_mod(nodes, old_nodes, NeuronType::Input);
    lemma_count_type_eq_mod(nodes, old_nodes, NeuronType::Hidden);
    lemma_count_type_eq_mod(nodes, old_nodes, NeuronType::Output);
    lemma_count_type_le_len(old_nodes, NeuronType::Output);
    lemma_count_true_le_len(assigned);
    assert forall|i: int| 0 <= i < n implies match (#[trigger] nodes[i]).neuron_type {
        NeuronType::Input => nodes[i].position matches Some(p) && p < count_type(
            nodes,
            NeuronType::Input,
        ),
        NeuronType::Hidden => nodes[i].position matches Some(p) && count_type(
            nodes,
            NeuronType::Input,
        ) <= p < count_type(nodes, NeuronType::Input) + count_type(nodes, NeuronType::Hidden),
        NeuronType::Output => nodes[i].position matches Some(p) && count_type(
            nodes,
            NeuronType::Input,
        ) + count_type(nodes, NeuronType::Hidden) <= p < count_type(nodes, NeuronType::Input)
            + count_type(nodes, NeuronType::Hidden) + count_type(nodes, NeuronType::Output),
        NeuronType::Unknown => true,
    } by {
        assert(eq_mod_position(nodes[i], old_nodes[i]));
        if nodes[i].neuron_type != NeuronType::Unknown {
            assert(assigned[i]);
            assert(nodes[i].position == Some(slot[i] as u32));
        }
    }
    assert forall|i: int, j: int|
        0 <= i < j < n && (#[trigger] nodes[i]).neuron_type != NeuronType::Unknown && (
        #[trigger] nodes[j]).neuron_type != NeuronType::Unknown implies nodes[i].position
        != nodes[j].position by {
        assert(eq_mod_position(nodes[i], old_nodes[i]));
        assert(eq_mod_position(nodes[j], old_nodes[j]));
        assert(assigned[i]);
        assert(assigned[j]);
        assert(nodes[i].position == Some(slot[i] as u32));
        assert(nodes[j].position == Some(slot[j] as u32));
        if slot[i] == slot[j] {
            assert(placed[slot[i]] == i);
            assert(placed[slot[j]] == j);
        }
    }
    if all_typed(old_nodes) {
        assert forall|i: int| 0 <= i < n implies ((#[trigger] nodes[i].position) matches Some(p)
            && p < n) by {
            assert(eq_mod_position(nodes[i], old_nodes[i]));
            assert(assigned[i]);
            assert(nodes[i].position == Some(slot[i] as u32));
            lemma_count_true_full_from(assigned, n);
        }
        assert forall|i: int, j: int| 0 <= i < j < n implies nodes[i].position
            != nodes[j].position by {
            assert(eq_mod_position(nodes[i], old_nodes[i]));
            assert(eq_mod_position(nodes[j], old_nodes[j]));
        }
    }
}

/// An all-true flag sequence counts to its length.
proof fn lemma_count_true_full_from(assigned: Seq<bool>, n: int)
    requires
        assigned.len() == n,
        forall|k: int| 0 <= k < n ==> #[trigger] assigned[k],
    ensures
        count_true(assigned) == n,
{
    lemma_count_true_full(assigned);
}

/// The ordering record yields the dependency ordering over the final
/// node collection.
proof fn lemma_sort_ordering(
    old_nodes: Seq<Node>,
    old_conns: Seq<Connection>,
    nodes: Seq<Node>,
    assigned: Seq<bool>,
    placed: Seq<int>,
    slot: Seq<int>,
    wit: Map<(int, int), int>,
    counter: int,
    n: int,
)
    requires
        old_nodes.len() == n,
        n <= u32::MAX,
        nodes_eq_mod_position(nodes, old_nodes),
        placement_ok(nodes, assigned, placed, slot, counter, n),
        sources_ordered(old_nodes, old_conns, assigned, slot, wit, n),
        forall|k: int|
            0 <= k < n && old_nodes[k].neuron_type == NeuronType::Hidden
                ==> #[trigger] assigned[k],
    ensures
        hidden_in_edges_ordered(nodes, old_conns),
{
    reveal(hidden_in_edges_ordered);
    lemma_count_true_le_len(assigned);
    assert forall|i1: int, c: int|
        0 <= i1 < n && nodes[i1].neuron_type == NeuronType::Hidden && 0 <= c < old_conns.len() && (
        #[trigger] old_conns[c]).enabled && old_conns[c].to == (#[trigger] nodes[i1]).id implies
        exists|j: int|
        0 <= j < n && (#[trigger] nodes[j]).id == old_conns[c].from && nodes[j].position_spec()
            < nodes[i1].position_spec() by {
        assert(eq_mod_position(nodes[i1], old_nodes[i1]));
        assert(assigned[i1]);
        let j = wit[(i1, c)];
        assert(0 <= j < n && assigned[j] && old_nodes[j].id == old_conns[c].from && slot[j]
            < slot[i1]);
        assert(eq_mod_position(nodes[j], old_nodes[j]));
        assert(nodes[j].position == Some(slot[j] as u32));
        assert(nodes[i1].position == Some(slot[i1] as u32));
        assert(nodes[j].id == old_conns[c].from && nodes[j].position_spec()
            < nodes[i1].position_spec());
    }
}

/// A role group whose members are all placed in lex order of their
/// prior positions keeps its prior relative order.
proof fn lemma_group_order(
    old_nodes: Seq<Node>,
    nodes: Seq<Node>,
    assigned: Seq<bool>,
    placed: Seq<int>,
    slot: Seq<int>,
    counter: int,
    n: int,
    t: NeuronType,
)
    requires
        old_nodes.len() == n,
        n <= u32::MAX,
        nodes_eq_mod_position(nodes, old_nodes),
        placement_ok(nodes, assigned, placed, slot, counter, n),
        forall|k: int|
            0 <= k < n && (#[trigger] old_nodes[k]).neuron_type == t ==> assigned[k],
        forall|k1: int, k2: int|
            #![trigger assigned[k1], assigned[k2]]
            0 <= k1 < n && 0 <= k2 < n && assigned[k1] && assigned[k2]
                && old_nodes[k1].neuron_type == t && old_nodes[k2].neuron_type == t && k1 != k2
                && lex_before(old_nodes, k1, k2) ==> slot[k1] < slot[k2],
    ensures
        group_order_kept(old_nodes, nodes, t),
{
    reveal(group_order_kept);
    lemma_count_true_le_len(assigned);
    assert forall|i: int, j: int|
        0 <= i < old_nodes.len() && 0 <= j < old_nodes.len() && i != j
            && old_nodes[i].neuron_type == t && old_nodes[j].neuron_type == t && lex_before(
            old_nodes,
            i,
            j,
        ) implies nodes[i].position_spec() < nodes[j].position_spec() by {
        assert(assigned[i]);
        assert(assigned[j]);
        assert(nodes[i].position == Some(slot[i] as u32));
        assert(nodes[j].position == Some(slot[j] as u32));
        assert(slot[i] < slot[j]);
    }
}

/// Placing one more ready hidden node extends the ordering record with
/// witnesses for its incoming connections.
proof fn lemma_ordering_step(
    old_nodes: Seq<Node>,
    old_conns: Seq<Connection>,
    pre_nodes: Seq<Node>,
    pre_assigned: Seq<bool>,
    assigned: Seq<bool>,
    pre_slot: Seq<int>,
    slot: Seq<int>,
    pre_wit: Map<(int, int), int>,
    current: int,
    pre_counter: int,
    n: int,
) -> (wit: Map<(int, int), int>)
    requires
        0 <= current < n,
        old_nodes.len() == n,
        pre_nodes.len() == n,
        pre_assigned.len() == n,
        pre_slot.len() == n,
        nodes_eq_mod_position(pre_nodes, old_nodes),
        sources_ordered(old_nodes, old_conns, pre_assigned, pre_slot, pre_wit, n),
        sources_covered(pre_nodes, pre_assigned, old_conns, pre_nodes[current].id),
        assigned == pre_assigned.update(current, true),
        slot == pre_slot.update(current, pre_counter),
        !pre_assigned[current],
        forall|k: int|
            0 <= k < n && #[trigger] pre_assigned[k] ==> 0 <= pre_slot[k] < pre_counter,
    ensures
        sources_ordered(old_nodes, old_conns, assigned, slot, wit, n),
{
    reveal(sources_covered);
    let wit2 = pre_wit.union_prefer_right(
        Map::new(
            |p: (int, int)| p.0 == current && 0 <= p.1 < old_conns.len(),
            |p: (int, int)|
                choose|j: int|
                    0 <= j < n && #[trigger] pre_assigned[j] && pre_nodes[j].id
                        == old_conns[p.1].from,
        ),
    );
    assert forall|k: int, c: int|
        #![trigger assigned[k], old_conns[c]]
        0 <= k < n && assigned[k] && old_nodes[k].neuron_type == NeuronType::Hidden && 0 <= c
            < old_conns.len() && old_conns[c].enabled && old_conns[c].to == old_nodes[k].id
            implies {
            let j = wit2[(k, c)];
            &&& wit2.dom().contains((k, c))
            &&& 0 <= j < n
            &&& assigned[j]
            &&& old_nodes[j].id == old_conns[c].from
            &&& slot[j] < slot[k]
        } by {
        if k == current {
            assert(eq_mod_position(pre_nodes[current], old_nodes[current]));
            assert(old_conns[c].to == pre_nodes[current].id);
            let j = wit2[(k, c)];
            assert(j == choose|j0: int|
                0 <= j0 < n && #[trigger] pre_assigned[j0] && pre_nodes[j0].id
                    == old_conns[c].from);
            assert(exists|j0: int|
                0 <= j0 < n && #[trigger] pre_assigned[j0] && pre_nodes[j0].id
                    == old_conns[c].from);
            assert(0 <= j < n && pre_assigned[j] && pre_nodes[j].id == old_conns[c].from);
            assert(j != current);
            assert(eq_mod_position(pre_nodes[j], old_nodes[j]));
            assert(slot[j] == pre_slot[j] && pre_slot[j] < pre_counter);
            assert(slot[k] == pre_counter);
        } else {
            assert(pre_assigned[k]);
            assert(pre_wit.dom().contains((k, c)));
            let j = wit2[(k, c)];
            assert(!(k == current && 0 <= c < old_conns.len()));
            assert(wit2.dom().contains((k, c)));
            assert(j == pre_wit[(k, c)]);
            assert(0 <= j < n && pre_assigned[j] && old_nodes[j].id == old_conns[c].from
                && pre_slot[j] < pre_slot[k]);
            assert(j != current);
            assert(slot[j] == pre_slot[j] && slot[k] == pre_slot[k]);
        }
    }
    wit2
}

/// Whether some node flagged in `assigned` carries the identifier `id`.
fn is_viewed(nodes: &Vec<Node>, assigned: &Vec<bool>, id: u32) -> (r: bool)
    requires
        nodes@.len() == assigned@.len(),
    ensures
        r ==> exists|j: int|
            0 <= j < nodes@.len() && #[trigger] assigned@[j] && nodes@[j].id == id,
{
    let mut j: usize = 0;
    while j < nodes.len()
        invariant
            nodes@.len() == assigned@.len(),
            j <= nodes@.len(),
        decreases nodes@.len() - j,
    {
        if assigned[j] && nodes[j].get_id() == id {
            return true;
        }
        j += 1;
    }
    false
}

/// Every enabled connection into `to_id` leaves from a node flagged in
/// `assigned`.
#[verifier::opaque]
pub open spec fn sources_covered(
    nodes: Seq<Node>,
    assigned: Seq<bool>,
    conns: Seq<Connection>,
    to_id: u32,
) -> bool {
    forall|c: int|
        0 <= c < conns.len() && (#[trigger] conns[c]).enabled && conns[c].to == to_id
            ==> exists|j: int|
            0 <= j < nodes.len() && #[trigger] assigned[j] && nodes[j].id == conns[c].from
}

/// Whether every enabled connection into `to_id` leaves from a node
/// flagged in `assigned`; a positive answer certifies the coverage.
fn sources_viewed(
    nodes: &Vec<Node>,
    assigned: &Vec<bool>,
    conns: &Vec<Connection>,
    to_id: u32,
) -> (r: bool)
    requires
        nodes@.len() == assigned@.len(),
    ensures
        r ==> sources_covered(nodes@, assigned@, conns@, to_id),
{
    let mut ok = true;
    let mut c: usize = 0;
    while c < conns.len()
        invariant
            nodes@.len() == assigned@.len(),
            c <= conns@.len(),
            ok ==> forall|k: int|
                0 <= k < c && (#[trigger] conns@[k]).enabled && conns@[k].to == to_id
                    ==> exists|j: int|
                    0 <= j < nodes@.len() && #[trigger] assigned@[j] && nodes@[j].id
                        == conns@[k].from,
        decreases conns@.len() - c,
    {
        let conn = &conns[c];
        if conn.get_enabled() && conn.get_to() == to_id {
            let viewed = is_viewed(nodes, assigned, conn.get_from());
            if !viewed {
                ok = false;
            }
        }
        c += 1;
    }
    proof {
        reveal(sources_covered);
    }
    ok
}

impl Genome {
    /// Assigns each node a dense position consistent with the data
    /// dependencies among the enabled connections: input nodes take the
    /// leading positions in their prior relative order (stored position,
    /// ties by collection index); hidden nodes follow, through a FIFO
    /// worklist that places a node once every enabled incoming connection
    /// leaves from an already placed node, so that every enabled
    /// connection into a hidden node arrives from an earlier position;
    /// output nodes take the trailing positions, again in prior relative
    /// order. The worklist fails with `SortNodesStacked` once more than
    /// 1000 dequeue attempts have happened, which signals a dependency
    /// cycle or an unsatisfiable source.
    pub fn sort_nodes(&mut self) -> (r: Result<(), GenomeError>)
        requires
            old(self).nodes@.len() <= u32::MAX,
        ensures
            final(self).connections@ == old(self).connections@,
            final(self).inputs == old(self).inputs,
            final(self).outputs == old(self).outputs,
            nodes_eq_mod_position(final(self).nodes@, old(self).nodes@),
            r matches Err(e) ==> e == GenomeError::SortNodesStacked,
            r is Ok ==> phase_bounds(final(self).nodes@),
            r is Ok ==> typed_positions_distinct(final(self).nodes@),
            r is Ok ==> hidden_in_edges_ordered(final(self).nodes@, final(self).connections@),
            r is Ok ==> group_order_kept(old(self).nodes@, final(self).nodes@, NeuronType::Input),
            r is Ok ==> group_order_kept(
                old(self).nodes@,
                final(self).nodes@,
                NeuronType::Output,
            ),
            r is Ok && all_typed(old(self).nodes@) ==> final(self).positions_ok(),
            count_type(old(self).nodes@, NeuronType::Hidden) == 0 ==> r is Ok,
    {
        let ghost old_nodes = old(self).nodes@;
        let ghost old_conns = old(self).connections@;
        let n = self.nodes.len();

        let mut assigned: Vec<bool> = Vec::new();
        while assigned.len() < n
            invariant
                assigned@.len() <= n,
                forall|k: int| 0 <= k < assigned@.len() ==> !(#[trigger] assigned@[k]),
            decreases n - assigned@.len(),
        {
            assigned.push(false);
        }
        proof {
            lemma_count_true_zero(assigned@);
        }

        let mut counter: u32 = 0;
        let ghost mut placed: Seq<int> = Seq::empty();
        let ghost mut slot: Seq<int> = Seq::new(n as nat, |k: int| -1);
        let ghost mut wit: Map<(int, int), int> = Map::empty();

        // Phase one: input nodes take the leading positions, in their
        // prior relative order (stored position, ties by collection
        // index), picked by repeated selection of the earliest remaining
        // input node.
        let mut more = true;
        while more
            invariant
                old_nodes == old(self).nodes@,
                old_conns == old(self).connections@,
                self.nodes@.len() == n,
                old_nodes.len() == n,
                n <= u32::MAX,
                self.connections@ == old_conns,
                self.inputs == old(self).inputs,
                self.outputs == old(self).outputs,
                nodes_eq_mod_position(self.nodes@, old_nodes),
                placement_ok(self.nodes@, assigned@, placed, slot, counter as int, n as int),
                counter <= n,
                forall|k: int|
                    0 <= k < n && !(#[trigger] assigned@[k]) ==> self.nodes@[k] == old_nodes[k],
                forall|k: int|
                    0 <= k < n && #[trigger] assigned@[k] ==> old_nodes[k].neuron_type
                        == NeuronType::Input,
                !more ==> (forall|k: int|
                    0 <= k < n && (#[trigger] old_nodes[k]).neuron_type == NeuronType::Input
                        ==> assigned@[k]),
                forall|k1: int, k2: int|
                    #![trigger assigned@[k1], assigned@[k2]]
                    0 <= k1 < n && 0 <= k2 < n && assigned@[k1] && assigned@[k2] && k1 != k2
                        && lex_before(old_nodes, k1, k2) ==> slot[k1] < slot[k2],
                forall|a: int, u: int|
                    #![trigger assigned@[a], old_nodes[u].neuron_type]
                    0 <= a < n && 0 <= u < n && assigned@[a] && !assigned@[u]
                        && old_nodes[u].neuron_type == NeuronType::Input ==> lex_before(
                        old_nodes,
                        a,
                        u,
                    ),
            decreases n - counter + (if more {
                1int
            } else {
                0int
            }),
        {
            let mut best: usize = 0;
            let mut have = false;
            let mut j: usize = 0;
            while j < n
                invariant
                    self.nodes@.len() == n,
                    old_nodes.len() == n,
                    assigned@.len() == n,
                    j <= n,
                    nodes_eq_mod_position(self.nodes@, old_nodes),
                    forall|k: int|
                        0 <= k < n && !(#[trigger] assigned@[k]) ==> self.nodes@[k]
                            == old_nodes[k],
                    have ==> (best < j && !assigned@[best as int] && old_nodes[
                    best as int].neuron_type == NeuronType::Input),
                    have ==> (forall|k: int|
                        0 <= k < j && k != best as int && !(#[trigger] assigned@[k])
                            && old_nodes[k].neuron_type == NeuronType::Input ==> lex_before(
                            old_nodes,
                            best as int,
                            k,
                        )),
                    !have ==> (forall|k: int|
                        0 <= k < j ==> !(!(#[trigger] assigned@[k]) && old_nodes[k].neuron_type
                            == NeuronType::Input)),
                decreases n - j,
            {
                if !assigned[j] && self.nodes[j].get_type().to_bytes() == 1 {
                    if !have {
                        best = j;
                        have = true;
                    } else {
                        let kb = self.nodes[best].get_position();
                        let kj = self.nodes[j].get_position();
                        if kj < kb {
                            best = j;
                        }
                    }
                }
                j += 1;
            }
            if have {
                proof {
                    lemma_count_true_lt(assigned@, best as int);
                }
                let mut node = self.nodes[best];
                node.set_position(counter);
                self.nodes.set(best, node);
                proof {
                    lemma_count_true_update(assigned@, best as int);
                }
                assigned.set(best, true);
                proof {
                    placed = placed.push(best as int);
                    slot = slot.update(best as int, counter as int);
                }
                counter += 1;
            } else {
                more = false;
            }
        }
        let ghost n_in_g = counter as int;
        proof {
            lemma_count_true_one_type(old_nodes, assigned@, NeuronType::Input);
        }

        // Phase two: hidden nodes through the FIFO worklist. `qslot[k]`
        // is the worklist cell where the unplaced hidden node `k` waits.
        let mut queue: Vec<usize> = Vec::new();
        let ghost mut qslot: Seq<int> = Seq::new(n as nat, |k: int| -1);
        let mut i: usize = 0;
        while i < n
            invariant
                old_nodes.len() == n,
                i <= n,
                qslot.len() == n,
                forall|q: int|
                    0 <= q < queue@.len() ==> 0 <= #[trigger] queue@[q] < i as int
                        && old_nodes[queue@[q] as int].neuron_type == NeuronType::Hidden,
                forall|q1: int, q2: int|
                    0 <= q1 < q2 < queue@.len() ==> queue@[q1] < queue@[q2],
                forall|k: int|
                    0 <= k < i && (#[trigger] old_nodes[k]).neuron_type == NeuronType::Hidden
                        ==> 0 <= qslot[k] < queue@.len() && queue@[qslot[k]] == k,
                nodes_eq_mod_position(self.nodes@, old_nodes),
            decreases n - i,
        {
            if self.nodes[i].get_type().to_bytes() == 2 {
                queue.push(i);
                proof {
                    qslot = qslot.update(i as int, queue@.len() - 1);
                }
            }
            i += 1;
        }

        let mut head: usize = 0;
        let mut iterations: u32 = 0;
        while head < queue.len()
            invariant
                old_nodes == old(self).nodes@,
                old_conns == old(self).connections@,
                self.nodes@.len() == n,
                old_nodes.len() == n,
                n <= u32::MAX,
                self.connections@ == old_conns,
                self.inputs == old(self).inputs,
                self.outputs == old(self).outputs,
                qslot.len() == n,
                nodes_eq_mod_position(self.nodes@, old_nodes),
                placement_ok(self.nodes@, assigned@, placed, slot, counter as int, n as int),
                forall|k: int|
                    0 <= k < n && !(#[trigger] assigned@[k]) ==> self.nodes@[k] == old_nodes[k],
                counter >= n_in_g,
                head <= queue@.len(),
                iterations <= 1000,
                forall|q: int|
                    head <= q < queue@.len() ==> 0 <= #[trigger] queue@[q] < n
                        && old_nodes[queue@[q] as int].neuron_type == NeuronType::Hidden
                        && !assigned@[queue@[q] as int],
                forall|q1: int, q2: int|
                    head <= q1 < q2 < queue@.len() ==> queue@[q1] != queue@[q2],
                forall|k: int|
                    0 <= k < n && (#[trigger] old_nodes[k]).neuron_type == NeuronType::Hidden
                        && !assigned@[k] ==> head <= qslot[k] < queue@.len() && queue@[qslot[k]]
                        == k,
                forall|k: int|
                    0 <= k < n && (#[trigger] old_nodes[k]).neuron_type == NeuronType::Input
                        ==> assigned@[k],
                forall|k: int|
                    0 <= k < n && #[trigger] assigned@[k] ==> (old_nodes[k].neuron_type
                        == NeuronType::Input || old_nodes[k].neuron_type == NeuronType::Hidden),
                forall|k: int|
                    0 <= k < n && #[trigger] assigned@[k] && old_nodes[k].neuron_type
                        == NeuronType::Input ==> slot[k] < n_in_g,
                forall|k: int|
                    0 <= k < n && #[trigger] assigned@[k] && old_nodes[k].neuron_type
                        == NeuronType::Hidden ==> slot[k] >= n_in_g,
                forall|k1: int, k2: int|
                    #![trigger assigned@[k1], assigned@[k2]]
                    0 <= k1 < n && 0 <= k2 < n && assigned@[k1] && assigned@[k2]
                        && old_nodes[k1].neuron_type == NeuronType::Input
                        && old_nodes[k2].neuron_type == NeuronType::Input && k1 != k2
                        && lex_before(old_nodes, k1, k2) ==> slot[k1] < slot[k2],
                sources_ordered(old_nodes, old_conns, assigned@, slot, wit, n as int),
            decreases 1001 - iterations,
        {
            let current = queue[head];
            iterations += 1;
            if iterations > 1000 {
                proof {
                    lemma_count_type_pos(old_nodes, NeuronType::Hidden, current as int);
                }
                return Err(GenomeError::SortNodesStacked);
            }
            let cur_id = self.nodes[current].get_id();
            let all_viewed = sources_viewed(&self.nodes, &assigned, &self.connections, cur_id);
            if all_viewed {
                proof {
                    lemma_count_true_lt(assigned@, current as int);
                }
                let ghost pre_nodes = self.nodes@;
                let ghost pre_assigned = assigned@;
                let ghost pre_slot = slot;
                let ghost pre_counter = counter;
                let mut node = self.nodes[current];
                node.set_position(counter);
                self.nodes.set(current, node);
                proof {
                    lemma_count_true_update(assigned@, current as int);
                }
                assigned.set(current, true);
                proof {
                    placed = placed.push(current as int);
                    slot = slot.update(current as int, counter as int);
                    wit = lemma_ordering_step(
                        old_nodes,
                        old_conns,
                        pre_nodes,
                        pre_assigned,
                        assigned@,
                        pre_slot,
                        slot,
                        wit,
                        current as int,
                        pre_counter as int,
                        n as int,
                    );
                }
                counter += 1;
                head += 1;
            } else {
                queue.push(current);
                proof {
                    qslot = qslot.update(current as int, queue@.len() - 1);
                }
                head += 1;
                proof {
                    assert forall|k: int|
                        0 <= k < n && (#[trigger] old_nodes[k]).neuron_type == NeuronType::Hidden
                            && !assigned@[k] implies head <= qslot[k] < queue@.len()
                            && queue@[qslot[k]] == k by {
                        if k != current as int {
                            assert(queue@[qslot[k]] == k);
                        }
                    }
                }
            }
        }
        let ghost n_mid_g = counter as int;
        proof {
            lemma_count_true_two_types(old_nodes, assigned@, NeuronType::Input, NeuronType::Hidden);
        }

        // Phase three: output nodes take the trailing positions, in
        // their prior relative order (stored position, ties by collection
        // index), picked by repeated selection of the earliest remaining
        // output node.
        proof {
            assert forall|k: int|
                0 <= k < n && (#[trigger] old_nodes[k]).neuron_type == NeuronType::Hidden implies
                assigned@[k] by {}
        }
        proof {
            lemma_count_true_le_len(assigned@);
        }
        let mut more_out = true;
        while more_out
            invariant
                old_nodes == old(self).nodes@,
                old_conns == old(self).connections@,
                n_in_g == count_type(old_nodes, NeuronType::Input),
                n_mid_g == n_in_g + count_type(old_nodes, NeuronType::Hidden),
                self.nodes@.len() == n,
                old_nodes.len() == n,
                n <= u32::MAX,
                self.connections@ == old_conns,
                self.inputs == old(self).inputs,
                self.outputs == old(self).outputs,
                nodes_eq_mod_position(self.nodes@, old_nodes),
                placement_ok(self.nodes@, assigned@, placed, slot, counter as int, n as int),
                counter <= n,
                counter >= n_mid_g,
                forall|k: int|
                    0 <= k < n && !(#[trigger] assigned@[k]) ==> self.nodes@[k] == old_nodes[k],
                forall|k: int|
                    0 <= k < n && #[trigger] assigned@[k] ==> (old_nodes[k].neuron_type
                        == NeuronType::Input || old_nodes[k].neuron_type == NeuronType::Hidden
                        || old_nodes[k].neuron_type == NeuronType::Output),
                forall|k: int|
                    0 <= k < n && (#[trigger] old_nodes[k]).neuron_type == NeuronType::Input
                        ==> assigned@[k],
                forall|k: int|
                    0 <= k < n && (#[trigger] old_nodes[k]).neuron_type == NeuronType::Hidden
                        ==> assigned@[k],
                !more_out ==> (forall|k: int|
                    0 <= k < n && (#[trigger] old_nodes[k]).neuron_type == NeuronType::Output
                        ==> assigned@[k]),
                forall|k: int|
                    0 <= k < n && #[trigger] assigned@[k] && old_nodes[k].neuron_type
                        == NeuronType::Input ==> slot[k] < n_in_g,
                forall|k: int|
                    0 <= k < n && #[trigger] assigned@[k] && old_nodes[k].neuron_type
                        == NeuronType::Hidden ==> n_in_g <= slot[k] < n_mid_g,
                forall|k: int|
                    0 <= k < n && #[trigger] assigned@[k] && old_nodes[k].neuron_type
                        == NeuronType::Output ==> slot[k] >= n_mid_g,
                forall|k1: int, k2: int|
                    #![trigger assigned@[k1], assigned@[k2]]
                    0 <= k1 < n && 0 <= k2 < n && assigned@[k1] && assigned@[k2]
                        && old_nodes[k1].neuron_type == NeuronType::Input
                        && old_nodes[k2].neuron_type == NeuronType::Input && k1 != k2
                        && lex_before(old_nodes, k1, k2) ==> slot[k1] < slot[k2],
                forall|k1: int, k2: int|
                    #![trigger assigned@[k1], assigned@[k2]]
                    0 <= k1 < n && 0 <= k2 < n && assigned@[k1] && assigned@[k2]
                        && old_nodes[k1].neuron_type == NeuronType::Output
                        && old_nodes[k2].neuron_type == NeuronType::Output && k1 != k2
                        && lex_before(old_nodes, k1, k2) ==> slot[k1] < slot[k2],
                forall|a: int, u: int|
                    #![trigger assigned@[a], old_nodes[u].neuron_type]
                    0 <= a < n && 0 <= u < n && assigned@[a] && old_nodes[a].neuron_type
                        == NeuronType::Output && !assigned@[u] && old_nodes[u].neuron_type
                        == NeuronType::Output ==> lex_before(old_nodes, a, u),
                sources_ordered(old_nodes, old_conns, assigned@, slot, wit, n as int),
            decreases n - counter + (if more_out {
                1int
            } else {
                0int
            }),
        {
            let mut best: usize = 0;
            let mut have = false;
            let mut j: usize = 0;
            while j < n
                invariant
                    self.nodes@.len() == n,
                    old_nodes.len() == n,
                    assigned@.len() == n,
                    j <= n,
                    nodes_eq_mod_position(self.nodes@, old_nodes),
                    forall|k: int|
                        0 <= k < n && !(#[trigger] assigned@[k]) ==> self.nodes@[k]
                            == old_nodes[k],
                    have ==> (best < j && !assigned@[best as int] && old_nodes[
                    best as int].neuron_type == NeuronType::Output),
                    have ==> (forall|k: int|
                        0 <= k < j && k != best as int && !(#[trigger] assigned@[k])
                            && old_nodes[k].neuron_type == NeuronType::Output ==> lex_before(
                            old_nodes,
                            best as int,
                            k,
                        )),
                    !have ==> (forall|k: int|
                        0 <= k < j ==> !(!(#[trigger] assigned@[k]) && old_nodes[k].neuron_type
                            == NeuronType::Output)),
                decreases n - j,
            {
                if !assigned[j] && self.nodes[j].get_type().to_bytes() == 3 {
                    if !have {
                        best = j;
                        have = true;
                    } else {
                        let kb = self.nodes[best].get_position();
                        let kj = self.nodes[j].get_position();
                        if kj < kb {
                            best = j;
                        }
                    }
                }
                j += 1;
            }
            if have {
                proof {
                    lemma_count_true_lt(assigned@, best as int);
                }
                let ghost pre_assigned = assigned@;
                let ghost pre_slot = slot;
                let mut node = self.nodes[best];
                node.set_position(counter);
                self.nodes.set(best, node);
                proof {
                    lemma_count_true_update(assigned@, best as int);
                }
                assigned.set(best, true);
                proof {
                    placed = placed.push(best as int);
                    slot = slot.update(best as int, counter as int);
                    assert forall|k: int, c: int|
                        #![trigger assigned@[k], old_conns[c]]
                        0 <= k < n && assigned@[k] && old_nodes[k].neuron_type
                            == NeuronType::Hidden && 0 <= c < old_conns.len()
                            && old_conns[c].enabled && old_conns[c].to == old_nodes[k].id implies {
                            let jw = wit[(k, c)];
                            &&& wit.dom().contains((k, c))
                            &&& 0 <= jw < n
                            &&& assigned@[jw]
                            &&& old_nodes[jw].id == old_conns[c].from
                            &&& slot[jw] < slot[k]
                        } by {
                        assert(k != best as int);
                        assert(pre_assigned[k]);
                        assert(wit.dom().contains((k, c)));
                        let jw = wit[(k, c)];
                        assert(0 <= jw < n && pre_assigned[jw] && old_nodes[jw].id
                            == old_conns[c].from && pre_slot[jw] < pre_slot[k]);
                        assert(jw != best as int);
                    }
                }
                counter += 1;
            } else {
                more_out = false;
            }
        }

        proof {
            assert forall|k: int| 0 <= k < n implies ((#[trigger] assigned@[k]) <==> (
            old_nodes[k].neuron_type == NeuronType::Input || old_nodes[k].neuron_type
                == NeuronType::Hidden || old_nodes[k].neuron_type == NeuronType::Output)) by {}
            lemma_count_true_three_types(
                old_nodes,
                assigned@,
                NeuronType::Input,
                NeuronType::Hidden,
                NeuronType::Output,
            );
            lemma_sort_bounds(
                old_nodes,
                self.nodes@,
                assigned@,
                placed,
                slot,
                counter as int,
                n_in_g,
                n_mid_g,
                n as int,
            );
            lemma_sort_ordering(
                old_nodes,
                old_conns,
                self.nodes@,
                assigned@,
                placed,
                slot,
                wit,
                counter as int,
                n as int,
            );
            lemma_group_order(
                old_nodes,
                self.nodes@,
                assigned@,
                placed,
                slot,
                counter as int,
                n as int,
                NeuronType::Input,
            );
            lemma_group_order(
                old_nodes,
                self.nodes@,
                assigned@,
                placed,
                slot,
                counter as int,
                n as int,
                NeuronType::Output,
            );
        }
        Ok(())
    }
}

} // verus!

verus! {

/// Role counts agree on collections that differ only in positions.
proof fn lemma_count_type_eq_mod(a: Seq<Node>, b: Seq<Node>, t: NeuronType)
    requires
        nodes_eq_mod_position(a, b),
    ensures
        count_type(a, t) == count_type(b, t),
    decreases a.len(),
{
    if a.len() > 0 {
        assert(nodes_eq_mod_position(a.drop_last(), b.drop_last())) by {
            assert(forall|i: int| 0 <= i < a.len() - 1 ==> a.drop_last()[i] == a[i]);
            assert(forall|i: int| 0 <= i < b.len() - 1 ==> b.drop_last()[i] == b[i]);
        }
        lemma_count_type_eq_mod(a.drop_last(), b.drop_last(), t);
        assert(eq_mod_position(a.last(), b.last()));
    }
}

impl Genome {
    /// Builds a genome from node and connection collections, counting the
    /// input and output nodes and assigning topological positions.
    /// Fails only when the topological sort exceeds its progress ceiling.
    pub fn new(nodes: Vec<Node>, connections: Vec<Connection>) -> (r: Result<
        Genome,
        GenomeError,
    >)
        requires
            nodes@.len() <= u32::MAX,
        ensures
            r matches Ok(g) ==> {
                &&& g.connections@ == connections@
                &&& nodes_eq_mod_position(g.nodes@, nodes@)
                &&& g.inputs == count_type(nodes@, NeuronType::Input)
                &&& g.outputs == count_type(nodes@, NeuronType::Output)
                &&& g.counts_ok()
                &&& all_typed(nodes@) ==> g.positions_ok()
                &&& phase_bounds(g.nodes@)
                &&& typed_positions_distinct(g.nodes@)
                &&& hidden_in_edges_ordered(g.nodes@, g.connections@)
                &&& group_order_kept(nodes@, g.nodes@, NeuronType::Input)
                &&& group_order_kept(nodes@, g.nodes@, NeuronType::Output)
            },
            r matches Err(e) ==> e == GenomeError::SortNodesStacked,
            count_type(nodes@, NeuronType::Hidden) == 0 ==> r is Ok,
    {
        let mut inputs: u32 = 0;
        let mut outputs: u32 = 0;
        let mut i: usize = 0;
        while i < nodes.len()
            invariant
                i <= nodes@.len(),
                nodes@.len() <= u32::MAX,
                inputs == count_type(nodes@.take(i as int), NeuronType::Input),
                outputs == count_type(nodes@.take(i as int), NeuronType::Output),
            decreases nodes@.len() - i,
        {
            proof {
                lemma_count_type_take_step(nodes@, NeuronType::Input, i as int);
                lemma_count_type_take_step(nodes@, NeuronType::Output, i as int);
                lemma_count_type_le_len(nodes@.take(i as int), NeuronType::Input);
                lemma_count_type_le_len(nodes@.take(i as int), NeuronType::Output);
                assert(nodes@.take(i as int).len() == i);
            }
            let t = nodes[i].get_type().to_bytes();
            if t == 1 {
                inputs += 1;
            } else if t == 3 {
                outputs += 1;
            }
            i += 1;
        }
        proof {
            assert(nodes@.take(nodes@.len() as int) =~= nodes@);
        }

        let mut genome = Genome { nodes, connections, inputs, outputs };
        match genome.sort_nodes() {
            Ok(_) => {
                proof {
                    lemma_count_type_eq_mod(genome.nodes@, nodes@, NeuronType::Input);
                    lemma_count_type_eq_mod(genome.nodes@, nodes@, NeuronType::Output);
                }
                Ok(genome)
            },
            Err(e) => Err(e),
        }
    }

    /// Appends a node and re-assigns all topological positions. Fails
    /// only when the topological sort exceeds its progress ceiling.
    pub fn add_node(&mut self, node: Node) -> (r: Result<(), GenomeError>)
        requires
            old(self).nodes@.len() < u32::MAX,
        ensures
            final(self).connections@ == old(self).connections@,
            final(self).inputs == old(self).inputs,
            final(self).outputs == old(self).outputs,
            nodes_eq_mod_position(final(self).nodes@, old(self).nodes@.push(node)),
            r matches Err(e) ==> e == GenomeError::SortNodesStacked,
            r is Ok && all_typed(old(self).nodes@.push(node)) ==> final(self).positions_ok(),
            r is Ok ==> phase_bounds(final(self).nodes@),
            r is Ok ==> typed_positions_distinct(final(self).nodes@),
            r is Ok ==> hidden_in_edges_ordered(final(self).nodes@, final(self).connections@),
            r is Ok ==> group_order_kept(
                old(self).nodes@.push(node),
                final(self).nodes@,
                NeuronType::Input,
            ),
            r is Ok ==> group_order_kept(
                old(self).nodes@.push(node),
                final(self).nodes@,
                NeuronType::Output,
            ),
    {
        self.nodes.push(node);
        self.sort_nodes()
    }
}

} // verus!

verus! {

broadcast use vstd::seq_lib::group_to_multiset_ensures;

/// The numeric order on identifiers, as a value usable by the sorting
/// specifications.
pub open spec fn u32_leq() -> spec_fn(u32, u32) -> bool {
    |a: u32, b: u32| a <= b
}

/// Sorts identifiers ascending; the result is the canonical sorted
/// arrangement of the given sequence.
pub fn sort_u32(v: Vec<u32>) -> (r: Vec<u32>)
    ensures
        r@ == v@.sort_by(u32_leq()),
{
    let ghost orig = v@;
    let mut rest = v;
    let mut out: Vec<u32> = Vec::new();
    while rest.len() > 0
        invariant
            out@.to_multiset().add(rest@.to_multiset()) == orig.to_multiset(),
            vstd::relations::sorted_by(out@, u32_leq()),
            forall|a: int, b: int|
                0 <= a < out@.len() && 0 <= b < rest@.len() ==> (#[trigger] out@[a])
                    <= (#[trigger] rest@[b]),
        decreases rest@.len(),
    {
        let mut mi: usize = 0;
        let mut mv: u32 = rest[0];
        let mut j: usize = 1;
        while j < rest.len()
            invariant
                rest@.len() > 0,
                mi < rest@.len(),
                j <= rest@.len(),
                mv == rest@[mi as int],
                forall|k: int| 0 <= k < j ==> mv <= (#[trigger] rest@[k]),
            decreases rest@.len() - j,
        {
            if rest[j] < mv {
                mi = j;
                mv = rest[j];
            }
            j += 1;
        }
        let ghost pre_rest = rest@;
        let ghost pre_out = out@;
        let x = rest.remove(mi);
        out.push(x);
        proof {
            assert(pre_rest.remove(mi as int).to_multiset() =~= pre_rest.to_multiset().remove(
                pre_rest[mi as int],
            ));
            assert(pre_out.push(x).to_multiset() =~= pre_out.to_multiset().insert(x));
            assert(pre_rest.to_multiset().count(x) > 0) by {
                assert(pre_rest.contains(x));
            }
            assert(pre_out.to_multiset().insert(x).add(pre_rest.to_multiset().remove(x))
                =~= pre_out.to_multiset().add(pre_rest.to_multiset()));
            assert forall|b: int| 0 <= b < rest@.len() implies x <= (#[trigger] rest@[b]) by {
                if b < mi as int {
                    assert(rest@[b] == pre_rest[b]);
                } else {
                    assert(rest@[b] == pre_rest[b + 1]);
                }
            }
        }
    }
    proof {
        assert(rest@.to_multiset() =~= Multiset::empty());
        assert(out@.to_multiset() =~= orig.to_multiset());
        orig.lemma_sort_by_ensures(u32_leq());
        vstd::seq_lib::lemma_sorted_unique(out@, orig.sort_by(u32_leq()), u32_leq());
    }
    out
}

impl Genome {
    /// The genotype distance to another genome: the Levenshtein edit
    /// distance between the two sorted hidden-node identifier lists;
    /// oversized genotypes fall back to the largest distance.
    pub fn get_distance(&self, child: &Genome) -> (r: i32)
        ensures
            ({
                let p = ids_of_type(self.nodes@, NeuronType::Hidden).sort_by(u32_leq());
                let c = ids_of_type(child.nodes@, NeuronType::Hidden).sort_by(u32_leq());
                if p.len() <= 0x3fffffff && c.len() <= 0x3fffffff {
                    r == crate::levenshtein::edit_distance(p, c)
                } else {
                    r == i32::MAX
                }
            }),
    {
        let parent_ids = self.get_hidden_node_ids();
        let child_ids = child.get_hidden_node_ids();
        let parent_sorted = sort_u32(parent_ids);
        let child_sorted = sort_u32(child_ids);
        proof {
            ids_of_type(self.nodes@, NeuronType::Hidden).lemma_sort_by_ensures(u32_leq());
            ids_of_type(child.nodes@, NeuronType::Hidden).lemma_sort_by_ensures(u32_leq());
            assert(parent_sorted@.len() == parent_sorted@.to_multiset().len());
            assert(child_sorted@.len() == child_sorted@.to_multiset().len());
            assert(ids_of_type(self.nodes@, NeuronType::Hidden).len() == ids_of_type(
                self.nodes@,
                NeuronType::Hidden,
            ).to_multiset().len());
            assert(ids_of_type(child.nodes@, NeuronType::Hidden).len() == ids_of_type(
                child.nodes@,
                NeuronType::Hidden,
            ).to_multiset().len());
        }
        if parent_sorted.len() > 0x3fffffff || child_sorted.len() > 0x3fffffff {
            return i32::MAX;
        }
        match crate::levenshtein::levenshtein(parent_sorted, child_sorted) {
            Ok(d) => d,
            Err(_) => i32::MAX,
        }
    }
}

} // verus!

verus! {

/// Whether some node carrying `id` is enabled.
pub open spec fn id_enabled(nodes: Seq<Node>, id: u32) -> bool {
    exists|j: int| 0 <= j < nodes.len() && (#[trigger] nodes[j]).id == id && nodes[j].enabled
}

/// The assigned position of the first node carrying `id`, or zero when
/// no node carries it.
pub open spec fn pos_of_id_or0(nodes: Seq<Node>, id: u32) -> u32
    decreases nodes.len(),
{
    if nodes.len() == 0 {
        0
    } else if nodes.first().id == id {
        nodes.first().position_spec()
    } else {
        pos_of_id_or0(nodes.drop_first(), id)
    }
}

/// The incoming links of the node carrying `node_id` at position
/// `node_pos`: one link per enabled connection into it whose two
/// endpoints are enabled nodes, in connection order, with the source
/// mapped to its assigned position.
pub open spec fn links_into(
    nodes: Seq<Node>,
    conns: Seq<Connection>,
    node_id: u32,
    node_pos: u32,
) -> Seq<Link>
    decreases conns.len(),
{
    if conns.len() == 0 {
        Seq::empty()
    } else {
        let rest = links_into(nodes, conns.drop_last(), node_id, node_pos);
        let c = conns.last();
        if c.enabled && c.to == node_id && id_enabled(nodes, c.from) && id_enabled(nodes, c.to) {
            rest.push(Link { from_id: pos_of_id_or0(nodes, c.from), to_id: node_pos, weight: c.weight })
        } else {
            rest
        }
    }
}

/// Whether some enabled node carries the identifier `id`.
fn is_id_enabled(nodes: &Vec<Node>, id: u32) -> (r: bool)
    ensures
        r == id_enabled(nodes@, id),
{
    let mut j: usize = 0;
    while j < nodes.len()
        invariant
            j <= nodes@.len(),
            forall|k: int|
                0 <= k < j ==> !((#[trigger] nodes@[k]).id == id && nodes@[k].enabled),
        decreases nodes@.len() - j,
    {
        if nodes[j].get_id() == id && nodes[j].get_enabled() {
            return true;
        }
        j += 1;
    }
    false
}

/// The assigned position of the first node carrying `id`, or zero.
fn position_of_id(nodes: &Vec<Node>, id: u32) -> (r: u32)
    ensures
        r == pos_of_id_or0(nodes@, id),
{
    let mut j: usize = 0;
    proof {
        assert(nodes@.skip(0) =~= nodes@);
    }
    while j < nodes.len()
        invariant
            j <= nodes@.len(),
            pos_of_id_or0(nodes@, id) == pos_of_id_or0(nodes@.skip(j as int), id),
            forall|k: int| 0 <= k < j ==> (#[trigger] nodes@[k]).id != id,
        decreases nodes@.len() - j,
    {
        proof {
            assert(nodes@.skip(j as int).first() == nodes@[j as int]);
            assert(nodes@.skip(j as int).drop_first() =~= nodes@.skip(j + 1int));
        }
        if nodes[j].get_id() == id {
            return nodes[j].get_position();
        }
        j += 1;
    }
    proof {
        assert(nodes@.skip(nodes@.len() as int).len() == 0);
    }
    0
}

/// Whether `net` is the compiled form of genome `g`: one neuron per
/// node, stored at the node's assigned position with the node's bias
/// word, role, activation and incoming links, on a topologically sorted
/// genome with distinct identifiers.
pub open spec fn network_matches(g: Genome, net: Network) -> bool {
    &&& net.neurons@.len() == g.nodes@.len()
    &&& net.inputs == crate::network::count_neurons(net.neurons@, NeuronType::Input)
    &&& net.outputs == crate::network::count_neurons(net.neurons@, NeuronType::Output)
    &&& (g.positions_ok() && nodes_distinct(g.nodes@)) ==> forall|i: int|
        0 <= i < g.nodes@.len() ==> {
            let node = #[trigger] g.nodes@[i];
            let nr = net.neurons@[node.position_spec() as int];
            &&& nr.position == node.position_spec()
            &&& nr.bias == node.bias
            &&& nr.neuron_type == node.neuron_type
            &&& nr.activation == node.activation
            &&& nr.connections@ == links_into(g.nodes@, g.connections@, node.id, node.position_spec())
        }
}

impl Genome {
    /// Compiles the genome into its network: one neuron per node, stored
    /// at the node's assigned position, carrying the node's bias word,
    /// role and activation, and the links of the enabled connections into
    /// it whose endpoints are both enabled. Positions that no node claims
    /// keep an empty placeholder neuron; on a topologically sorted genome
    /// with distinct identifiers every slot is claimed.
    pub fn get_network(&self) -> (r: Network)
        ensures
            network_matches(*self, r),
    {
        let n = self.nodes.len();
        let ghost wfc = self.positions_ok() && nodes_distinct(self.nodes@);
        let mut neurons: Vec<Neuron> = Vec::new();
        while neurons.len() < n
            invariant
                neurons@.len() <= n,
            decreases n - neurons@.len(),
        {
            let empty_links: Vec<Link> = Vec::new();
            neurons.push(
                Neuron::new(NeuronType::Unknown, 0, neurons.len() as u32, Activation::Identity, empty_links),
            );
        }

        let mut i: usize = 0;
        while i < n
            invariant
                wfc == (self.positions_ok() && nodes_distinct(self.nodes@)),
                n == self.nodes@.len(),
                i <= n,
                neurons@.len() == n,
                wfc ==> forall|k: int|
                    0 <= k < i ==> {
                        let node = #[trigger] self.nodes@[k];
                        let nr = neurons@[node.position_spec() as int];
                        &&& nr.position == node.position_spec()
                        &&& nr.bias == node.bias
                        &&& nr.neuron_type == node.neuron_type
                        &&& nr.activation == node.activation
                        &&& nr.connections@ == links_into(
                            self.nodes@,
                            self.connections@,
                            node.id,
                            node.position_spec(),
                        )
                    },
            decreases n - i,
        {
            let node = &self.nodes[i];
            let node_id = node.get_id();
            let node_pos = node.get_position();

            let mut links: Vec<Link> = Vec::new();
            let mut ci: usize = 0;
            while ci < self.connections.len()
                invariant
                    n == self.nodes@.len(),
                    ci <= self.connections@.len(),
                    node_id == self.nodes@[i as int].id,
                    node_pos == self.nodes@[i as int].position_spec(),
                    i < n,
                    links@ == links_into(
                        self.nodes@,
                        self.connections@.take(ci as int),
                        node_id,
                        node_pos,
                    ),
                decreases self.connections@.len() - ci,
            {
                proof {
                    assert(self.connections@.take(ci + 1int).drop_last() =~= self.connections@.take(
                        ci as int,
                    ));
                    assert(self.connections@.take(ci + 1int).last() == self.connections@[ci as int]);
                }
                let conn = &self.connections[ci];
                if conn.get_enabled() && conn.get_to() == node_id {
                    let from_ok = is_id_enabled(&self.nodes, conn.get_from());
                    let to_ok = is_id_enabled(&self.nodes, conn.get_to());
                    if from_ok && to_ok {
                        let from_pos = position_of_id(&self.nodes, conn.get_from());
                        links.push(Link::new(from_pos, node_pos, conn.get_weight()));
                    }
                }
                ci += 1;
            }
            proof {
                assert(self.connections@.take(self.connections@.len() as int)
                    =~= self.connections@);
            }

            let neuron = Neuron::new(
                node.get_type(),
                node.get_bias(),
                node_pos,
                node.get_activation(),
                links,
            );
            let p = node_pos as usize;
            let ghost pre_neurons = neurons@;
            if p < neurons.len() {
                neurons.set(p, neuron);
            }
            proof {
                if wfc {
                    assert(self.nodes@[i as int].position matches Some(q) && q < n);
                    assert(p < n);
                    assert forall|k: int| 0 <= k < i + 1 implies {
                        let nd = #[trigger] self.nodes@[k];
                        let nr = neurons@[nd.position_spec() as int];
                        &&& nr.position == nd.position_spec()
                        &&& nr.bias == nd.bias
                        &&& nr.neuron_type == nd.neuron_type
                        &&& nr.activation == nd.activation
                        &&& nr.connections@ == links_into(
                            self.nodes@,
                            self.connections@,
                            nd.id,
                            nd.position_spec(),
                        )
                    } by {
                        if k < i as int {
                            assert(self.nodes@[k].position != self.nodes@[i as int].position);
                            assert(neurons@[self.nodes@[k].position_spec() as int]
                                == pre_neurons[self.nodes@[k].position_spec() as int]);
                        }
                    }
                }
            }
            i += 1;
        }
        Network::new(neurons)
    }
}

} // verus!

verus! {

use crate::config::Config;
use crate::rng::RandomSource;

/// Whether some node flagged `Hidden` carries the identifier `id`.
pub open spec fn hidden_has_id(nodes: Seq<Node>, id: u32) -> bool {
    exists|j: int|
        0 <= j < nodes.len() && (#[trigger] nodes[j]).id == id && nodes[j].neuron_type
            == NeuronType::Hidden
}

/// The hidden nodes of `child` whose identifiers are absent from the
/// hidden nodes of `base`, in child order.
pub open spec fn crossover_nodes(base: Seq<Node>, child: Seq<Node>) -> Seq<Node>
    decreases child.len(),
{
    if child.len() == 0 {
        Seq::empty()
    } else {
        let rest = crossover_nodes(base, child.drop_last());
        let nd = child.last();
        if nd.neuron_type == NeuronType::Hidden && !hidden_has_id(base, nd.id) {
            rest.push(nd)
        } else {
            rest
        }
    }
}

/// The connections of `child` whose identity keys are absent from
/// `base`, in child order.
pub open spec fn crossover_conns(base: Seq<Connection>, child: Seq<Connection>) -> Seq<Connection>
    decreases child.len(),
{
    if child.len() == 0 {
        Seq::empty()
    } else {
        let rest = crossover_conns(base, child.drop_last());
        let c = child.last();
        if !has_conn_key(base, c.from, c.to) {
            rest.push(c)
        } else {
            rest
        }
    }
}

/// Whether some node carries the identifier `id`.
fn contains_id(nodes: &Vec<Node>, id: u32) -> (r: bool)
    ensures
        r == has_id(nodes@, id),
{
    let mut j: usize = 0;
    while j < nodes.len()
        invariant
            j <= nodes@.len(),
            forall|k: int| 0 <= k < j ==> nodes@[k].id != id,
        decreases nodes@.len() - j,
    {
        if nodes[j].get_id() == id {
            return true;
        }
        j += 1;
    }
    false
}

/// Whether some hidden node carries the identifier `id`.
fn contains_hidden_id(nodes: &Vec<Node>, id: u32) -> (r: bool)
    ensures
        r == hidden_has_id(nodes@, id),
{
    let mut j: usize = 0;
    while j < nodes.len()
        invariant
            j <= nodes@.len(),
            forall|k: int|
                0 <= k < j ==> !((#[trigger] nodes@[k]).id == id && nodes@[k].neuron_type
                    == NeuronType::Hidden),
        decreases nodes@.len() - j,
    {
        if nodes[j].get_id() == id && nodes[j].get_type().to_bytes() == 2 {
            return true;
        }
        j += 1;
    }
    false
}

/// Whether some connection carries the identity key `(from, to)`.
fn contains_conn_key(conns: &Vec<Connection>, from: u32, to: u32) -> (r: bool)
    ensures
        r == has_conn_key(conns@, from, to),
{
    let mut j: usize = 0;
    while j < conns.len()
        invariant
            j <= conns@.len(),
            forall|k: int| 0 <= k < j ==> !(conns@[k].from == from && conns@[k].to == to),
        decreases conns@.len() - j,
    {
        let c = &conns[j];
        if c.get_from() == from && c.get_to() == to {
            return true;
        }
        j += 1;
    }
    false
}

/// Draws a random identifier from `[from, to)` that no node carries,
/// giving up after ten attempts or on an empty range.
fn draw_free_id<R: RandomSource>(rng: &mut R, from: u32, to: u32, nodes: &Vec<Node>) -> (r: Option<
    u32,
>)
    ensures
        r matches Some(id) ==> from <= id < to && !has_id(nodes@, id),
{
    if from >= to {
        return None;
    }
    let mut tries: u32 = 10;
    while tries > 0
        invariant
            from < to,
        decreases tries,
    {
        let id = rng.next_in_range(from, to);
        if !contains_id(nodes, id) {
            return Some(id);
        }
        tries -= 1;
    }
    None
}

impl Genome {
    /// Splits a random connection through a fresh hidden node: the new
    /// node takes a random unused identifier from the hidden range and a
    /// random bias, the split connection is disabled, and two enabled
    /// connections replace it, the incoming one with unit weight and the
    /// outgoing one with the split connection's weight. Fails with
    /// `MaxNodes` exactly when the node cap is reached, and with
    /// `AddNodeNodeIdNotFound` when there is no connection to split, the
    /// hidden identifier range is empty, or ten identifier draws all
    /// collided.
    pub fn mutate_add_node<R: RandomSource>(&self, config: &Config, rng: &mut R) -> (r: Result<
        Genome,
        GenomeError,
    >)
        ensures
            (self.nodes@.len() >= config.node_max) <==> r == Err::<Genome, GenomeError>(
                GenomeError::MaxNodes,
            ),
            r matches Ok(g) ==> {
                &&& g.nodes@.len() == self.nodes@.len() + 1
                &&& g.connections@.len() == self.connections@.len() + 2
                &&& nodes_eq_mod_position(g.nodes@.take(self.nodes@.len() as int), self.nodes@)
                &&& g.nodes@.last().neuron_type == NeuronType::Hidden
                &&& g.nodes@.last().enabled
                &&& !has_id(self.nodes@, g.nodes@.last().id)
                &&& self.inputs <= g.nodes@.last().id < config.node_max - self.outputs
                &&& all_typed(self.nodes@) ==> g.positions_ok()
                &&& self.counts_ok() ==> g.counts_ok()
                &&& exists|ci: int|
                    0 <= ci < self.connections@.len() && g.connections@ =~= self.connections@.update(
                        ci,
                        self.connections@[ci].with_enabled_spec(false),
                    ).push(
                        Connection {
                            from: self.connections@[ci].from,
                            to: g.nodes@.last().id,
                            weight: 0x3F800000,
                            enabled: true,
                        },
                    ).push(
                        Connection {
                            from: g.nodes@.last().id,
                            to: self.connections@[ci].to,
                            weight: self.connections@[ci].weight,
                            enabled: true,
                        },
                    )
                &&& g.inputs == self.inputs
                &&& g.outputs == self.outputs
            },
            r matches Err(e) ==> (e == GenomeError::MaxNodes || e == GenomeError::AddNodeNodeIdNotFound
                || e == GenomeError::SortNodesStacked),
    {
        if self.nodes.len() >= config.node_max {
            return Err(GenomeError::MaxNodes);
        }
        if self.connections.len() == 0 {
            return Err(GenomeError::AddNodeNodeIdNotFound);
        }
        if config.node_max > u32::MAX as usize {
            return Err(GenomeError::AddNodeNodeIdNotFound);
        }
        if self.outputs as usize > config.node_max {
            return Err(GenomeError::AddNodeNodeIdNotFound);
        }
        let upper = (config.node_max as u32) - self.outputs;
        let node_id = match draw_free_id(rng, self.inputs, upper, &self.nodes) {
            Some(id) => id,
            None => {
                return Err(GenomeError::AddNodeNodeIdNotFound);
            },
        };

        let conn = rng.next_below(self.connections.len());
        let connection = self.connections[conn];

        let activations = Activation::to_vec();
        let act = activations[rng.next_below(9)];

        let node = Node::new(
            NeuronType::Hidden,
            node_id,
            rng.next_weight(config.node_bias),
            Some(act),
            None,
        );

        let mut new_nodes = copy_nodes(&self.nodes);
        new_nodes.push(node);
        let mut new_conns = copy_connections(&self.connections);
        let mut split = new_conns[conn];
        split.set_enabled(false);
        new_conns.set(conn, split);
        new_conns.push(Connection::new(connection.get_from(), node_id, 0x3F800000));
        new_conns.push(Connection::new(node_id, connection.get_to(), connection.get_weight()));

        let mut genome = Genome {
            nodes: new_nodes,
            connections: new_conns,
            inputs: self.inputs,
            outputs: self.outputs,
        };
        let ghost pre_nodes = genome.nodes@;
        match genome.sort_nodes() {
            Ok(_) => {
                proof {
                    assert(pre_nodes == self.nodes@.push(node));
                    assert(eq_mod_position(
                        genome.nodes@[pre_nodes.len() - 1],
                        pre_nodes[pre_nodes.len() - 1],
                    ));
                    assert(genome.nodes@.last().id == node_id);
                    assert(genome.nodes@.last().neuron_type == NeuronType::Hidden);
                    assert(genome.nodes@.last().enabled);
                    assert forall|k: int| 0 <= k < self.nodes@.len() implies eq_mod_position(
                        #[trigger] genome.nodes@.take(self.nodes@.len() as int)[k],
                        self.nodes@[k],
                    ) by {
                        assert(genome.nodes@.take(self.nodes@.len() as int)[k]
                            == genome.nodes@[k]);
                        assert(eq_mod_position(genome.nodes@[k], pre_nodes[k]));
                    }
                    lemma_count_type_eq_mod(
                        genome.nodes@.take(self.nodes@.len() as int),
                        self.nodes@,
                        NeuronType::Input,
                    );
                    lemma_count_type_eq_mod(
                        genome.nodes@.take(self.nodes@.len() as int),
                        self.nodes@,
                        NeuronType::Output,
                    );
                    assert(genome.nodes@.drop_last() =~= genome.nodes@.take(
                        self.nodes@.len() as int,
                    ));
                    assert(genome.connections@ =~= self.connections@.update(
                        conn as int,
                        self.connections@[conn as int].with_enabled_spec(false),
                    ).push(
                        Connection {
                            from: self.connections@[conn as int].from,
                            to: genome.nodes@.last().id,
                            weight: 0x3F800000,
                            enabled: true,
                        },
                    ).push(
                        Connection {
                            from: genome.nodes@.last().id,
                            to: self.connections@[conn as int].to,
                            weight: self.connections@[conn as int].weight,
                            enabled: true,
                        },
                    ));
                }
                Ok(genome)
            },
            Err(e) => Err(e),
        }
    }

    /// Perturbs the weight of one enabled connection, chosen uniformly
    /// with up to ten attempts; every other connection and every node is
    /// left untouched. Fails with `ConnectionWeightIndexNotFound` when
    /// the genome has no connections or ten draws found no enabled one.
    pub fn mutate_connection_weight<R: RandomSource>(&self, config: &Config, rng: &mut R) -> (r:
        Result<Genome, GenomeError>)
        ensures
            self.connections@.len() == 0 ==> r == Err::<Genome, GenomeError>(
                GenomeError::ConnectionWeightIndexNotFound,
            ),
            r matches Ok(g) ==> {
                &&& g.nodes@ == self.nodes@
                &&& g.inputs == self.inputs
                &&& g.outputs == self.outputs
                &&& exists|ci: int|
                    0 <= ci < self.connections@.len() && self.connections@[ci].enabled
                        && g.connections@ =~= self.connections@.update(
                        ci,
                        self.connections@[ci].with_weight_spec(g.connections@[ci].weight),
                    )
                &&& self.counts_ok() ==> g.counts_ok()
            },
            r matches Err(e) ==> e == GenomeError::ConnectionWeightIndexNotFound,
            (self.connections@.len() > 0 && (forall|ci: int|
                0 <= ci < self.connections@.len() ==> (#[trigger] self.connections@[ci]).enabled))
                ==> r is Ok,
    {
        if self.connections.len() == 0 {
            return Err(GenomeError::ConnectionWeightIndexNotFound);
        }
        let ghost all_enabled = forall|ci: int|
            0 <= ci < self.connections@.len() ==> (#[trigger] self.connections@[ci]).enabled;
        let mut tries: u32 = 10;
        while tries > 0
            invariant
                self.connections@.len() > 0,
                all_enabled == (forall|ci: int|
                    0 <= ci < self.connections@.len() ==> (
                    #[trigger] self.connections@[ci]).enabled),
                all_enabled ==> tries == 10,
            decreases tries,
        {
            let ci = rng.next_below(self.connections.len());
            let connection = self.connections[ci];
            if connection.get_enabled() {
                let mut new_conns = copy_connections(&self.connections);
                let mut picked = new_conns[ci];
                picked.set_weight(
                    rng.next_perturbed(connection.get_weight(), config.connection_weight_delta),
                );
                new_conns.set(ci, picked);
                let genome = Genome {
                    nodes: copy_nodes(&self.nodes),
                    connections: new_conns,
                    inputs: self.inputs,
                    outputs: self.outputs,
                };
                proof {
                    assert(genome.connections@ =~= self.connections@.update(
                        ci as int,
                        self.connections@[ci as int].with_weight_spec(
                            genome.connections@[ci as int].weight,
                        ),
                    ));
                }
                return Ok(genome);
            }
            proof {
                if all_enabled {
                    assert(false);
                }
            }
            tries -= 1;
        }
        Err(GenomeError::ConnectionWeightIndexNotFound)
    }

    /// Toggles the enabled flag of one connection chosen uniformly from
    /// the pool of connections whose destination node exists, weighting
    /// destinations by their fan-in. Fails with
    /// `ConnectionEnabledApplicantNotFound` exactly when that pool is
    /// empty.
    pub fn mutate_connection_enabled<R: RandomSource>(&self, rng: &mut R) -> (r: Result<
        Genome,
        GenomeError,
    >)
        ensures
            r matches Ok(g) ==> {
                &&& g.nodes@ == self.nodes@
                &&& g.inputs == self.inputs
                &&& g.outputs == self.outputs
                &&& exists|ci: int|
                    0 <= ci < self.connections@.len() && has_id(
                        self.nodes@,
                        self.connections@[ci].to,
                    ) && g.connections@ =~= self.connections@.update(
                        ci,
                        self.connections@[ci].with_enabled_spec(
                            !self.connections@[ci].enabled,
                        ),
                    )
                &&& self.counts_ok() ==> g.counts_ok()
            },
            r matches Err(e) ==> e == GenomeError::ConnectionEnabledApplicantNotFound,
            (r is Err) <==> (forall|ci: int|
                0 <= ci < self.connections@.len() ==> !has_id(
                    self.nodes@,
                    (#[trigger] self.connections@[ci]).to,
                )),
    {
        let mut pool: Vec<usize> = Vec::new();
        let mut ci: usize = 0;
        while ci < self.connections.len()
            invariant
                ci <= self.connections@.len(),
                forall|k: int|
                    0 <= k < pool@.len() ==> 0 <= #[trigger] pool@[k] < ci as int && has_id(
                        self.nodes@,
                        self.connections@[pool@[k] as int].to,
                    ),
                (pool@.len() == 0) ==> (forall|k: int|
                    0 <= k < ci ==> !has_id(self.nodes@, (#[trigger] self.connections@[k]).to)),
            decreases self.connections@.len() - ci,
        {
            if contains_id(&self.nodes, self.connections[ci].get_to()) {
                pool.push(ci);
            }
            ci += 1;
        }
        if pool.len() == 0 {
            return Err(GenomeError::ConnectionEnabledApplicantNotFound);
        }
        let picked = pool[rng.next_below(pool.len())];
        let mut new_conns = copy_connections(&self.connections);
        let mut conn = new_conns[picked];
        conn.toggle_enabled();
        new_conns.set(picked, conn);
        let genome = Genome {
            nodes: copy_nodes(&self.nodes),
            connections: new_conns,
            inputs: self.inputs,
            outputs: self.outputs,
        };
        proof {
            assert(genome.connections@ =~= self.connections@.update(
                picked as int,
                self.connections@[picked as int].with_enabled_spec(
                    !self.connections@[picked as int].enabled,
                ),
            ));
        }
        Ok(genome)
    }

    /// Unites this genome with the hidden nodes of `child` that it lacks
    /// and with the connections of `child` whose identity keys it lacks,
    /// then rebuilds the topology. Fails with `MaxNodes` when the union
    /// exceeds the positional range, and with `SortNodesStacked` when the
    /// rebuilt topology cannot be sorted.
    pub fn mutate_crossover(&self, child: &Genome) -> (r: Result<Genome, GenomeError>)
        ensures
            r matches Ok(g) ==> {
                &&& nodes_eq_mod_position(
                    g.nodes@,
                    self.nodes@ + crossover_nodes(self.nodes@, child.nodes@),
                )
                &&& g.connections@ == self.connections@ + crossover_conns(
                    self.connections@,
                    child.connections@,
                )
                &&& all_typed(self.nodes@ + crossover_nodes(self.nodes@, child.nodes@))
                    ==> g.positions_ok()
                &&& g.counts_ok()
                &&& g.inputs == count_type(self.nodes@, NeuronType::Input)
                &&& g.outputs == count_type(self.nodes@, NeuronType::Output)
                &&& self.counts_ok() ==> (g.inputs == self.inputs && g.outputs == self.outputs)
            },
            r matches Err(e) ==> (e == GenomeError::MaxNodes || e == GenomeError::SortNodesStacked),
    {
        let mut nodes = copy_nodes(&self.nodes);
        let mut i: usize = 0;
        while i < child.nodes.len()
            invariant
                i <= child.nodes@.len(),
                nodes@ == self.nodes@ + crossover_nodes(self.nodes@, child.nodes@.take(i as int)),
            decreases child.nodes@.len() - i,
        {
            proof {
                assert(child.nodes@.take(i + 1int).drop_last() =~= child.nodes@.take(i as int));
                assert(child.nodes@.take(i + 1int).last() == child.nodes@[i as int]);
            }
            let nd = &child.nodes[i];
            if nd.get_type().to_bytes() == 2 && !contains_hidden_id(&self.nodes, nd.get_id()) {
                nodes.push(child.nodes[i]);
                proof {
                    assert(nodes@ =~= self.nodes@ + crossover_nodes(
                        self.nodes@,
                        child.nodes@.take(i + 1int),
                    ));
                }
            }
            i += 1;
        }
        proof {
            assert(child.nodes@.take(child.nodes@.len() as int) =~= child.nodes@);
        }

        let mut connections = copy_connections(&self.connections);
        let mut i: usize = 0;
        while i < child.connections.len()
            invariant
                i <= child.connections@.len(),
                connections@ == self.connections@ + crossover_conns(
                    self.connections@,
                    child.connections@.take(i as int),
                ),
            decreases child.connections@.len() - i,
        {
            proof {
                assert(child.connections@.take(i + 1int).drop_last() =~= child.connections@.take(
                    i as int,
                ));
                assert(child.connections@.take(i + 1int).last() == child.connections@[i as int]);
            }
            let c = &child.connections[i];
            if !contains_conn_key(&self.connections, c.get_from(), c.get_to()) {
                connections.push(child.connections[i]);
                proof {
                    assert(connections@ =~= self.connections@ + crossover_conns(
                        self.connections@,
                        child.connections@.take(i + 1int),
                    ));
                }
            }
            i += 1;
        }
        proof {
            assert(child.connections@.take(child.connections@.len() as int)
                =~= child.connections@);
        }

        if nodes.len() > u32::MAX as usize {
            return Err(GenomeError::MaxNodes);
        }
        proof {
            lemma_count_type_concat(
                self.nodes@,
                crossover_nodes(self.nodes@, child.nodes@),
                NeuronType::Input,
            );
            lemma_count_type_concat(
                self.nodes@,
                crossover_nodes(self.nodes@, child.nodes@),
                NeuronType::Output,
            );
            lemma_crossover_nodes_no_io(self.nodes@, child.nodes@, NeuronType::Input);
            lemma_crossover_nodes_no_io(self.nodes@, child.nodes@, NeuronType::Output);
        }
        Genome::new(nodes, connections)
    }
}

} // verus!

verus! {

/// Every identifier listed for a role belongs to a node of that role.
proof fn lemma_ids_of_type_has(nodes: Seq<Node>, t: NeuronType, k: int)
    requires
        0 <= k < ids_of_type(nodes, t).len(),
    ensures
        exists|j: int|
            0 <= j < nodes.len() && (#[trigger] nodes[j]).id == ids_of_type(nodes, t)[k]
                && nodes[j].neuron_type == t,
    decreases nodes.len(),
{
    if nodes.len() > 0 {
        let rest = ids_of_type(nodes.drop_last(), t);
        if nodes.last().neuron_type == t && k == rest.len() {
            assert(nodes[nodes.len() - 1].id == ids_of_type(nodes, t)[k]);
        } else {
            lemma_ids_of_type_has(nodes.drop_last(), t, k);
            let j = choose|j: int|
                0 <= j < nodes.len() - 1 && (#[trigger] nodes.drop_last()[j]).id == ids_of_type(
                    nodes.drop_last(),
                    t,
                )[k] && nodes.drop_last()[j].neuron_type == t;
            assert(nodes[j].id == ids_of_type(nodes, t)[k] && nodes[j].neuron_type == t);
        }
    }
}

impl Genome {
    /// Moves the bias of one node chosen uniformly among the hidden and
    /// output nodes; everything else is left untouched. Fails with
    /// `NodeBiasApplicantNotFound` when no such node exists.
    pub fn mutate_node_bias<R: RandomSource>(&self, config: &Config, rng: &mut R) -> (r: Result<
        Genome,
        GenomeError,
    >)
        ensures
            r matches Ok(g) ==> {
                &&& g.connections@ == self.connections@
                &&& g.inputs == self.inputs
                &&& g.outputs == self.outputs
                &&& exists|ni: int|
                    0 <= ni < self.nodes@.len() && (exists|j: int|
                        0 <= j < self.nodes@.len() && (#[trigger] self.nodes@[j]).id
                            == self.nodes@[ni].id && (self.nodes@[j].neuron_type
                            == NeuronType::Hidden || self.nodes@[j].neuron_type
                            == NeuronType::Output)) && g.nodes@ =~= self.nodes@.update(
                        ni,
                        self.nodes@[ni].with_bias_spec(g.nodes@[ni].bias),
                    )
                &&& self.counts_ok() ==> g.counts_ok()
            },
            r matches Err(e) ==> e == GenomeError::NodeBiasApplicantNotFound,
            (r is Err) <==> (ids_of_type(self.nodes@, NeuronType::Hidden).len() + ids_of_type(
                self.nodes@,
                NeuronType::Output,
            ).len() == 0),
    {
        let mut pool = self.get_hidden_node_ids();
        let mut outs = self.get_output_node_ids();
        let ghost hid_ids = ids_of_type(self.nodes@, NeuronType::Hidden);
        let ghost out_ids = ids_of_type(self.nodes@, NeuronType::Output);
        let mut k: usize = 0;
        while k < outs.len()
            invariant
                k <= out_ids.len(),
                outs@ == out_ids,
                pool@ == hid_ids + out_ids.take(k as int),
            decreases out_ids.len() - k,
        {
            pool.push(outs[k]);
            proof {
                assert(pool@ =~= hid_ids + out_ids.take(k + 1int));
            }
            k += 1;
        }
        proof {
            assert(out_ids.take(out_ids.len() as int) =~= out_ids);
        }
        if pool.len() == 0 {
            return Err(GenomeError::NodeBiasApplicantNotFound);
        }
        let pk = rng.next_below(pool.len());
        let applicant = pool[pk];
        proof {
            if pk < hid_ids.len() {
                lemma_ids_of_type_has(self.nodes@, NeuronType::Hidden, pk as int);
            } else {
                lemma_ids_of_type_has(self.nodes@, NeuronType::Output, pk - hid_ids.len());
            }
        }
        let index = match self.get_node_position_by_id(applicant) {
            Some(i) => i,
            None => {
                return Err(GenomeError::NodeBiasPositionNotFound);
            },
        };
        let mut new_nodes = copy_nodes(&self.nodes);
        let mut node = new_nodes[index];
        node.set_bias(rng.next_perturbed(node.get_bias(), config.node_bias_delta));
        new_nodes.set(index, node);
        let genome = Genome {
            nodes: new_nodes,
            connections: copy_connections(&self.connections),
            inputs: self.inputs,
            outputs: self.outputs,
        };
        proof {
            let j = choose|j: int|
                0 <= j < self.nodes@.len() && (#[trigger] self.nodes@[j]).id == applicant
                    && (self.nodes@[j].neuron_type == NeuronType::Hidden
                    || self.nodes@[j].neuron_type == NeuronType::Output);
            assert(self.nodes@[index as int].id == applicant);
            assert(self.nodes@[j].id == self.nodes@[index as int].id);
            assert(genome.nodes@ =~= self.nodes@.update(
                index as int,
                self.nodes@[index as int].with_bias_spec(genome.nodes@[index as int].bias),
            ));
            lemma_count_type_update_same(
                self.nodes@,
                index as int,
                genome.nodes@[index as int],
                NeuronType::Input,
            );
            lemma_count_type_update_same(
                self.nodes@,
                index as int,
                genome.nodes@[index as int],
                NeuronType::Output,
            );
        }
        Ok(genome)
    }

    /// Replaces the activation of one node chosen uniformly among the
    /// input nodes by a uniformly chosen activation; everything else is
    /// left untouched. The applicant pool is deliberately the input
    /// nodes, letting input preprocessing evolve. Fails with
    /// `NodeActivationApplicantNotFound` when no input node exists.
    pub fn mutate_node_activation<R: RandomSource>(&self, config: &Config, rng: &mut R) -> (r:
        Result<Genome, GenomeError>)
        ensures
            r matches Ok(g) ==> {
                &&& g.connections@ == self.connections@
                &&& g.inputs == self.inputs
                &&& g.outputs == self.outputs
                &&& exists|ni: int|
                    0 <= ni < self.nodes@.len() && (exists|j: int|
                        0 <= j < self.nodes@.len() && (#[trigger] self.nodes@[j]).id
                            == self.nodes@[ni].id && self.nodes@[j].neuron_type
                            == NeuronType::Input) && g.nodes@ =~= self.nodes@.update(
                        ni,
                        self.nodes@[ni].with_activation_spec(g.nodes@[ni].activation),
                    )
                &&& self.counts_ok() ==> g.counts_ok()
            },
            r matches Err(e) ==> e == GenomeError::NodeActivationApplicantNotFound,
            (r is Err) <==> ids_of_type(self.nodes@, NeuronType::Input).len() == 0,
    {
        let _ = config;
        let pool = self.get_input_node_ids();
        if pool.len() == 0 {
            return Err(GenomeError::NodeActivationApplicantNotFound);
        }
        let pk = rng.next_below(pool.len());
        let applicant = pool[pk];
        proof {
            lemma_ids_of_type_has(self.nodes@, NeuronType::Input, pk as int);
        }
        let index = match self.get_node_position_by_id(applicant) {
            Some(i) => i,
            None => {
                return Err(GenomeError::NodeActivationPositionNotFound);
            },
        };
        let activations = Activation::to_vec();
        let act = activations[rng.next_below(9)];
        let mut new_nodes = copy_nodes(&self.nodes);
        let mut node = new_nodes[index];
        node.set_activation(act);
        new_nodes.set(index, node);
        let genome = Genome {
            nodes: new_nodes,
            connections: copy_connections(&self.connections),
            inputs: self.inputs,
            outputs: self.outputs,
        };
        proof {
            let j = choose|j: int|
                0 <= j < self.nodes@.len() && (#[trigger] self.nodes@[j]).id == applicant
                    && self.nodes@[j].neuron_type == NeuronType::Input;
            assert(self.nodes@[index as int].id == applicant);
            assert(self.nodes@[j].id == self.nodes@[index as int].id);
            assert(genome.nodes@ =~= self.nodes@.update(
                index as int,
                self.nodes@[index as int].with_activation_spec(
                    genome.nodes@[index as int].activation,
                ),
            ));
            lemma_count_type_update_same(
                self.nodes@,
                index as int,
                genome.nodes@[index as int],
                NeuronType::Input,
            );
            lemma_count_type_update_same(
                self.nodes@,
                index as int,
                genome.nodes@[index as int],
                NeuronType::Output,
            );
        }
        Ok(genome)
    }

    /// Flips the enabled flag of one node chosen uniformly among the
    /// hidden and input nodes; everything else is left untouched. Fails
    /// with `NodeEnabledApplicantNotFound` when no such node exists.
    pub fn mutate_node_enabled<R: RandomSource>(&self, config: &Config, rng: &mut R) -> (r: Result<
        Genome,
        GenomeError,
    >)
        ensures
            r matches Ok(g) ==> {
                &&& g.connections@ == self.connections@
                &&& g.inputs == self.inputs
                &&& g.outputs == self.outputs
                &&& exists|ni: int|
                    0 <= ni < self.nodes@.len() && (exists|j: int|
                        0 <= j < self.nodes@.len() && (#[trigger] self.nodes@[j]).id
                            == self.nodes@[ni].id && (self.nodes@[j].neuron_type
                            == NeuronType::Hidden || self.nodes@[j].neuron_type
                            == NeuronType::Input)) && g.nodes@ =~= self.nodes@.update(
                        ni,
                        self.nodes@[ni].with_enabled_spec(!self.nodes@[ni].enabled),
                    )
                &&& self.counts_ok() ==> g.counts_ok()
            },
            r matches Err(e) ==> e == GenomeError::NodeEnabledApplicantNotFound,
            (r is Err) <==> (ids_of_type(self.nodes@, NeuronType::Hidden).len() + ids_of_type(
                self.nodes@,
                NeuronType::Input,
            ).len() == 0),
    {
        let _ = config;
        let mut pool = self.get_hidden_node_ids();
        let mut ins = self.get_input_node_ids();
        let ghost hid_ids = ids_of_type(self.nodes@, NeuronType::Hidden);
        let ghost in_ids = ids_of_type(self.nodes@, NeuronType::Input);
        let mut k: usize = 0;
        while k < ins.len()
            invariant
                k <= in_ids.len(),
                ins@ == in_ids,
                pool@ == hid_ids + in_ids.take(k as int),
            decreases in_ids.len() - k,
        {
            pool.push(ins[k]);
            proof {
                assert(pool@ =~= hid_ids + in_ids.take(k + 1int));
            }
            k += 1;
        }
        proof {
            assert(in_ids.take(in_ids.len() as int) =~= in_ids);
        }
        if pool.len() == 0 {
            return Err(GenomeError::NodeEnabledApplicantNotFound);
        }
        let pk = rng.next_below(pool.len());
        let applicant = pool[pk];
        proof {
            if pk < hid_ids.len() {
                lemma_ids_of_type_has(self.nodes@, NeuronType::Hidden, pk as int);
            } else {
                lemma_ids_of_type_has(self.nodes@, NeuronType::Input, pk - hid_ids.len());
            }
        }
        let index = match self.get_node_position_by_id(applicant) {
            Some(i) => i,
            None => {
                return Err(GenomeError::NodeEnabledPositionNotFound);
            },
        };
        let mut new_nodes = copy_nodes(&self.nodes);
        let mut node = new_nodes[index];
        node.toggle_enabled();
        new_nodes.set(index, node);
        let genome = Genome {
            nodes: new_nodes,
            connections: copy_connections(&self.connections),
            inputs: self.inputs,
            outputs: self.outputs,
        };
        proof {
            let j = choose|j: int|
                0 <= j < self.nodes@.len() && (#[trigger] self.nodes@[j]).id == applicant
                    && (self.nodes@[j].neuron_type == NeuronType::Hidden
                    || self.nodes@[j].neuron_type == NeuronType::Input);
            assert(self.nodes@[index as int].id == applicant);
            assert(self.nodes@[j].id == self.nodes@[index as int].id);
            assert(genome.nodes@ =~= self.nodes@.update(
                index as int,
                self.nodes@[index as int].with_enabled_spec(
                    !self.nodes@[index as int].enabled,
                ),
            ));
            lemma_count_type_update_same(
                self.nodes@,
                index as int,
                genome.nodes@[index as int],
                NeuronType::Input,
            );
            lemma_count_type_update_same(
                self.nodes@,
                index as int,
                genome.nodes@[index as int],
                NeuronType::Output,
            );
        }
        Ok(genome)
    }
}

} // verus!

verus! {

use crate::config::Config as Cfg;
use crate::rng::RandomSource as Rng;

/// Role counts distribute over concatenation.
proof fn lemma_count_type_concat(a: Seq<Node>, b: Seq<Node>, t: NeuronType)
    ensures
        count_type(a + b, t) == count_type(a, t) + count_type(b, t),
    decreases b.len(),
{
    if b.len() == 0 {
        assert(a + b =~= a);
    } else {
        assert((a + b).drop_last() =~= a + b.drop_last());
        assert((a + b).last() == b.last());
        lemma_count_type_concat(a, b.drop_last(), t);
    }
}

/// Replacing a node by one of the same role keeps every role count.
proof fn lemma_count_type_update_same(s: Seq<Node>, i: int, nd: Node, t: NeuronType)
    requires
        0 <= i < s.len(),
        nd.neuron_type == s[i].neuron_type,
    ensures
        count_type(s.update(i, nd), t) == count_type(s, t),
    decreases s.len(),
{
    if i == s.len() - 1 {
        assert(s.update(i, nd).drop_last() =~= s.drop_last());
        assert(s.update(i, nd).last() == nd);
    } else {
        assert(s.update(i, nd).drop_last() =~= s.drop_last().update(i, nd));
        assert(s.update(i, nd).last() == s.last());
        lemma_count_type_update_same(s.drop_last(), i, nd, t);
    }
}

/// The crossover additions are hidden nodes only, so they add nothing to
/// any other role count.
proof fn lemma_crossover_nodes_no_io(base: Seq<Node>, child: Seq<Node>, t: NeuronType)
    requires
        t != NeuronType::Hidden,
    ensures
        count_type(crossover_nodes(base, child), t) == 0,
    decreases child.len(),
{
    if child.len() > 0 {
        lemma_crossover_nodes_no_io(base, child.drop_last(), t);
        let rest = crossover_nodes(base, child.drop_last());
        let nd = child.last();
        if nd.neuron_type == NeuronType::Hidden && !hidden_has_id(base, nd.id) {
            assert(rest.push(nd).drop_last() =~= rest);
        }
    }
}

/// Whether the node pair `(x, y)` may receive a fresh connection: both
/// enabled, in increasing collection order, typed input-to-hidden,
/// input-to-output or hidden-to-output, and not yet connected.
pub open spec fn eligible_pair(g: Genome, x: int, y: int) -> bool {
    &&& 0 <= x < y < g.nodes@.len()
    &&& g.nodes@[x].enabled
    &&& g.nodes@[y].enabled
    &&& ((g.nodes@[x].neuron_type == NeuronType::Input && g.nodes@[y].neuron_type
        == NeuronType::Hidden) || (g.nodes@[x].neuron_type == NeuronType::Input
        && g.nodes@[y].neuron_type == NeuronType::Output) || (g.nodes@[x].neuron_type
        == NeuronType::Hidden && g.nodes@[y].neuron_type == NeuronType::Output))
    &&& !has_conn_key(g.connections@, g.nodes@[x].id, g.nodes@[y].id)
}

impl Genome {
    /// The composite mutation entry point: rolls one independent
    /// Bernoulli trial per operator family, in a fixed order (crossover,
    /// add node, add connection, toggle connection, perturb weights,
    /// toggle node, perturb bias, change activation), threading the
    /// result forward; a failed sub-operator leaves the genome unchanged
    /// and processing continues, so the composite never fails.
    pub fn mutate<R: Rng>(&self, child: Option<&Genome>, config: &Cfg, rng: &mut R) -> (r: Result<
        Genome,
        GenomeError,
    >)
        ensures
            r is Ok,
            r matches Ok(g) ==> (self.counts_ok() ==> (g.counts_ok() && g.inputs == self.inputs
                && g.outputs == self.outputs)),
            (config.crossover == 0 && config.add_node == 0 && config.add_connection == 0
                && config.connection_enabled == 0 && config.connection_weight_prob == 0
                && config.node_enabled == 0 && config.node_bias_prob == 0
                && config.node_activation_prob == 0) ==> (r matches Ok(g) && g.nodes@
                == self.nodes@ && g.connections@ == self.connections@ && g.inputs == self.inputs
                && g.outputs == self.outputs),
    {
        let mut genome = Genome {
            nodes: copy_nodes(&self.nodes),
            connections: copy_connections(&self.connections),
            inputs: self.inputs,
            outputs: self.outputs,
        };

        match child {
            Some(child) => {
                if rng.coin(config.crossover) {
                    if let Ok(g) = genome.mutate_crossover(child) {
                        genome = g;
                    }
                }
            },
            None => {},
        }

        if rng.coin(config.add_node) {
            if let Ok(g) = genome.mutate_add_node(config, rng) {
                genome = g;
            }
        }

        if rng.coin(config.add_connection) {
            if let Ok(g) = genome.mutate_add_connection(config, rng) {
                genome = g;
            }
        }

        if rng.coin(config.connection_enabled) {
            if let Ok(g) = genome.mutate_connection_enabled(rng) {
                genome = g;
            }
        }

        if rng.coin(config.connection_weight_prob) {
            let retry = if config.connection_weight_iter > 1 {
                1 + rng.next_below(config.connection_weight_iter - 1)
            } else {
                1
            };
            let mut it: usize = 0;
            while it < retry
                invariant
                    self.counts_ok() ==> (genome.counts_ok() && genome.inputs == self.inputs
                        && genome.outputs == self.outputs),
                decreases retry - it,
            {
                if let Ok(g) = genome.mutate_connection_weight(config, rng) {
                    genome = g;
                }
                it += 1;
            }
        }

        if rng.coin(config.node_enabled) {
            if let Ok(g) = genome.mutate_node_enabled(config, rng) {
                genome = g;
            }
        }

        if rng.coin(config.node_bias_prob) {
            if let Ok(g) = genome.mutate_node_bias(config, rng) {
                genome = g;
            }
        }

        if rng.coin(config.node_activation_prob) {
            if let Ok(g) = genome.mutate_node_activation(config, rng) {
                genome = g;
            }
        }

        Ok(genome)
    }

    /// Adds one connection between a uniformly chosen eligible node pair:
    /// both nodes enabled, in increasing collection order, typed
    /// input-to-hidden, input-to-output or hidden-to-output, and not yet
    /// connected. Fails with `MaxConnections` exactly when the connection
    /// cap is reached; when no eligible pair remains the genome is
    /// returned unchanged.
    pub fn mutate_add_connection<R: Rng>(&self, config: &Cfg, rng: &mut R) -> (r: Result<
        Genome,
        GenomeError,
    >)
        ensures
            (self.connections@.len() >= config.connection_max) <==> r == Err::<
                Genome,
                GenomeError,
            >(GenomeError::MaxConnections),
            r matches Ok(g) ==> {
                &&& g.nodes@ == self.nodes@
                &&& g.inputs == self.inputs
                &&& g.outputs == self.outputs
                &&& (self.counts_ok() ==> g.counts_ok())
                &&& ((g.connections@ == self.connections@ && (forall|x: int, y: int|
                    !(#[trigger] eligible_pair(*self, x, y)))) || (
                g.connections@.len() == self.connections@.len() + 1
                    && g.connections@.take(self.connections@.len() as int) == self.connections@
                    && g.connections@.last().enabled && !has_conn_key(
                    self.connections@,
                    g.connections@.last().from,
                    g.connections@.last().to,
                ) && exists|a: int, b: int|
                    {
                        &&& 0 <= a < b < self.nodes@.len()
                        &&& (#[trigger] self.nodes@[a]).enabled
                        &&& (#[trigger] self.nodes@[b]).enabled
                        &&& self.nodes@[a].id == g.connections@.last().from
                        &&& self.nodes@[b].id == g.connections@.last().to
                        &&& ((self.nodes@[a].neuron_type == NeuronType::Input
                            && self.nodes@[b].neuron_type == NeuronType::Hidden) || (
                        self.nodes@[a].neuron_type == NeuronType::Input
                            && self.nodes@[b].neuron_type == NeuronType::Output) || (
                        self.nodes@[a].neuron_type == NeuronType::Hidden
                            && self.nodes@[b].neuron_type == NeuronType::Output))
                    }))
            },
            r matches Err(e) ==> e == GenomeError::MaxConnections,
    {
        if self.connections.len() >= config.connection_max {
            return Err(GenomeError::MaxConnections);
        }

        let mut applicants: Vec<(usize, usize)> = Vec::new();
        let mut a: usize = 0;
        while a < self.nodes.len()
            invariant
                a <= self.nodes@.len(),
                applicants@.len() == 0 ==> (forall|x: int, y: int|
                    x < a as int ==> !(#[trigger] eligible_pair(*self, x, y))),
                forall|k: int|
                    0 <= k < applicants@.len() ==> {
                        let x = (#[trigger] applicants@[k]).0 as int;
                        let y = applicants@[k].1 as int;
                        &&& 0 <= x < y < self.nodes@.len()
                        &&& self.nodes@[x].enabled
                        &&& self.nodes@[y].enabled
                        &&& ((self.nodes@[x].neuron_type == NeuronType::Input
                            && self.nodes@[y].neuron_type == NeuronType::Hidden) || (
                        self.nodes@[x].neuron_type == NeuronType::Input
                            && self.nodes@[y].neuron_type == NeuronType::Output) || (
                        self.nodes@[x].neuron_type == NeuronType::Hidden
                            && self.nodes@[y].neuron_type == NeuronType::Output))
                        &&& !has_conn_key(
                            self.connections@,
                            self.nodes@[x].id,
                            self.nodes@[y].id,
                        )
                    },
            decreases self.nodes@.len() - a,
        {
            if self.nodes[a].get_enabled() {
                let mut b: usize = a + 1;
                while b < self.nodes.len()
                    invariant
                        a < self.nodes@.len(),
                        a < b,
                        b <= self.nodes@.len(),
                        self.nodes@[a as int].enabled,
                        applicants@.len() == 0 ==> (forall|x: int, y: int|
                            (x < a as int || (x == a as int && y < b as int)) ==> !(
                            #[trigger] eligible_pair(*self, x, y))),
                        forall|k: int|
                            0 <= k < applicants@.len() ==> {
                                let x = (#[trigger] applicants@[k]).0 as int;
                                let y = applicants@[k].1 as int;
                                &&& 0 <= x < y < self.nodes@.len()
                                &&& self.nodes@[x].enabled
                                &&& self.nodes@[y].enabled
                                &&& ((self.nodes@[x].neuron_type == NeuronType::Input
                                    && self.nodes@[y].neuron_type == NeuronType::Hidden) || (
                                self.nodes@[x].neuron_type == NeuronType::Input
                                    && self.nodes@[y].neuron_type == NeuronType::Output) || (
                                self.nodes@[x].neuron_type == NeuronType::Hidden
                                    && self.nodes@[y].neuron_type == NeuronType::Output))
                                &&& !has_conn_key(
                                    self.connections@,
                                    self.nodes@[x].id,
                                    self.nodes@[y].id,
                                )
                            },
                    decreases self.nodes@.len() - b,
                {
                    if self.nodes[b].get_enabled() {
                        let ta = self.nodes[a].get_type().to_bytes();
                        let tb = self.nodes[b].get_type().to_bytes();
                        let eligible = (ta == 1 && tb == 2) || (ta == 1 && tb == 3) || (ta == 2
                            && tb == 3);
                        if eligible && !contains_conn_key(
                            &self.connections,
                            self.nodes[a].get_id(),
                            self.nodes[b].get_id(),
                        ) {
                            applicants.push((a, b));
                        }
                    }
                    b += 1;
                }
            }
            a += 1;
        }

        let mut genome = Genome {
            nodes: copy_nodes(&self.nodes),
            connections: copy_connections(&self.connections),
            inputs: self.inputs,
            outputs: self.outputs,
        };
        if applicants.len() > 0 {
            let pick = applicants[rng.next_below(applicants.len())];
            let from_id = self.nodes[pick.0].get_id();
            let to_id = self.nodes[pick.1].get_id();
            genome.add_connection(
                Connection::new(from_id, to_id, rng.next_weight(config.connection_weight)),
            );
            proof {
                assert(genome.connections@.take(self.connections@.len() as int)
                    =~= self.connections@);
            }
        }
        Ok(genome)
    }
}

} // verus!

verus! {

use crate::config::Config as Conf;
use crate::rng::RandomSource as RngSrc;

/// Whether a connection runs from input identifier `i` to the output
/// identifier `base + o`.
pub open spec fn connects_io(conns: Seq<Connection>, base: int, i: int, o: int) -> bool {
    has_conn_key(conns, i as u32, (base + o) as u32)
}

/// The connection at flat index `o * inputs + i` of a fully connected
/// layer, one block of `inputs` connections per output.
pub open spec fn conn_at(conns: Seq<Connection>, inputs: int, o: int, i: int) -> Connection {
    conns[o * inputs + i]
}

/// The total number of hidden-layer nodes.
pub open spec fn hidden_total(hidden: Seq<usize>) -> int
    decreases hidden.len(),
{
    if hidden.len() == 0 {
        0
    } else {
        hidden[0] + hidden_total(hidden.drop_first())
    }
}

/// The number of connections of a layered construction: every node of a
/// layer of width `width` feeds every node of the next layer, down to
/// the `outputs` output nodes.
pub open spec fn layered_connections(width: int, hidden: Seq<usize>, outputs: int) -> int
    decreases hidden.len(),
{
    if hidden.len() == 0 {
        width * outputs
    } else {
        width * hidden[0] + layered_connections(hidden[0] as int, hidden.drop_first(), outputs)
    }
}

impl Genome {
    /// Builds a starting genome: `inputs` input nodes with identifiers
    /// `0..inputs` and zero bias, optional hidden layers of nodes with
    /// random unused identifiers and random biases, `outputs` output
    /// nodes with identifiers reserved at the top of the positional
    /// range, and a connection with a random weight from every node of
    /// each layer to every node of the next. With no hidden layers the
    /// construction always succeeds, fully connected input to output.
    pub fn generate_genome<R: RngSrc>(
        inputs: usize,
        outputs: usize,
        hidden: Vec<usize>,
        activation: Option<Activation>,
        config: &Conf,
        rng: &mut R,
    ) -> (r: Result<Genome, GenomeError>)
        requires
            config.node_max <= u32::MAX,
            inputs + outputs <= config.node_max,
        ensures
            r matches Ok(g) ==> g.counts_ok(),
            r matches Ok(g) ==> g.nodes@.len() == inputs + hidden_total(hidden@) + outputs,
            r matches Ok(g) ==> g.connections@.len() == layered_connections(
                inputs as int,
                hidden@,
                outputs as int,
            ),
            r matches Err(e) ==> (e == GenomeError::MaxNodes || e
                == GenomeError::AddNodeNodeIdNotFound || e == GenomeError::SortNodesStacked),
            hidden@.len() == 0 ==> (r matches Ok(g) && {
                &&& g.nodes@.len() == inputs + outputs
                &&& g.connections@.len() == inputs * outputs
                &&& g.inputs == inputs
                &&& g.outputs == outputs
                &&& g.positions_ok()
                &&& forall|i: int|
                    0 <= i < inputs ==> {
                        let nd = #[trigger] g.nodes@[i];
                        nd.id == i && nd.neuron_type == NeuronType::Input && nd.bias == 0
                            && nd.enabled
                    }
                &&& forall|o: int|
                    0 <= o < outputs ==> {
                        let nd = #[trigger] g.nodes@[inputs + o];
                        nd.id == config.node_max - outputs + o && nd.neuron_type
                            == NeuronType::Output && nd.enabled
                    }
                &&& forall|i: int, o: int|
                    0 <= i < inputs && 0 <= o < outputs ==> #[trigger] connects_io(
                        g.connections@,
                        config.node_max - outputs,
                        i,
                        o,
                    )
                &&& forall|i: int, o: int|
                    0 <= i < inputs && 0 <= o < outputs ==> {
                        let c = #[trigger] conn_at(g.connections@, inputs as int, o, i);
                        c.from == i && c.to == config.node_max - outputs + o && c.enabled
                    }
                &&& forall|i: int, o: int, i2: int, o2: int|
                    0 <= i < inputs && 0 <= o < outputs && 0 <= i2 < inputs && 0 <= o2 < outputs
                        && (i != i2 || o != o2) ==> ((#[trigger] conn_at(
                        g.connections@,
                        inputs as int,
                        o,
                        i,
                    )).from != (#[trigger] conn_at(g.connections@, inputs as int, o2, i2)).from
                        || conn_at(g.connections@, inputs as int, o, i).to != conn_at(
                        g.connections@,
                        inputs as int,
                        o2,
                        i2,
                    ).to)
            }),
    {
        let ghost no_hidden = hidden@.len() == 0;
        let mut nodes: Vec<Node> = Vec::new();
        let mut connections: Vec<Connection> = Vec::new();

        let mut i: usize = 0;
        while i < inputs
            invariant
                i <= inputs,
                inputs + outputs <= config.node_max <= u32::MAX,
                nodes@.len() == i,
                forall|k: int|
                    0 <= k < i ==> {
                        let nd = #[trigger] nodes@[k];
                        nd.id == k && nd.neuron_type == NeuronType::Input && nd.bias == 0
                            && nd.enabled
                    },
            decreases inputs - i,
        {
            nodes.push(
                Node::new(NeuronType::Input, i as u32, 0, None, Some((i + 1) as u32)),
            );
            i += 1;
        }

        let mut prev_layer = copy_nodes(&nodes);

        proof {
            assert(hidden@.skip(0) =~= hidden@);
        }
        let mut li: usize = 0;
        while li < hidden.len()
            invariant
                li <= hidden@.len(),
                inputs + outputs <= config.node_max <= u32::MAX,
                nodes@.len() <= u32::MAX,
                nodes@.len() >= inputs,
                no_hidden == (hidden@.len() == 0),
                nodes@.len() + hidden_total(hidden@.skip(li as int)) == inputs + hidden_total(
                    hidden@,
                ),
                connections@.len() + layered_connections(
                    prev_layer@.len() as int,
                    hidden@.skip(li as int),
                    outputs as int,
                ) == layered_connections(inputs as int, hidden@, outputs as int),
                forall|k: int|
                    0 <= k < inputs ==> {
                        let nd = #[trigger] nodes@[k];
                        nd.id == k && nd.neuron_type == NeuronType::Input && nd.bias == 0
                            && nd.enabled
                    },
                no_hidden ==> (nodes@.len() == inputs && connections@.len() == 0 && prev_layer@
                    == nodes@),
            decreases hidden@.len() - li,
        {
            let layer_size = hidden[li];
            proof {
                assert(hidden@.skip(li as int).first() == hidden@[li as int]);
                assert(hidden@.skip(li as int).drop_first() =~= hidden@.skip(li + 1int));
            }
            let ghost base_nodes = nodes@.len() as int;
            let ghost base_conns = connections@.len() as int;
            let ghost width = prev_layer@.len() as int;
            let mut layer: Vec<Node> = Vec::new();
            let mut k: usize = 0;
            while k < layer_size
                invariant
                    inputs + outputs <= config.node_max <= u32::MAX,
                    nodes@.len() <= u32::MAX,
                    nodes@.len() >= inputs,
                    hidden@.len() > 0,
                    no_hidden == (hidden@.len() == 0),
                    k <= layer_size,
                    layer@.len() == k,
                    nodes@.len() == base_nodes + k,
                    connections@.len() == base_conns + k * width,
                    prev_layer@.len() == width,
                    forall|k2: int|
                        0 <= k2 < inputs ==> {
                            let nd = #[trigger] nodes@[k2];
                            nd.id == k2 && nd.neuron_type == NeuronType::Input && nd.bias == 0
                                && nd.enabled
                        },
                decreases layer_size - k,
            {
                if nodes.len() >= config.node_max {
                    return Err(GenomeError::MaxNodes);
                }
                let from = (inputs + outputs) as u32;
                let to = (config.node_max - outputs) as u32;
                let node_id = match draw_free_id(rng, from, to, &nodes) {
                    Some(id) => id,
                    None => {
                        return Err(GenomeError::AddNodeNodeIdNotFound);
                    },
                };
                let node = Node::new(
                    NeuronType::Input,
                    node_id,
                    rng.next_weight(config.node_bias),
                    activation,
                    Some((nodes.len() + 1) as u32),
                );
                let ghost conns_at_node = connections@.len() as int;
                let mut pi: usize = 0;
                while pi < prev_layer.len()
                    invariant
                        pi <= prev_layer@.len(),
                        connections@.len() == conns_at_node + pi,
                    decreases prev_layer.len() - pi,
                {
                    connections.push(
                        Connection::new(
                            prev_layer[pi].get_id(),
                            node.get_id(),
                            rng.next_weight(config.connection_weight),
                        ),
                    );
                    pi += 1;
                }
                layer.push(node);
                nodes.push(node);
                proof {
                    assert((k + 1) * width == k * width + width) by (nonlinear_arith);
                }
                k += 1;
            }
            prev_layer = layer;
            proof {
                assert(hidden@.skip(li as int).len() > 0);
                assert(hidden@.skip(li as int)[0] == hidden@[li as int]);
                assert(hidden@.skip(li as int).drop_first() =~= hidden@.skip(li + 1int));
                assert(layered_connections(width, hidden@.skip(li as int), outputs as int)
                    == width * (hidden@[li as int] as int) + layered_connections(
                    hidden@[li as int] as int,
                    hidden@.skip(li + 1int),
                    outputs as int,
                ));
                assert(width * (layer_size as int) == (layer_size as int) * width)
                    by (nonlinear_arith);
                assert(hidden_total(hidden@.skip(li as int)) == hidden@[li as int]
                    + hidden_total(hidden@.skip(li + 1int)));
            }
            li += 1;
        }

        proof {
            assert(hidden@.skip(hidden@.len() as int) =~= Seq::<usize>::empty());
        }
        let ghost mid_nodes = nodes@;
        let ghost mid_conns = connections@;
        let ghost prev_snapshot = prev_layer@;

        let mut o: usize = 0;
        while o < outputs
            invariant
                o <= outputs,
                inputs + outputs <= config.node_max <= u32::MAX,
                no_hidden == (hidden@.len() == 0),
                nodes@.len() == mid_nodes.len() + o,
                nodes@.len() <= mid_nodes.len() + outputs,
                nodes@.take(mid_nodes.len() as int) == mid_nodes,
                prev_layer@ == prev_snapshot,
                mid_nodes.len() == inputs + hidden_total(hidden@),
                mid_conns.len() + prev_snapshot.len() * outputs == layered_connections(
                    inputs as int,
                    hidden@,
                    outputs as int,
                ),
                connections@.len() == mid_conns.len() + o * prev_snapshot.len(),
                no_hidden ==> {
                    &&& mid_nodes.len() == inputs
                    &&& prev_snapshot.len() == inputs
                    &&& mid_conns.len() == 0
                    &&& connections@.len() == mid_conns.len() + o * inputs
                    &&& forall|ii: int|
                        0 <= ii < inputs ==> (#[trigger] prev_snapshot[ii]).id == ii
                },
                no_hidden ==> forall|k: int|
                    0 <= k < inputs ==> {
                        let nd = #[trigger] mid_nodes[k];
                        nd.id == k && nd.neuron_type == NeuronType::Input && nd.bias == 0
                            && nd.enabled
                    },
                no_hidden ==> forall|k: int|
                    0 <= k < o ==> {
                        let nd = #[trigger] nodes@[mid_nodes.len() + k];
                        nd.id == config.node_max - outputs + k && nd.neuron_type
                            == NeuronType::Output && nd.enabled
                    },
                no_hidden ==> forall|ii: int, oo: int|
                    0 <= ii < inputs && 0 <= oo < o ==> #[trigger] connects_io(
                        connections@,
                        config.node_max - outputs,
                        ii,
                        oo,
                    ),
                no_hidden ==> forall|oo: int, ii: int|
                    0 <= oo < o && 0 <= ii < inputs ==> {
                        let c = #[trigger] conn_at(connections@, inputs as int, oo, ii);
                        c.from == ii && c.to == config.node_max - outputs + oo && c.enabled
                    },
            decreases outputs - o,
        {
            if nodes.len() >= u32::MAX as usize {
                proof {
                    if no_hidden {
                        assert(false);
                    }
                }
                return Err(GenomeError::MaxNodes);
            }
            let node = Node::new(
                NeuronType::Output,
                (config.node_max - outputs + o) as u32,
                rng.next_weight(config.node_bias),
                activation,
                Some((nodes.len() + 1) as u32),
            );
            let ghost conns_before = connections@;
            let mut pi: usize = 0;
            while pi < prev_layer.len()
                invariant
                    pi <= prev_layer@.len(),
                    prev_layer@ == prev_snapshot,
                    node.id == config.node_max - outputs + o,
                    o < outputs,
                    inputs + outputs <= config.node_max <= u32::MAX,
                    connections@.len() == conns_before.len() + pi,
                    connections@.take(conns_before.len() as int) == conns_before,
                    forall|k: int|
                        0 <= k < pi ==> {
                            let c = #[trigger] connections@[conns_before.len() + k];
                            c.from == prev_snapshot[k].id && c.to == node.id && c.enabled
                        },
                decreases prev_layer@.len() - pi,
            {
                connections.push(
                    Connection::new(
                        prev_layer[pi].get_id(),
                        node.get_id(),
                        rng.next_weight(config.connection_weight),
                    ),
                );
                proof {
                    assert(connections@.take(conns_before.len() as int) =~= conns_before);
                }
                pi += 1;
            }
            nodes.push(node);
            proof {
                assert(nodes@.take(mid_nodes.len() as int) =~= mid_nodes);
                assert((o + 1) * prev_snapshot.len() == o * prev_snapshot.len()
                    + prev_snapshot.len()) by (nonlinear_arith);
                if no_hidden {
                    assert((o + 1) * inputs == o * inputs + inputs) by (nonlinear_arith);
                    let base = config.node_max - outputs;
                    let oi = o as int;
                    let inp = inputs as int;
                    assert forall|oo: int, ii: int|
                        0 <= oo < oi + 1 && 0 <= ii < inp implies {
                            let c = #[trigger] conn_at(connections@, inp, oo, ii);
                            c.from == ii && c.to == base + oo && c.enabled
                        } by {
                        if oo < oi {
                            assert(oo * inp + ii < oi * inp) by (nonlinear_arith)
                                requires
                                    0 <= oo < oi,
                                    0 <= ii < inp,
                            ;
                            assert(connections@.take(conns_before.len() as int)[oo * inp + ii]
                                == conns_before[oo * inp + ii]);
                            assert(conn_at(connections@, inp, oo, ii) == conn_at(
                                conns_before,
                                inp,
                                oo,
                                ii,
                            ));
                        } else {
                            assert(prev_snapshot[ii].id == ii);
                            assert(conn_at(connections@, inp, oo, ii) == connections@[
                            conns_before.len() + ii]);
                        }
                    }
                    assert forall|ii: int, oo: int|
                        0 <= ii < inputs && 0 <= oo < o + 1 implies #[trigger] connects_io(
                            connections@,
                            config.node_max - outputs,
                            ii,
                            oo,
                        ) by {
                        if oo < o {
                            assert(connects_io(
                                conns_before,
                                config.node_max - outputs,
                                ii,
                                oo,
                            ));
                            let w = choose|w: int|
                                0 <= w < conns_before.len() && conns_before[w].from == ii as u32
                                    && conns_before[w].to == (config.node_max - outputs
                                    + oo) as u32;
                            assert(connections@.take(conns_before.len() as int)[w]
                                == conns_before[w]);
                            assert(connections@[w].from == ii as u32 && connections@[w].to == (
                            config.node_max - outputs + oo) as u32);
                        } else {
                            assert(prev_snapshot[ii].id == ii);
                            assert(connections@[conns_before.len() + ii].from == ii as u32
                                && connections@[conns_before.len() + ii].to == (config.node_max
                                - outputs + oo) as u32);
                        }
                    }
                }
            }
            o += 1;
        }

        if nodes.len() > u32::MAX as usize {
            proof {
                if no_hidden {
                    assert(false);
                }
            }
            return Err(GenomeError::MaxNodes);
        }
        let ghost built_nodes = nodes@;
        let ghost built_conns = connections@;
        let result = Genome::new(nodes, connections);
        proof {
            assert((outputs as int) * (prev_snapshot.len() as int) == (
            prev_snapshot.len() as int) * (outputs as int)) by (nonlinear_arith);
            if no_hidden {
                assert forall|w: int| 0 <= w < inputs implies (#[trigger] built_nodes[w]).neuron_type
                    == NeuronType::Input by {
                    assert(built_nodes.take(mid_nodes.len() as int)[w] == mid_nodes[w]);
                    assert(built_nodes[w] == mid_nodes[w]);
                }
                assert forall|w: int|
                    inputs <= w < built_nodes.len() implies (#[trigger] built_nodes[w]).neuron_type
                    == NeuronType::Output by {
                    assert(built_nodes[mid_nodes.len() + (w - mid_nodes.len())].neuron_type
                        == NeuronType::Output);
                }
                lemma_count_io(built_nodes, inputs as int);
                assert(all_typed(built_nodes));
                match &result {
                  Err(_) => {},
                  Ok(g) => {
                    assert(g.connections@.len() == (inputs * outputs) as int) by {
                        assert(built_conns.len() == mid_conns.len() + outputs * inputs);
                        assert(mid_conns.len() == 0);
                        assert(outputs * inputs == inputs * outputs) by (nonlinear_arith);
                    }
                    assert forall|k: int| 0 <= k < inputs implies {
                        let nd = #[trigger] g.nodes@[k];
                        nd.id == k && nd.neuron_type == NeuronType::Input && nd.bias == 0
                            && nd.enabled
                    } by {
                        assert(eq_mod_position(g.nodes@[k], built_nodes[k]));
                        assert(built_nodes.take(mid_nodes.len() as int)[k] == mid_nodes[k]);
                        assert(built_nodes[k] == mid_nodes[k]);
                    }
                    assert forall|k: int| 0 <= k < outputs implies {
                        let nd = #[trigger] g.nodes@[inputs + k];
                        nd.id == config.node_max - outputs + k && nd.neuron_type
                            == NeuronType::Output && nd.enabled
                    } by {
                        assert(eq_mod_position(g.nodes@[inputs + k], built_nodes[inputs + k]));
                    }
                  },
                }
            }
        }
        match result {
            Ok(g) => Ok(g),
            Err(e) => Err(e),
        }
    }
}

/// In a collection whose first `k` nodes are inputs and whose remainder
/// are outputs, the role counts are `k` and the remainder.
proof fn lemma_count_io(nodes: Seq<Node>, k: int)
    requires
        0 <= k <= nodes.len(),
        forall|i: int| 0 <= i < k ==> (#[trigger] nodes[i]).neuron_type == NeuronType::Input,
        forall|i: int|
            k <= i < nodes.len() ==> (#[trigger] nodes[i]).neuron_type == NeuronType::Output,
    ensures
        count_type(nodes, NeuronType::Input) == k,
        count_type(nodes, NeuronType::Output) == nodes.len() - k,
        count_type(nodes, NeuronType::Hidden) == 0,
    decreases nodes.len(),
{
    if nodes.len() > 0 {
        if k == nodes.len() {
            lemma_count_io(nodes.drop_last(), k - 1);
        } else {
            lemma_count_io(nodes.drop_last(), k);
        }
    }
}

} // verus!

verus! {

/// The flat words of a node collection, four per node, in collection
/// order.
pub open spec fn encode_nodes(nodes: Seq<Node>) -> Seq<u32>
    decreases nodes.len(),
{
    if nodes.len() == 0 {
        Seq::empty()
    } else {
        encode_nodes(nodes.drop_last()) + nodes.last().encode_spec()
    }
}

/// The flat words of a connection collection, four per connection, in
/// collection order.
pub open spec fn encode_conns(conns: Seq<Connection>) -> Seq<u32>
    decreases conns.len(),
{
    if conns.len() == 0 {
        Seq::empty()
    } else {
        encode_conns(conns.drop_last()) + conns.last().encode_spec()
    }
}

/// The flat encoding of a whole genome: tag, version, input count,
/// output count, node count, connection count, then the node records and
/// the connection records.
pub open spec fn encode_genome(g: Genome) -> Seq<u32> {
    seq![
        1u32,
        1u32,
        g.inputs,
        g.outputs,
        g.nodes@.len() as u32,
        g.connections@.len() as u32,
    ] + encode_nodes(g.nodes@) + encode_conns(g.connections@)
}

proof fn lemma_encode_nodes_len(nodes: Seq<Node>)
    ensures
        encode_nodes(nodes).len() == 4 * nodes.len(),
    decreases nodes.len(),
{
    if nodes.len() > 0 {
        lemma_encode_nodes_len(nodes.drop_last());
    }
}

proof fn lemma_encode_conns_len(conns: Seq<Connection>)
    ensures
        encode_conns(conns).len() == 4 * conns.len(),
    decreases conns.len(),
{
    if conns.len() > 0 {
        lemma_encode_conns_len(conns.drop_last());
    }
}

proof fn lemma_encode_nodes_at(nodes: Seq<Node>, i: int)
    requires
        0 <= i < nodes.len(),
    ensures
        encode_nodes(nodes).subrange(4 * i, 4 * i + 4) =~= nodes[i].encode_spec(),
    decreases nodes.len(),
{
    lemma_encode_nodes_len(nodes);
    lemma_encode_nodes_len(nodes.drop_last());
    if i == nodes.len() - 1 {
    } else {
        lemma_encode_nodes_at(nodes.drop_last(), i);
        assert(encode_nodes(nodes).subrange(4 * i, 4 * i + 4) =~= encode_nodes(
            nodes.drop_last(),
        ).subrange(4 * i, 4 * i + 4));
    }
}

proof fn lemma_encode_conns_at(conns: Seq<Connection>, i: int)
    requires
        0 <= i < conns.len(),
    ensures
        encode_conns(conns).subrange(4 * i, 4 * i + 4) =~= conns[i].encode_spec(),
    decreases conns.len(),
{
    lemma_encode_conns_len(conns);
    lemma_encode_conns_len(conns.drop_last());
    if i == conns.len() - 1 {
    } else {
        lemma_encode_conns_at(conns.drop_last(), i);
        assert(encode_conns(conns).subrange(4 * i, 4 * i + 4) =~= encode_conns(
            conns.drop_last(),
        ).subrange(4 * i, 4 * i + 4));
    }
}

/// Decoding the flat encoding of a genome whose positions are all
/// assigned recovers every node and connection field: the header carries
/// the tag, the version and the four counts, and each record decodes to
/// the value it was encoded from.
pub proof fn lemma_weights_round_trip(g: Genome)
    requires
        g.nodes@.len() <= u32::MAX,
        g.connections@.len() <= u32::MAX,
        forall|i: int| 0 <= i < g.nodes@.len() ==> (#[trigger] g.nodes@[i].position) is Some,
    ensures
        ({
            let w = encode_genome(g);
            &&& w.len() == 6 + 4 * g.nodes@.len() + 4 * g.connections@.len()
            &&& w[0] == 1
            &&& w[1] == 1
            &&& w[2] == g.inputs
            &&& w[3] == g.outputs
            &&& w[4] == g.nodes@.len()
            &&& w[5] == g.connections@.len()
            &&& forall|i: int|
                0 <= i < g.nodes@.len() ==> Node::decode_spec(
                    w.subrange(6 + 4 * i, 6 + 4 * i + 4),
                ) == #[trigger] g.nodes@[i]
            &&& forall|j: int|
                0 <= j < g.connections@.len() ==> Connection::decode_spec(
                    w.subrange(
                        6 + 4 * g.nodes@.len() + 4 * j,
                        6 + 4 * g.nodes@.len() + 4 * j + 4,
                    ),
                ) == #[trigger] g.connections@[j]
        }),
{
    let w = encode_genome(g);
    lemma_encode_nodes_len(g.nodes@);
    lemma_encode_conns_len(g.connections@);
    assert forall|i: int| 0 <= i < g.nodes@.len() implies Node::decode_spec(
        w.subrange(6 + 4 * i, 6 + 4 * i + 4),
    ) == #[trigger] g.nodes@[i] by {
        lemma_encode_nodes_at(g.nodes@, i);
        assert(w.subrange(6 + 4 * i, 6 + 4 * i + 4) =~= encode_nodes(g.nodes@).subrange(
            4 * i,
            4 * i + 4,
        ));
        crate::node::lemma_node_round_trip(g.nodes@[i]);
    }
    assert forall|j: int| 0 <= j < g.connections@.len() implies Connection::decode_spec(
        w.subrange(6 + 4 * g.nodes@.len() + 4 * j, 6 + 4 * g.nodes@.len() + 4 * j + 4),
    ) == #[trigger] g.connections@[j] by {
        lemma_encode_conns_at(g.connections@, j);
        assert(w.subrange(6 + 4 * g.nodes@.len() + 4 * j, 6 + 4 * g.nodes@.len() + 4 * j + 4)
            =~= encode_conns(g.connections@).subrange(4 * j, 4 * j + 4));
        crate::connection::lemma_connection_round_trip(g.connections@[j]);
    }
}

impl Genome {
    /// Serializes the genome to its flat words: the six header words
    /// followed by four words per node and four per connection.
    pub fn to_weights(&self) -> (r: Vec<u32>)
        requires
            self.nodes@.len() <= u32::MAX,
            self.connections@.len() <= u32::MAX,
        ensures
            r@ == encode_genome(*self),
    {
        let mut out: Vec<u32> = Vec::new();
        out.push(1);
        out.push(1);
        out.push(self.inputs);
        out.push(self.outputs);
        out.push(self.nodes.len() as u32);
        out.push(self.connections.len() as u32);
        let ghost header = out@;

        let mut i: usize = 0;
        while i < self.nodes.len()
            invariant
                i <= self.nodes@.len(),
                out@ == header + encode_nodes(self.nodes@.take(i as int)),
            decreases self.nodes@.len() - i,
        {
            let w = self.nodes[i].to_weights();
            out.push(w[0]);
            out.push(w[1]);
            out.push(w[2]);
            out.push(w[3]);
            proof {
                assert(self.nodes@.take(i + 1int).drop_last() =~= self.nodes@.take(i as int));
                assert(self.nodes@.take(i + 1int).last() == self.nodes@[i as int]);
                assert(out@ =~= header + encode_nodes(self.nodes@.take(i + 1int)));
            }
            i += 1;
        }
        proof {
            assert(self.nodes@.take(self.nodes@.len() as int) =~= self.nodes@);
        }
        let ghost with_nodes = out@;

        let mut j: usize = 0;
        while j < self.connections.len()
            invariant
                j <= self.connections@.len(),
                out@ == with_nodes + encode_conns(self.connections@.take(j as int)),
                with_nodes == header + encode_nodes(self.nodes@),
            decreases self.connections@.len() - j,
        {
            let w = self.connections[j].to_weights();
            out.push(w[0]);
            out.push(w[1]);
            out.push(w[2]);
            out.push(w[3]);
            proof {
                assert(self.connections@.take(j + 1int).drop_last() =~= self.connections@.take(
                    j as int,
                ));
                assert(self.connections@.take(j + 1int).last() == self.connections@[j as int]);
                assert(out@ =~= with_nodes + encode_conns(self.connections@.take(j + 1int)));
            }
            j += 1;
        }
        proof {
            assert(self.connections@.take(self.connections@.len() as int)
                =~= self.connections@);
            assert(out@ =~= encode_genome(*self));
        }
        out
    }

    /// Deserializes a genome from its flat words. Fails with
    /// `DecodeMismatch` exactly when the tag or version differs from one
    /// or the length does not match the counts in the header; the
    /// positions are taken from the stream, not re-sorted.
    pub fn from_weights(words: &Vec<u32>) -> (r: Result<Genome, GenomeError>)
        ensures
            r matches Ok(g) ==> {
                &&& words@.len() == 6 + 4 * g.nodes@.len() + 4 * g.connections@.len()
                &&& g.inputs == words@[2]
                &&& g.outputs == words@[3]
                &&& g.nodes@.len() == words@[4]
                &&& g.connections@.len() == words@[5]
                &&& forall|i: int|
                    0 <= i < g.nodes@.len() ==> #[trigger] g.nodes@[i] == Node::decode_spec(
                        words@.subrange(6 + 4 * i, 6 + 4 * i + 4),
                    )
                &&& forall|j: int|
                    0 <= j < g.connections@.len() ==> #[trigger] g.connections@[j]
                        == Connection::decode_spec(
                        words@.subrange(
                            6 + 4 * g.nodes@.len() + 4 * j,
                            6 + 4 * g.nodes@.len() + 4 * j + 4,
                        ),
                    )
            },
            (r is Err) <==> !(words@.len() >= 6 && words@[0] == 1 && words@[1] == 1
                && words@.len() == 6 + 4 * words@[4] + 4 * words@[5]),
            r matches Err(e) ==> e == GenomeError::DecodeMismatch,
    {
        let len = words.len();
        if len < 6 {
            return Err(GenomeError::DecodeMismatch);
        }
        if words[0] != 1 || words[1] != 1 {
            return Err(GenomeError::DecodeMismatch);
        }
        let n = words[4] as usize;
        let m = words[5] as usize;
        let expected: u64 = 6 + 4 * (n as u64) + 4 * (m as u64);
        if (len as u64) != expected {
            return Err(GenomeError::DecodeMismatch);
        }

        let mut nodes: Vec<Node> = Vec::new();
        let mut i: usize = 0;
        while i < n
            invariant
                n == words@[4],
                m == words@[5],
                words@.len() == 6 + 4 * n + 4 * m,
                words@.len() <= usize::MAX,
                i <= n,
                nodes@.len() == i,
                forall|k: int|
                    0 <= k < i ==> #[trigger] nodes@[k] == Node::decode_spec(
                        words@.subrange(6 + 4 * k, 6 + 4 * k + 4),
                    ),
            decreases n - i,
        {
            nodes.push(Node::from_weights(words, 6 + 4 * i));
            i += 1;
        }

        let mut connections: Vec<Connection> = Vec::new();
        let mut j: usize = 0;
        while j < m
            invariant
                n == words@[4],
                m == words@[5],
                words@.len() == 6 + 4 * n + 4 * m,
                words@.len() <= usize::MAX,
                j <= m,
                connections@.len() == j,
                forall|k: int|
                    0 <= k < j ==> #[trigger] connections@[k] == Connection::decode_spec(
                        words@.subrange(6 + 4 * n + 4 * k, 6 + 4 * n + 4 * k + 4),
                    ),
            decreases m - j,
        {
            connections.push(Connection::from_weights(words, 6 + 4 * n + 4 * j));
            j += 1;
        }

        Ok(Genome { nodes, connections, inputs: words[2], outputs: words[3] })
    }
}

} // verus!
