//! A computational node: activation state, bias, gradient accumulators, its
//! owned outgoing edges and the handles of its incoming edges, together with
//! its slice of the flattened parameter and gradient vectors.

use vstd::prelude::*;

use crate::edge::Edge;
use crate::model::{
    initial_edge, node_bias_len, node_deltas, node_params, node_reset, node_with_new_incoming,
    node_with_new_outgoing, node_with_params, EdgeView, NodeView,
};
use crate::tags::{ActivationType, NetworkError, NodeType};

verus! {

/// One computational unit of the graph. The node owns its outgoing edges;
/// incoming edges are recorded only as (layer, number) handles naming their
/// source nodes, built once at construction and never mutated afterwards.
#[derive(Debug)]
pub struct Node {
    layer: usize,
    number: usize,
    node_type: NodeType,
    pre_activation_value: u64,
    post_activation_value: u64,
    delta: u64,
    bias: u64,
    bias_delta: u64,
    incoming_edges: Vec<(usize, usize)>,
    outgoing_edges: Vec<Edge>,
    activation_type: ActivationType,
}

impl View for Node {
    type V = NodeView;

    closed spec fn view(&self) -> NodeView {
        NodeView {
            layer: self.layer,
            number: self.number,
            node_type: self.node_type,
            activation_type: self.activation_type,
            pre_activation_value: self.pre_activation_value,
            post_activation_value: self.post_activation_value,
            delta: self.delta,
            bias: self.bias,
            bias_delta: self.bias_delta,
            incoming_edges: self.incoming_edges@,
            outgoing_edges: Seq::new(self.outgoing_edges@.len(), |j: int| self.outgoing_edges@[j]@),
        }
    }
}

impl Node {
    /// A fresh node at the given location with the given kind and activation
    /// policy: zero state, zero bias, and no edges yet.
    pub fn new(layer: usize, number: usize, node_type: NodeType, activation_type: ActivationType) -> (n:
        Node)
        ensures
            n@ == (NodeView {
                layer,
                number,
                node_type,
                activation_type,
                pre_activation_value: 0,
                post_activation_value: 0,
                delta: 0,
                bias: 0,
                bias_delta: 0,
                incoming_edges: Seq::empty(),
                outgoing_edges: Seq::empty(),
            }),
    {
        let n = Node {
            layer,
            number,
            node_type,
            pre_activation_value: 0,
            post_activation_value: 0,
            incoming_edges: Vec::new(),
            outgoing_edges: Vec::new(),
            delta: 0,
            bias: 0,
            bias_delta: 0,
            activation_type,
        };
        proof {
            assert(n@ =~~= (NodeView {
                layer,
                number,
                node_type,
                activation_type,
                pre_activation_value: 0,
                post_activation_value: 0,
                delta: 0,
                bias: 0,
                bias_delta: 0,
                incoming_edges: Seq::empty(),
                outgoing_edges: Seq::empty(),
            }));
        }
        n
    }

    /// How many outgoing edges this node owns.
    pub fn num_outgoing_edges(&self) -> (r: usize)
        ensures
            r == self@.outgoing_edges.len(),
    {
        self.outgoing_edges.len()
    }

    /// Adds an owned outgoing edge from this node to `location_to`, refusing
    /// a second edge for the same ordered (source, destination) pair and
    /// leaving the node unchanged in that case.
    pub fn add_edge_outgoing(&mut self, location_to: (usize, usize)) -> (r: Result<
        (),
        NetworkError,
    >)
        ensures
            ({
                let dup = exists|j: int|
                    0 <= j < old(self)@.outgoing_edges.len() && (#[trigger] old(
                        self,
                    )@.outgoing_edges[j]).node_to == location_to;
                &&& dup ==> r == Err::<(), NetworkError>(NetworkError::DuplicateConnection)
                    && final(self)@ == old(self)@
                &&& !dup ==> r == Ok::<(), NetworkError>(()) && final(self)@
                    == node_with_new_outgoing(old(self)@, location_to)
            }),
    {
        let n = self.outgoing_edges.len();
        for k in 0..n
            invariant
                n == self.outgoing_edges@.len(),
                forall|j: int|
                    0 <= j < k ==> (#[trigger] self@.outgoing_edges[j]).node_to != location_to,
        {
            let to = self.outgoing_edges[k].node_to;
            if to.0 == location_to.0 && to.1 == location_to.1 {
                proof {
                    assert(self@.outgoing_edges[k as int].node_to == location_to);
                }
                return Err(NetworkError::DuplicateConnection);
            }
            proof {
                assert(self@.outgoing_edges[k as int].node_to != location_to);
            }
        }
        let e = Edge::new((self.layer, self.number), location_to);
        self.outgoing_edges.push(e);
        proof {
            assert(self@ =~~= node_with_new_outgoing(old(self)@, location_to));
        }
        Ok(())
    }

    /// Records the handle of an incoming edge: the location of the source
    /// node that owns it. A second handle for the same source is refused and
    /// the node left unchanged.
    pub fn add_edge_incoming(&mut self, location_from: (usize, usize)) -> (r: Result<
        (),
        NetworkError,
    >)
        ensures
            ({
                let dup = exists|j: int|
                    0 <= j < old(self)@.incoming_edges.len() && (#[trigger] old(
                        self,
                    )@.incoming_edges[j]) == location_from;
                &&& dup ==> r == Err::<(), NetworkError>(NetworkError::DuplicateConnection)
                    && final(self)@ == old(self)@
                &&& !dup ==> r == Ok::<(), NetworkError>(()) && final(self)@
                    == node_with_new_incoming(old(self)@, location_from)
            }),
    {
        let n = self.incoming_edges.len();
        for k in 0..n
            invariant
                n == self.incoming_edges@.len(),
                forall|j: int| 0 <= j < k ==> (#[trigger] self@.incoming_edges[j]) != location_from,
        {
            let from = self.incoming_edges[k];
            if from.0 == location_from.0 && from.1 == location_from.1 {
                proof {
                    assert(self@.incoming_edges[k as int] == location_from);
                }
                return Err(NetworkError::DuplicateConnection);
            }
            proof {
                assert(self@.incoming_edges[k as int] != location_from);
            }
        }
        self.incoming_edges.push(location_from);
        proof {
            assert(self@ =~~= node_with_new_incoming(old(self)@, location_from));
        }
        Ok(())
    }

    /// Zeroes everything that must be recalculated for each independent
    /// forward/backward cycle: activation state, the error signal, the bias
    /// gradient, and the gradient accumulator of every outgoing edge.
    /// Topology, bias and weights are untouched.
    pub fn reset(&mut self)
        ensures
            final(self)@ == node_reset(old(self)@),
    {
        self.pre_activation_value = 0;
        self.post_activation_value = 0;
        self.delta = 0;
        self.bias_delta = 0;
        let n = self.outgoing_edges.len();
        for k in 0..n
            invariant
                n == self.outgoing_edges@.len(),
                self@.outgoing_edges.len() == old(self)@.outgoing_edges.len(),
                self@.layer == old(self)@.layer,
                self@.number == old(self)@.number,
                self@.node_type == old(self)@.node_type,
                self@.activation_type == old(self)@.activation_type,
                self@.pre_activation_value == 0,
                self@.post_activation_value == 0,
                self@.delta == 0,
                self@.bias == old(self)@.bias,
                self@.bias_delta == 0,
                self@.incoming_edges == old(self)@.incoming_edges,
                forall|j: int|
                    0 <= j < k ==> (#[trigger] self@.outgoing_edges[j]) == crate::model::edge_reset(
                        old(self)@.outgoing_edges[j],
                    ),
                forall|j: int|
                    k <= j < n ==> (#[trigger] self@.outgoing_edges[j]) == old(
                        self,
                    )@.outgoing_edges[j],
        {
            let ghost prev = self@;
            self.outgoing_edges[k].weight_delta = 0;
            proof {
                assert forall|j: int| 0 <= j < k + 1 implies (#[trigger] self@.outgoing_edges[j])
                    == crate::model::edge_reset(old(self)@.outgoing_edges[j]) by {
                    if j < k {
                        assert(self@.outgoing_edges[j] == prev.outgoing_edges[j]);
                    } else {
                        assert(prev.outgoing_edges[j] == old(self)@.outgoing_edges[j]);
                    }
                }
                assert forall|j: int| k + 1 <= j < n implies (#[trigger] self@.outgoing_edges[j])
                    == old(self)@.outgoing_edges[j] by {
                    assert(self@.outgoing_edges[j] == prev.outgoing_edges[j]);
                }
            }
        }
        proof {
            assert(self@ =~~= node_reset(old(self)@));
        }
    }

    /// Appends this node's parameter slice — the bias if the node is hidden,
    /// then each outgoing edge weight in edge order — to `weights`, and
    /// returns how many values it appended.
    pub fn get_weights(&self, weights: &mut Vec<u64>) -> (count: usize)
        requires
            old(weights)@.len() + node_params(self@).len() <= usize::MAX,
        ensures
            final(weights)@ == old(weights)@ + node_params(self@),
            count as int == node_params(self@).len(),
    {
        let mut weight_count: usize = 0;
        if self.node_type == NodeType::Hidden {
            weights.push(self.bias);
            weight_count = 1;
        }
        proof {
            assert(weights@ =~= old(weights)@ + node_params(self@).take(node_bias_len(self@)));
        }
        let n = self.outgoing_edges.len();
        for k in 0..n
            invariant
                n == self.outgoing_edges@.len(),
                old(weights)@.len() + node_params(self@).len() <= usize::MAX,
                weight_count as int == node_bias_len(self@) + k,
                weights@ == old(weights)@ + node_params(self@).take(node_bias_len(self@) + k),
        {
            weights.push(self.outgoing_edges[k].weight);
            weight_count = weight_count + 1;
            proof {
                let b = node_bias_len(self@);
                assert(node_params(self@)[b + k] == self@.outgoing_edges[k as int].weight);
                assert(weights@ =~= old(weights)@ + node_params(self@).take(b + k + 1));
            }
        }
        proof {
            assert(node_params(self@).take(node_bias_len(self@) + n as int) =~= node_params(
                self@,
            ));
        }
        weight_count
    }

    /// Appends this node's gradient slice — the bias-gradient accumulator if
    /// the node is hidden, then each outgoing edge's weight-gradient
    /// accumulator in edge order — to `deltas`, in exactly the layout of
    /// [`Node::get_weights`].
    pub fn get_deltas(&self, deltas: &mut Vec<u64>) -> (count: usize)
        requires
            old(deltas)@.len() + node_deltas(self@).len() <= usize::MAX,
        ensures
            final(deltas)@ == old(deltas)@ + node_deltas(self@),
            count as int == node_deltas(self@).len(),
    {
        let mut delta_count: usize = 0;
        if self.node_type == NodeType::Hidden {
            deltas.push(self.bias_delta);
            delta_count = 1;
        }
        proof {
            assert(deltas@ =~= old(deltas)@ + node_deltas(self@).take(node_bias_len(self@)));
        }
        let n = self.outgoing_edges.len();
        for k in 0..n
            invariant
                n == self.outgoing_edges@.len(),
                old(deltas)@.len() + node_deltas(self@).len() <= usize::MAX,
                delta_count as int == node_bias_len(self@) + k,
                deltas@ == old(deltas)@ + node_deltas(self@).take(node_bias_len(self@) + k),
        {
            deltas.push(self.outgoing_edges[k].weight_delta);
            delta_count = delta_count + 1;
            proof {
                let b = node_bias_len(self@);
                assert(node_deltas(self@)[b + k] == self@.outgoing_edges[k as int].weight_delta);
                assert(deltas@ =~= old(deltas)@ + node_deltas(self@).take(b + k + 1));
            }
        }
        proof {
            assert(node_deltas(self@).take(node_bias_len(self@) + n as int) =~= node_deltas(
                self@,
            ));
        }
        delta_count
    }

    /// Reads this node's parameter slice back out of `weights`, starting at
    /// `position`, in exactly the layout written by [`Node::get_weights`]:
    /// the bias first if the node is hidden, then each outgoing edge weight
    /// in edge order. Returns how many values it consumed.
    pub fn set_weights(&mut self, position: usize, weights: &mut Vec<u64>) -> (count: usize)
        requires
            position + node_params(old(self)@).len() <= old(weights)@.len(),
        ensures
            final(weights)@ == old(weights)@,
            count as int == node_params(old(self)@).len(),
            final(self)@ == node_with_params(
                old(self)@,
                old(weights)@.subrange(
                    position as int,
                    position + node_params(old(self)@).len(),
                ),
            ),
    {
        let wl: usize = weights.len();
        let mut weight_count: usize = 0;
        if self.node_type == NodeType::Hidden {
            self.bias = weights[position];
            weight_count = 1;
        }
        let n = self.outgoing_edges.len();
        for k in 0..n
            invariant
                n == self.outgoing_edges@.len(),
                n == old(self)@.outgoing_edges.len(),
                weights@ == old(weights)@,
                position + node_params(old(self)@).len() <= weights@.len(),
                weight_count as int == node_bias_len(old(self)@) + k,
                self@.layer == old(self)@.layer,
                self@.number == old(self)@.number,
                self@.node_type == old(self)@.node_type,
                self@.activation_type == old(self)@.activation_type,
                self@.pre_activation_value == old(self)@.pre_activation_value,
                self@.post_activation_value == old(self)@.post_activation_value,
                self@.delta == old(self)@.delta,
                self@.bias_delta == old(self)@.bias_delta,
                self@.incoming_edges == old(self)@.incoming_edges,
                self@.bias == if old(self)@.node_type == NodeType::Hidden {
                    weights@[position as int]
                } else {
                    old(self)@.bias
                },
                forall|j: int|
                    0 <= j < k ==> (#[trigger] self@.outgoing_edges[j]) == (EdgeView {
                        weight: weights@[position + node_bias_len(old(self)@) + j],
                        weight_delta: old(self)@.outgoing_edges[j].weight_delta,
                        node_from: old(self)@.outgoing_edges[j].node_from,
                        node_to: old(self)@.outgoing_edges[j].node_to,
                    }),
                forall|j: int|
                    k <= j < n ==> (#[trigger] self@.outgoing_edges[j]) == old(
                        self,
                    )@.outgoing_edges[j],
                wl == old(weights)@.len(),
        {
            proof {
                assert(node_params(old(self)@).len() == node_bias_len(old(self)@) + n);
                assert(position + weight_count < wl);
            }
            let ghost prev = self@;
            self.outgoing_edges[k].weight = weights[position + weight_count];
            weight_count = weight_count + 1;
            proof {
                let b = node_bias_len(old(self)@);
                assert forall|j: int| 0 <= j < k + 1 implies (#[trigger] self@.outgoing_edges[j])
                    == (EdgeView {
                    weight: weights@[position + b + j],
                    weight_delta: old(self)@.outgoing_edges[j].weight_delta,
                    node_from: old(self)@.outgoing_edges[j].node_from,
                    node_to: old(self)@.outgoing_edges[j].node_to,
                }) by {
                    if j < k {
                        assert(self@.outgoing_edges[j] == prev.outgoing_edges[j]);
                    } else {
                        assert(prev.outgoing_edges[j] == old(self)@.outgoing_edges[j]);
                    }
                }
                assert forall|j: int| k + 1 <= j < n implies (#[trigger] self@.outgoing_edges[j])
                    == old(self)@.outgoing_edges[j] by {
                    assert(self@.outgoing_edges[j] == prev.outgoing_edges[j]);
                }
            }
        }
        proof {
            assert(self@ =~~= node_with_params(
                old(self)@,
                old(weights)@.subrange(
                    position as int,
                    position + node_params(old(self)@).len(),
                ),
            ));
        }
        weight_count
    }
}

} // verus!
