//! The network: owner of all layers and nodes, builder of the dense
//! adjacent-layer connectivity, and the parameter/gradient vector interface
//! an external optimizer exchanges values through.

use vstd::prelude::*;

use crate::model::{
    layer_contrib, layer_offset, layer_params, layers_params, layers_with_params,
    lemma_global_deltas_bound, lemma_global_params_bound, lemma_layer_deltas_snoc,
    lemma_layer_params_snoc, lemma_layers_deltas_snoc, lemma_layers_params_snoc,
    lemma_net_reset_wf, lemma_net_with_params_wf, lemma_new_network_wf,
    lemma_total_params_from_nonneg, net_deltas, net_params, net_reset, net_with_params,
    node_offset, node_params, node_with_params, spec_activation, spec_layer_sizes, spec_new_layer,
    spec_new_network, spec_new_node, spec_node_type, spec_total_params, total_params_from, wf,
    NetworkView,
};
use crate::node::Node;
use crate::tags::{ActivationType, LossFunction, NetworkError, NodeType};

verus! {

/// A feed-forward network: an ordered sequence of layers of nodes, the
/// configured loss function, the declared input size, and the total
/// trainable-parameter count fixed at construction. The topology is built
/// once and never changes afterwards.
#[derive(Debug)]
pub struct NeuralNetwork {
    loss_function: LossFunction,
    number_weights: usize,
    layers: Vec<Vec<Node>>,
    number_inputs: usize,
}

impl View for NeuralNetwork {
    type V = NetworkView;

    closed spec fn view(&self) -> NetworkView {
        NetworkView {
            loss_function: self.loss_function,
            number_weights: self.number_weights,
            number_inputs: self.number_inputs,
            layers: Seq::new(
                self.layers@.len(),
                |l: int| Seq::new(self.layers@[l]@.len(), |i: int| self.layers@[l]@[i]@),
            ),
        }
    }
}

impl NeuralNetwork {
    /// Builds the whole graph: an input layer of identity nodes, one hidden
    /// layer of tanh nodes per declared size, an output layer of sigmoid
    /// nodes, and exactly one zero-weight edge for every (source,
    /// destination) pair of adjacent layers, destinations in ascending
    /// order. Any zero layer size is refused with a configuration error.
    pub fn new(
        input_layer_size: usize,
        hidden_layer_sizes: Vec<usize>,
        output_layer_size: usize,
        loss_function: LossFunction,
    ) -> (r: Result<NeuralNetwork, NetworkError>)
        requires
            hidden_layer_sizes@.len() + 2 <= usize::MAX,
            spec_total_params(
                spec_layer_sizes(input_layer_size, hidden_layer_sizes@, output_layer_size),
            ) <= usize::MAX,
        ensures
            ({
                let bad = input_layer_size == 0 || output_layer_size == 0 || (exists|k: int|
                    0 <= k < hidden_layer_sizes@.len() && hidden_layer_sizes@[k] == 0);
                &&& bad ==> r == Err::<NeuralNetwork, NetworkError>(NetworkError::Configuration)
                &&& !bad ==> (r matches Ok(n) && n@ == spec_new_network(
                    input_layer_size,
                    hidden_layer_sizes@,
                    output_layer_size,
                    loss_function,
                ) && wf(n@) && n@.number_weights == spec_total_params(
                    spec_layer_sizes(input_layer_size, hidden_layer_sizes@, output_layer_size),
                ))
            }),
    {
        if input_layer_size == 0 || output_layer_size == 0 {
            return Err(NetworkError::Configuration);
        }
        let nh = hidden_layer_sizes.len();
        for k in 0..nh
            invariant
                nh == hidden_layer_sizes@.len(),
                forall|j: int| 0 <= j < k ==> hidden_layer_sizes@[j] > 0,
        {
            if hidden_layer_sizes[k] == 0 {
                return Err(NetworkError::Configuration);
            }
        }
        // The declared size of every layer, input first.
        let mut sizes: Vec<usize> = Vec::new();
        sizes.push(input_layer_size);
        for k in 0..nh
            invariant
                nh == hidden_layer_sizes@.len(),
                sizes@ == seq![input_layer_size] + hidden_layer_sizes@.take(k as int),
        {
            sizes.push(hidden_layer_sizes[k]);
            proof {
                assert(sizes@ =~= seq![input_layer_size] + hidden_layer_sizes@.take(k + 1));
            }
        }
        sizes.push(output_layer_size);
        let ghost gsizes = spec_layer_sizes(
            input_layer_size,
            hidden_layer_sizes@,
            output_layer_size,
        );
        proof {
            assert(hidden_layer_sizes@.take(nh as int) =~= hidden_layer_sizes@);
            assert(sizes@ =~= gsizes);
        }
        let num_layers = sizes.len();
        // The total trainable-parameter count: one weight per adjacent-layer
        // node pair, one bias per hidden node.
        let mut number_weights: usize = 0;
        for l in 0..num_layers
            invariant
                num_layers == gsizes.len(),
                sizes@ == gsizes,
                spec_total_params(gsizes) <= usize::MAX,
                number_weights + total_params_from(gsizes, l as int) == spec_total_params(gsizes),
        {
            proof {
                lemma_total_params_from_nonneg(gsizes, l + 1);
                assert(total_params_from(gsizes, l as int) == layer_contrib(gsizes, l as int)
                    + total_params_from(gsizes, l + 1));
            }
            if l + 1 < num_layers {
                let prod = sizes[l] * sizes[l + 1];
                number_weights = number_weights + prod;
                if l > 0 {
                    number_weights = number_weights + sizes[l];
                }
            }
        }
        proof {
            assert(total_params_from(gsizes, num_layers as int) == 0);
        }
        // Build the layers, connecting each fresh node densely to the next
        // layer (owned outgoing edges) and registering the handles of its
        // incoming edges from the previous layer.
        let mut layers: Vec<Vec<Node>> = Vec::new();
        for l in 0..num_layers
            invariant
                num_layers == gsizes.len(),
                2 <= num_layers,
                sizes@ == gsizes,
                layers@.len() == l,
                forall|p: int| 0 <= p < l ==> (#[trigger] layers@[p])@.len() == gsizes[p],
                forall|p: int, q: int|
                    0 <= p < l && 0 <= q < gsizes[p] ==> (#[trigger] layers@[p]@[q])@
                        == spec_new_node(p, q, gsizes),
        {
            let layer_size: usize = sizes[l];
            let node_type: NodeType;
            let activation_type: ActivationType;
            if l == 0 {
                node_type = NodeType::Input;
                activation_type = ActivationType::Linear;
            } else if l < num_layers - 1 {
                node_type = NodeType::Hidden;
                activation_type = ActivationType::Tanh;
            } else {
                node_type = NodeType::Output;
                activation_type = ActivationType::Sigmoid;
            }
            proof {
                assert(node_type == spec_node_type(l as int, gsizes.len() as int));
                assert(activation_type == spec_activation(l as int, gsizes.len() as int));
            }
            let mut new_layer: Vec<Node> = Vec::new();
            for i in 0..layer_size
                invariant
                    num_layers == gsizes.len(),
                    2 <= num_layers,
                    sizes@ == gsizes,
                    l < num_layers,
                    layer_size == gsizes[l as int],
                    node_type == spec_node_type(l as int, gsizes.len() as int),
                    activation_type == spec_activation(l as int, gsizes.len() as int),
                    new_layer@.len() == i,
                    forall|q: int|
                        0 <= q < i ==> (#[trigger] new_layer@[q])@ == spec_new_node(
                            l as int,
                            q,
                            gsizes,
                        ),
            {
                let mut node = Node::new(l, i, node_type, activation_type);
                if l + 1 < num_layers {
                    let next_size = sizes[l + 1];
                    for j in 0..next_size
                        invariant
                            num_layers == gsizes.len(),
                            sizes@ == gsizes,
                            l + 1 < num_layers,
                            next_size == gsizes[l + 1],
                            node@.layer == l,
                            node@.number == i,
                            node@.node_type == node_type,
                            node@.activation_type == activation_type,
                            node@.pre_activation_value == 0,
                            node@.post_activation_value == 0,
                            node@.delta == 0,
                            node@.bias == 0,
                            node@.bias_delta == 0,
                            node@.incoming_edges.len() == 0,
                            node@.outgoing_edges.len() == j,
                            forall|t: int|
                                0 <= t < j ==> (#[trigger] node@.outgoing_edges[t])
                                    == crate::model::initial_edge(
                                    (l, i),
                                    (((l + 1) as usize), (t as usize)),
                                ),
                    {
                        let res = node.add_edge_outgoing((l + 1, j));
                        match res {
                            Ok(_) => {},
                            Err(_) => {
                                proof {
                                    assert(false);
                                }
                            },
                        }
                        proof {
                            assert(node@.outgoing_edges[j as int] == crate::model::initial_edge(
                                (l, i),
                                (((l + 1) as usize), (j as usize)),
                            ));
                        }
                    }
                }
                if l > 0 {
                    let prev_size = sizes[l - 1];
                    for j in 0..prev_size
                        invariant
                            num_layers == gsizes.len(),
                            sizes@ == gsizes,
                            0 < l < num_layers,
                            prev_size == gsizes[l - 1],
                            node@.layer == l,
                            node@.number == i,
                            node@.node_type == node_type,
                            node@.activation_type == activation_type,
                            node@.pre_activation_value == 0,
                            node@.post_activation_value == 0,
                            node@.delta == 0,
                            node@.bias == 0,
                            node@.bias_delta == 0,
                            node@.outgoing_edges == spec_new_node(l as int, i as int, gsizes).outgoing_edges,
                            node@.incoming_edges.len() == j,
                            forall|t: int|
                                0 <= t < j ==> (#[trigger] node@.incoming_edges[t]) == ((((l - 1)
                                    as usize), (t as usize))),
                    {
                        let res = node.add_edge_incoming((l - 1, j));
                        match res {
                            Ok(_) => {},
                            Err(_) => {
                                proof {
                                    assert(false);
                                }
                            },
                        }
                        proof {
                            assert(node@.incoming_edges[j as int] == ((((l - 1) as usize), (
                            j as usize))));
                        }
                    }
                }
                proof {
                    assert(node@ =~~= spec_new_node(l as int, i as int, gsizes));
                }
                new_layer.push(node);
            }
            layers.push(new_layer);
        }
        let nn = NeuralNetwork {
            loss_function,
            number_weights,
            layers,
            number_inputs: input_layer_size,
        };
        proof {
            let m = spec_new_network(
                input_layer_size,
                hidden_layer_sizes@,
                output_layer_size,
                loss_function,
            );
            assert forall|l: int| 0 <= l < num_layers implies #[trigger] nn@.layers[l]
                == spec_new_layer(gsizes, l) by {
                assert(nn@.layers[l] =~= spec_new_layer(gsizes, l));
            }
            assert(nn@ =~~= m);
            lemma_new_network_wf(
                input_layer_size,
                hidden_layer_sizes@,
                output_layer_size,
                loss_function,
            );
        }
        Ok(nn)
    }

    /// The declared input size: how many values a forward pass consumes.
    pub fn get_number_inputs(&self) -> (r: usize)
        ensures
            r == self@.number_inputs,
    {
        self.number_inputs
    }

    /// The total trainable-parameter count: the length of the vectors that
    /// [`NeuralNetwork::get_weights`], [`NeuralNetwork::set_weights`] and
    /// [`NeuralNetwork::get_deltas`] exchange.
    pub fn get_number_weights(&self) -> (r: usize)
        ensures
            r == self@.number_weights,
    {
        self.number_weights
    }

    /// Flattens every trainable parameter into one ordered vector: layers in
    /// construction order, nodes in index order, for each node its bias
    /// (hidden nodes only) then its outgoing edge weights in destination
    /// order. This ordering is the sole contract an external optimizer uses.
    pub fn get_weights(&self) -> (weights: Vec<u64>)
        requires
            wf(self@),
        ensures
            weights@ == net_params(self@),
            weights@.len() == self@.number_weights,
    {
        let mut weights: Vec<u64> = Vec::new();
        let mut position: usize = 0;
        let nl = self.layers.len();
        for l in 0..nl
            invariant
                wf(self@),
                nl == self@.layers.len(),
                position == weights@.len(),
                weights@ == layers_params(self@.layers.take(l as int)),
        {
            let ns = self.layers[l].len();
            for i in 0..ns
                invariant
                    wf(self@),
                    nl == self@.layers.len(),
                    l < nl,
                    ns == self@.layers[l as int].len(),
                    position == weights@.len(),
                    weights@ == layers_params(self@.layers.take(l as int)) + layer_params(
                        self@.layers[l as int].take(i as int),
                    ),
            {
                proof {
                    lemma_global_params_bound(self@.layers, l as int, i as int);
                    assert(weights@.len() + node_params(self@.layers[l as int][i as int]).len()
                        <= self@.number_weights);
                }
                let count = self.layers[l][i].get_weights(&mut weights);
                position = position + count;
                proof {
                    lemma_layer_params_snoc(self@.layers[l as int], i as int);
                }
            }
            proof {
                assert(self@.layers[l as int].take(ns as int) =~= self@.layers[l as int]);
                lemma_layers_params_snoc(self@.layers, l as int);
            }
        }
        proof {
            assert(self@.layers.take(nl as int) =~= self@.layers);
        }
        weights
    }

    /// Flattens every gradient accumulator into one ordered vector, in
    /// exactly the layout of [`NeuralNetwork::get_weights`]: the bias
    /// gradient of each hidden node, then each outgoing edge's
    /// weight-gradient accumulator.
    pub fn get_deltas(&self) -> (deltas: Vec<u64>)
        requires
            wf(self@),
        ensures
            deltas@ == net_deltas(self@),
            deltas@.len() == self@.number_weights,
    {
        proof {
            crate::laws::lemma_deltas_shape(self@);
        }
        let mut deltas: Vec<u64> = Vec::new();
        let mut position: usize = 0;
        let nl = self.layers.len();
        for l in 0..nl
            invariant
                wf(self@),
                nl == self@.layers.len(),
                position == deltas@.len(),
                deltas@ == crate::model::layers_deltas(self@.layers.take(l as int)),
        {
            let ns = self.layers[l].len();
            for i in 0..ns
                invariant
                    wf(self@),
                    nl == self@.layers.len(),
                    l < nl,
                    ns == self@.layers[l as int].len(),
                    position == deltas@.len(),
                    deltas@ == crate::model::layers_deltas(self@.layers.take(l as int))
                        + crate::model::layer_deltas(self@.layers[l as int].take(i as int)),
            {
                proof {
                    lemma_global_deltas_bound(self@.layers, l as int, i as int);
                    crate::laws::lemma_deltas_shape(self@);
                    assert(deltas@.len() + crate::model::node_deltas(
                        self@.layers[l as int][i as int],
                    ).len() <= net_deltas(self@).len());
                    assert(net_deltas(self@).len() == self@.number_weights);
                }
                let count = self.layers[l][i].get_deltas(&mut deltas);
                position = position + count;
                proof {
                    lemma_layer_deltas_snoc(self@.layers[l as int], i as int);
                }
            }
            proof {
                assert(self@.layers[l as int].take(ns as int) =~= self@.layers[l as int]);
                lemma_layers_deltas_snoc(self@.layers, l as int);
            }
        }
        proof {
            assert(self@.layers.take(nl as int) =~= self@.layers);
        }
        deltas
    }

    /// Writes a full parameter vector back into the graph, in exactly the
    /// layout of [`NeuralNetwork::get_weights`]. The length is validated
    /// before anything is mutated: on a mismatch the call fails with a
    /// dimension error and every weight is left untouched.
    pub fn set_weights(&mut self, weights: &mut Vec<u64>) -> (r: Result<(), NetworkError>)
        requires
            wf(old(self)@),
        ensures
            final(weights)@ == old(weights)@,
            old(weights)@.len() != old(self)@.number_weights ==> r == Err::<(), NetworkError>(
                NetworkError::Dimension,
            ) && final(self)@ == old(self)@,
            old(weights)@.len() == old(self)@.number_weights ==> r == Ok::<(), NetworkError>(())
                && final(self)@ == net_with_params(old(self)@, old(weights)@) && wf(final(self)@),
    {
        if weights.len() != self.number_weights {
            return Err(NetworkError::Dimension);
        }
        let ghost ow = old(weights)@;
        let ghost ols = old(self)@.layers;
        let nl = self.layers.len();
        let mut position: usize = 0;
        for l in 0..nl
            invariant
                wf(old(self)@),
                weights@ == ow,
                ow.len() == old(self)@.number_weights,
                ols == old(self)@.layers,
                nl == ols.len(),
                self@.layers.len() == nl,
                self@.loss_function == old(self)@.loss_function,
                self@.number_weights == old(self)@.number_weights,
                self@.number_inputs == old(self)@.number_inputs,
                position as int == layer_offset(ols, l as int),
                forall|p: int|
                    0 <= p < l ==> (#[trigger] self@.layers[p]) == layers_with_params(ols, ow)[p],
                forall|p: int| l <= p < nl ==> (#[trigger] self@.layers[p]) == ols[p],
        {
            let ns = self.layers[l].len();
            proof {
                assert(self@.layers[l as int] == ols[l as int]);
            }
            for i in 0..ns
                invariant
                    wf(old(self)@),
                    weights@ == ow,
                    ow.len() == old(self)@.number_weights,
                    ols == old(self)@.layers,
                    nl == ols.len(),
                    l < nl,
                    ns == ols[l as int].len(),
                    self@.layers.len() == nl,
                    self@.layers[l as int].len() == ns,
                    self@.loss_function == old(self)@.loss_function,
                    self@.number_weights == old(self)@.number_weights,
                    self@.number_inputs == old(self)@.number_inputs,
                    position as int == layer_offset(ols, l as int) + node_offset(
                        ols[l as int],
                        i as int,
                    ),
                    forall|p: int|
                        0 <= p < l ==> (#[trigger] self@.layers[p]) == layers_with_params(
                            ols,
                            ow,
                        )[p],
                    forall|p: int| l < p < nl ==> (#[trigger] self@.layers[p]) == ols[p],
                    forall|q: int|
                        0 <= q < i ==> (#[trigger] self@.layers[l as int][q]) == node_with_params(
                            ols[l as int][q],
                            ow.subrange(
                                layer_offset(ols, l as int) + node_offset(ols[l as int], q),
                                layer_offset(ols, l as int) + node_offset(ols[l as int], q)
                                    + node_params(ols[l as int][q]).len(),
                            ),
                        ),
                    forall|q: int|
                        i <= q < ns ==> (#[trigger] self@.layers[l as int][q]) == ols[l as int][q],
            {
                proof {
                    lemma_global_params_bound(ols, l as int, i as int);
                    assert(self@.layers[l as int][i as int] == ols[l as int][i as int]);
                    assert(position + node_params(ols[l as int][i as int]).len() <= ow.len());
                }
                let ghost prev = self@;
                let ghost pos0 = position as int;
                let count = self.layers[l][i].set_weights(position, weights);
                position = position + count;
                proof {
                    lemma_layer_params_snoc(ols[l as int], i as int);
                    assert(self@.layers[l as int][i as int] == node_with_params(
                        ols[l as int][i as int],
                        ow.subrange(pos0, pos0 + node_params(ols[l as int][i as int]).len()),
                    ));
                    assert forall|p: int| 0 <= p < nl && p != l implies #[trigger] self@.layers[p]
                        == prev.layers[p] by {
                        assert(self@.layers[p] =~= prev.layers[p]);
                    }
                    assert forall|q: int| 0 <= q < ns && q != i implies #[trigger] self@.layers[l as int][q]
                        == prev.layers[l as int][q] by {
                        assert(self@.layers[l as int][q] =~= prev.layers[l as int][q]);
                    }
                }
            }
            proof {
                assert(ols[l as int].take(ns as int) =~= ols[l as int]);
                lemma_layers_params_snoc(ols, l as int);
                crate::model::lemma_layers_params_take_le(ols, l + 1);
                let loff = layer_offset(ols, l as int);
                let llen = layer_params(ols[l as int]).len() as int;
                assert(loff + llen <= ow.len());
                let wl = ow.subrange(loff, loff + llen);
                assert forall|q: int| 0 <= q < ns implies #[trigger] self@.layers[l as int][q]
                    == crate::model::layer_with_params(ols[l as int], wl)[q] by {
                    lemma_layer_params_snoc(ols[l as int], q);
                    crate::model::lemma_layer_params_take_le(ols[l as int], q + 1);
                    let noff = node_offset(ols[l as int], q);
                    let cnt = node_params(ols[l as int][q]).len() as int;
                    assert(noff + cnt <= llen);
                    assert(wl.subrange(noff, noff + cnt) =~= ow.subrange(
                        loff + noff,
                        loff + noff + cnt,
                    ));
                }
                assert(self@.layers[l as int] =~= layers_with_params(ols, ow)[l as int]);
            }
        }
        proof {
            assert(self@.layers =~= layers_with_params(ols, ow));
            assert(self@ =~~= net_with_params(old(self)@, ow));
            lemma_net_with_params_wf(old(self)@, ow);
        }
        Ok(())
    }

    /// Resets every node for an independent forward/backward cycle: all
    /// activation state, error signals and gradient accumulators are zeroed;
    /// topology, weights and biases stay exactly as they were.
    pub fn reset_for_pass(&mut self)
        requires
            wf(old(self)@),
        ensures
            final(self)@ == net_reset(old(self)@),
            wf(final(self)@),
    {
        let ghost ols = old(self)@.layers;
        let nl = self.layers.len();
        for l in 0..nl
            invariant
                wf(old(self)@),
                ols == old(self)@.layers,
                nl == ols.len(),
                self@.layers.len() == nl,
                self@.loss_function == old(self)@.loss_function,
                self@.number_weights == old(self)@.number_weights,
                self@.number_inputs == old(self)@.number_inputs,
                forall|p: int|
                    0 <= p < l ==> (#[trigger] self@.layers[p]) == crate::model::layer_reset(
                        ols[p],
                    ),
                forall|p: int| l <= p < nl ==> (#[trigger] self@.layers[p]) == ols[p],
        {
            let ns = self.layers[l].len();
            proof {
                assert(self@.layers[l as int] == ols[l as int]);
            }
            for i in 0..ns
                invariant
                    wf(old(self)@),
                    ols == old(self)@.layers,
                    nl == ols.len(),
                    l < nl,
                    ns == ols[l as int].len(),
                    self@.layers.len() == nl,
                    self@.layers[l as int].len() == ns,
                    self@.loss_function == old(self)@.loss_function,
                    self@.number_weights == old(self)@.number_weights,
                    self@.number_inputs == old(self)@.number_inputs,
                    forall|p: int|
                        0 <= p < l ==> (#[trigger] self@.layers[p]) == crate::model::layer_reset(
                            ols[p],
                        ),
                    forall|p: int| l < p < nl ==> (#[trigger] self@.layers[p]) == ols[p],
                    forall|q: int|
                        0 <= q < i ==> (#[trigger] self@.layers[l as int][q])
                            == crate::model::node_reset(ols[l as int][q]),
                    forall|q: int|
                        i <= q < ns ==> (#[trigger] self@.layers[l as int][q]) == ols[l as int][q],
            {
                proof {
                    assert(self@.layers[l as int][i as int] == ols[l as int][i as int]);
                }
                let ghost prev = self@;
                self.layers[l][i].reset();
                proof {
                    assert(self@.layers[l as int][i as int] == crate::model::node_reset(
                        ols[l as int][i as int],
                    ));
                    assert forall|p: int| 0 <= p < nl && p != l implies #[trigger] self@.layers[p]
                        == prev.layers[p] by {
                        assert(self@.layers[p] =~= prev.layers[p]);
                    }
                    assert forall|q: int| 0 <= q < ns && q != i implies #[trigger] self@.layers[l as int][q]
                        == prev.layers[l as int][q] by {
                        assert(self@.layers[l as int][q] =~= prev.layers[l as int][q]);
                    }
                }
            }
            proof {
                assert(self@.layers[l as int] =~= crate::model::layer_reset(ols[l as int]));
            }
        }
        proof {
            assert(self@.layers =~= ols.map_values(
                |lay: Seq<crate::model::NodeView>| crate::model::layer_reset(lay),
            ));
            assert(self@ =~~= net_reset(old(self)@));
            lemma_net_reset_wf(old(self)@);
        }
    }

    /// A shared borrow of the node at the given (layer, number) location.
    pub fn get_node_ref(&self, node_location: (usize, usize)) -> (node: &Node)
        requires
            node_location.0 < self@.layers.len(),
            node_location.1 < self@.layers[node_location.0 as int].len(),
        ensures
            node@ == self@.layers[node_location.0 as int][node_location.1 as int],
    {
        let (layer_num, node_num) = node_location;
        &self.layers[layer_num][node_num]
    }

    /// A mutable borrow of the node at the given (layer, number) location.
    /// Writing through it changes exactly that node and nothing else; the
    /// caller is responsible for whatever well-formedness it needs
    /// afterwards.
    pub fn get_mut_node_ref(&mut self, node_location: (usize, usize)) -> (node: &mut Node)
        requires
            node_location.0 < old(self)@.layers.len(),
            node_location.1 < old(self)@.layers[node_location.0 as int].len(),
        ensures
            (*node)@ == old(self)@.layers[node_location.0 as int][node_location.1 as int],
            final(self)@.loss_function == old(self)@.loss_function,
            final(self)@.number_weights == old(self)@.number_weights,
            final(self)@.number_inputs == old(self)@.number_inputs,
            final(self)@.layers.len() == old(self)@.layers.len(),
            forall|p: int|
                0 <= p < old(self)@.layers.len() && p != node_location.0 as int ==> (
                #[trigger] final(self)@.layers[p]) =~= old(self)@.layers[p],
            final(self)@.layers[node_location.0 as int].len() == old(self)@.layers[node_location.0
                as int].len(),
            forall|q: int|
                0 <= q < old(self)@.layers[node_location.0 as int].len() && q != node_location.1
                    as int ==> (#[trigger] final(self)@.layers[node_location.0 as int][q]) == old(
                    self,
                )@.layers[node_location.0 as int][q],
            final(self)@.layers[node_location.0 as int][node_location.1 as int] == (*final(node))@,
    {
        let (layer_num, node_num) = node_location;
        &mut self.layers[layer_num][node_num]
    }
}

/// Self-check of the parameter round trip on a concrete network: writing a
/// vector of 68 distinct values into a 3-[4,2,7]-3 network and flattening
/// the parameters back returns the same 68 values. Always true.
pub fn test_set_weights() -> (r: bool)
    ensures
        r == true,
{
    proof {
        lemma_sizes_3_4_2_7_3();
    }
    let mut hidden: Vec<usize> = Vec::new();
    hidden.push(4);
    hidden.push(2);
    hidden.push(7);
    proof {
        assert(hidden@ =~= seq![4usize, 2usize, 7usize]);
        assert(spec_layer_sizes(3usize, hidden@, 3usize) =~= seq![
            3usize,
            4usize,
            2usize,
            7usize,
            3usize,
        ]);
    }
    let built = NeuralNetwork::new(3, hidden, 3, LossFunction::L1);
    let mut nn = match built {
        Ok(nn) => nn,
        Err(_) => {
            proof {
                assert(false);
            }
            return false;
        },
    };
    let mut w: Vec<u64> = Vec::new();
    for k in 0..68usize
        invariant
            w@.len() == k,
            forall|t: int| 0 <= t < k ==> w@[t] == t + 1,
    {
        w.push((k as u64) + 1);
    }
    let ghost before = nn@;
    let outcome = nn.set_weights(&mut w);
    match outcome {
        Ok(_) => {},
        Err(_) => {
            proof {
                assert(false);
            }
            return false;
        },
    }
    proof {
        crate::laws::lemma_weights_round_trip(before, w@);
    }
    let got = nn.get_weights();
    if got.len() != w.len() {
        return false;
    }
    let n = got.len();
    for t in 0..n
        invariant
            n == got@.len(),
            w@.len() == n,
            got@ == w@,
    {
        if got[t] != w[t] {
            return false;
        }
    }
    true
}

/// Self-check of the parameter counts: a 3-[4,2,7]-3 network flattens to 68
/// parameters (55 edge weights plus 13 hidden biases) and a 3-[2,2]-2
/// network to 18 (14 edge weights plus 4 hidden biases). Always true.
pub fn test_get_weights_nn() -> (r: bool)
    ensures
        r == true,
{
    proof {
        lemma_sizes_3_4_2_7_3();
        lemma_sizes_3_2_2_2();
    }
    let mut hidden_a: Vec<usize> = Vec::new();
    hidden_a.push(4);
    hidden_a.push(2);
    hidden_a.push(7);
    proof {
        assert(hidden_a@ =~= seq![4usize, 2usize, 7usize]);
        assert(spec_layer_sizes(3usize, hidden_a@, 3usize) =~= seq![
            3usize,
            4usize,
            2usize,
            7usize,
            3usize,
        ]);
    }
    let built_a = NeuralNetwork::new(3, hidden_a, 3, LossFunction::L1);
    let nn_a = match built_a {
        Ok(nn) => nn,
        Err(_) => {
            proof {
                assert(false);
            }
            return false;
        },
    };
    let ok_a = nn_a.get_weights().len() == 68;
    let mut hidden_b: Vec<usize> = Vec::new();
    hidden_b.push(2);
    hidden_b.push(2);
    proof {
        assert(hidden_b@ =~= seq![2usize, 2usize]);
        assert(spec_layer_sizes(3usize, hidden_b@, 2usize) =~= seq![3usize, 2usize, 2usize, 2usize]);
    }
    let built_b = NeuralNetwork::new(3, hidden_b, 2, LossFunction::L1);
    let nn_b = match built_b {
        Ok(nn) => nn,
        Err(_) => {
            proof {
                assert(false);
            }
            return false;
        },
    };
    let ok_b = nn_b.get_weights().len() == 18;
    ok_a && ok_b
}

/// The closed parameter-count formula evaluated for layer sizes 3, 4, 2, 7,
/// 3: the 68 of the worked example.
proof fn lemma_sizes_3_4_2_7_3()
    ensures
        spec_total_params(seq![3usize, 4usize, 2usize, 7usize, 3usize]) == 68,
{
    let s = seq![3usize, 4usize, 2usize, 7usize, 3usize];
    assert(total_params_from(s, 5) == 0);
    assert(total_params_from(s, 4) == 0);
    assert(total_params_from(s, 3) == 28);
    assert(total_params_from(s, 2) == 44);
    assert(total_params_from(s, 1) == 56);
    assert(total_params_from(s, 0) == 68);
}

/// The closed parameter-count formula evaluated for layer sizes 3, 2, 2, 2:
/// the 18 of the worked example.
proof fn lemma_sizes_3_2_2_2()
    ensures
        spec_total_params(seq![3usize, 2usize, 2usize, 2usize]) == 18,
{
    let s = seq![3usize, 2usize, 2usize, 2usize];
    assert(total_params_from(s, 4) == 0);
    assert(total_params_from(s, 3) == 0);
    assert(total_params_from(s, 2) == 6);
    assert(total_params_from(s, 1) == 12);
    assert(total_params_from(s, 0) == 18);
}

} // verus!
