//! The mathematical model of the graph: ghost views of edges, nodes and
//! networks, and the spec functions that the executable contracts speak of —
//! the parameter-vector layout, the gradient-vector layout, the per-pass
//! reset, the freshly constructed network, and well-formedness.

use vstd::prelude::*;

use crate::tags::{ActivationType, LossFunction, NodeType};

verus! {

/// Mathematical value of an [`crate::edge::Edge`].
#[verifier::ext_equal]
pub ghost struct EdgeView {
    pub weight: u64,
    pub weight_delta: u64,
    pub node_from: (usize, usize),
    pub node_to: (usize, usize),
}

/// Mathematical value of a [`crate::node::Node`]. Incoming edges are
/// non-owning handles: the (layer, number) location of the source node whose
/// owned edge list holds the actual edge.
#[verifier::ext_equal]
pub ghost struct NodeView {
    pub layer: usize,
    pub number: usize,
    pub node_type: NodeType,
    pub activation_type: ActivationType,
    pub pre_activation_value: u64,
    pub post_activation_value: u64,
    pub delta: u64,
    pub bias: u64,
    pub bias_delta: u64,
    pub incoming_edges: Seq<(usize, usize)>,
    pub outgoing_edges: Seq<EdgeView>,
}

/// Mathematical value of a [`crate::network::NeuralNetwork`].
#[verifier::ext_equal]
pub ghost struct NetworkView {
    pub loss_function: LossFunction,
    pub number_weights: usize,
    pub number_inputs: usize,
    pub layers: Seq<Seq<NodeView>>,
}

// ---------------------------------------------------------------------------
// Parameter and gradient vector layout
// ---------------------------------------------------------------------------

/// How many slots of the parameter vector belong to the bias of this node:
/// one for a hidden node, none otherwise.
pub open spec fn node_bias_len(n: NodeView) -> int {
    if n.node_type == NodeType::Hidden {
        1
    } else {
        0
    }
}

/// The slice of the parameter vector owned by one node: its bias if it is
/// hidden, then the weights of its outgoing edges in edge-creation order.
pub open spec fn node_params(n: NodeView) -> Seq<u64> {
    let ws = n.outgoing_edges.map_values(|e: EdgeView| e.weight);
    if n.node_type == NodeType::Hidden {
        seq![n.bias] + ws
    } else {
        ws
    }
}

/// The slice of the gradient vector owned by one node: same layout as
/// [`node_params`], but holding the accumulators instead of the parameters.
pub open spec fn node_deltas(n: NodeView) -> Seq<u64> {
    let ds = n.outgoing_edges.map_values(|e: EdgeView| e.weight_delta);
    if n.node_type == NodeType::Hidden {
        seq![n.bias_delta] + ds
    } else {
        ds
    }
}

/// Parameter slices of the nodes of one layer, concatenated in node order.
pub open spec fn layer_params(lay: Seq<NodeView>) -> Seq<u64>
    decreases lay.len(),
{
    if lay.len() == 0 {
        Seq::empty()
    } else {
        node_params(lay[0]) + layer_params(lay.drop_first())
    }
}

/// Parameter slices of all layers, concatenated in layer order.
pub open spec fn layers_params(ls: Seq<Seq<NodeView>>) -> Seq<u64>
    decreases ls.len(),
{
    if ls.len() == 0 {
        Seq::empty()
    } else {
        layer_params(ls[0]) + layers_params(ls.drop_first())
    }
}

/// The whole flattened parameter vector of a network: layers in construction
/// order, nodes in index order, for each node its bias (hidden nodes only)
/// then its outgoing edge weights in destination order.
pub open spec fn net_params(m: NetworkView) -> Seq<u64> {
    layers_params(m.layers)
}

/// Gradient slices of the nodes of one layer, concatenated in node order.
pub open spec fn layer_deltas(lay: Seq<NodeView>) -> Seq<u64>
    decreases lay.len(),
{
    if lay.len() == 0 {
        Seq::empty()
    } else {
        node_deltas(lay[0]) + layer_deltas(lay.drop_first())
    }
}

/// Gradient slices of all layers, concatenated in layer order.
pub open spec fn layers_deltas(ls: Seq<Seq<NodeView>>) -> Seq<u64>
    decreases ls.len(),
{
    if ls.len() == 0 {
        Seq::empty()
    } else {
        layer_deltas(ls[0]) + layers_deltas(ls.drop_first())
    }
}

/// The whole flattened gradient vector, in exactly the layout of
/// [`net_params`].
pub open spec fn net_deltas(m: NetworkView) -> Seq<u64> {
    layers_deltas(m.layers)
}

// ---------------------------------------------------------------------------
// Writing a parameter vector back into the graph
// ---------------------------------------------------------------------------

/// One node with its parameter slice `w` written in: the bias takes `w[0]`
/// if the node is hidden, and each outgoing edge weight takes the following
/// slots in edge order. `w` must be exactly the node's slice.
pub open spec fn node_with_params(n: NodeView, w: Seq<u64>) -> NodeView {
    NodeView {
        layer: n.layer,
        number: n.number,
        node_type: n.node_type,
        activation_type: n.activation_type,
        pre_activation_value: n.pre_activation_value,
        post_activation_value: n.post_activation_value,
        delta: n.delta,
        bias: if n.node_type == NodeType::Hidden {
            w[0]
        } else {
            n.bias
        },
        bias_delta: n.bias_delta,
        incoming_edges: n.incoming_edges,
        outgoing_edges: Seq::new(
            n.outgoing_edges.len(),
            |j: int|
                EdgeView {
                    weight: w[node_bias_len(n) + j],
                    weight_delta: n.outgoing_edges[j].weight_delta,
                    node_from: n.outgoing_edges[j].node_from,
                    node_to: n.outgoing_edges[j].node_to,
                },
        ),
    }
}

/// Where the parameter slice of node `i` starts, within its layer's slice.
pub open spec fn node_offset(lay: Seq<NodeView>, i: int) -> int {
    layer_params(lay.take(i)).len() as int
}

/// One layer with its parameter slice `w` distributed over its nodes.
pub open spec fn layer_with_params(lay: Seq<NodeView>, w: Seq<u64>) -> Seq<NodeView> {
    Seq::new(
        lay.len(),
        |i: int|
            node_with_params(
                lay[i],
                w.subrange(node_offset(lay, i), node_offset(lay, i) + node_params(lay[i]).len()),
            ),
    )
}

/// Where the parameter slice of layer `l` starts, within the whole vector.
pub open spec fn layer_offset(ls: Seq<Seq<NodeView>>, l: int) -> int {
    layers_params(ls.take(l)).len() as int
}

/// All layers with the parameter vector `w` distributed over them.
pub open spec fn layers_with_params(ls: Seq<Seq<NodeView>>, w: Seq<u64>) -> Seq<Seq<NodeView>> {
    Seq::new(
        ls.len(),
        |l: int|
            layer_with_params(
                ls[l],
                w.subrange(layer_offset(ls, l), layer_offset(ls, l) + layer_params(ls[l]).len()),
            ),
    )
}

/// The network with the full parameter vector `w` written into the graph;
/// everything but biases and edge weights is unchanged.
pub open spec fn net_with_params(m: NetworkView, w: Seq<u64>) -> NetworkView {
    NetworkView {
        loss_function: m.loss_function,
        number_weights: m.number_weights,
        number_inputs: m.number_inputs,
        layers: layers_with_params(m.layers, w),
    }
}

// ---------------------------------------------------------------------------
// Adding edges during construction
// ---------------------------------------------------------------------------

/// The node with one more owned outgoing edge, freshly initialized, from
/// itself to `to`.
pub open spec fn node_with_new_outgoing(n: NodeView, to: (usize, usize)) -> NodeView {
    NodeView {
        layer: n.layer,
        number: n.number,
        node_type: n.node_type,
        activation_type: n.activation_type,
        pre_activation_value: n.pre_activation_value,
        post_activation_value: n.post_activation_value,
        delta: n.delta,
        bias: n.bias,
        bias_delta: n.bias_delta,
        incoming_edges: n.incoming_edges,
        outgoing_edges: n.outgoing_edges.push(initial_edge((n.layer, n.number), to)),
    }
}

/// The node with one more non-owning incoming handle, naming the source node
/// at `from`.
pub open spec fn node_with_new_incoming(n: NodeView, from: (usize, usize)) -> NodeView {
    NodeView {
        layer: n.layer,
        number: n.number,
        node_type: n.node_type,
        activation_type: n.activation_type,
        pre_activation_value: n.pre_activation_value,
        post_activation_value: n.post_activation_value,
        delta: n.delta,
        bias: n.bias,
        bias_delta: n.bias_delta,
        incoming_edges: n.incoming_edges.push(from),
        outgoing_edges: n.outgoing_edges,
    }
}

// ---------------------------------------------------------------------------
// The per-pass reset
// ---------------------------------------------------------------------------

/// An edge after a reset: the weight stays, the gradient accumulator is
/// zeroed.
pub open spec fn edge_reset(e: EdgeView) -> EdgeView {
    EdgeView { weight: e.weight, weight_delta: 0, node_from: e.node_from, node_to: e.node_to }
}

/// A node after a reset: activation state, error signal and gradient
/// accumulators are zeroed; topology, bias and weights stay.
pub open spec fn node_reset(n: NodeView) -> NodeView {
    NodeView {
        layer: n.layer,
        number: n.number,
        node_type: n.node_type,
        activation_type: n.activation_type,
        pre_activation_value: 0,
        post_activation_value: 0,
        delta: 0,
        bias: n.bias,
        bias_delta: 0,
        incoming_edges: n.incoming_edges,
        outgoing_edges: n.outgoing_edges.map_values(|e: EdgeView| edge_reset(e)),
    }
}

/// One layer after a reset.
pub open spec fn layer_reset(lay: Seq<NodeView>) -> Seq<NodeView> {
    lay.map_values(|n: NodeView| node_reset(n))
}

/// The whole network after a reset of every node.
pub open spec fn net_reset(m: NetworkView) -> NetworkView {
    NetworkView {
        loss_function: m.loss_function,
        number_weights: m.number_weights,
        number_inputs: m.number_inputs,
        layers: m.layers.map_values(|lay: Seq<NodeView>| layer_reset(lay)),
    }
}

// ---------------------------------------------------------------------------
// The freshly constructed network
// ---------------------------------------------------------------------------

/// A just-created edge: zero weight (the default initialization policy),
/// zero gradient accumulator.
pub open spec fn initial_edge(from: (usize, usize), to: (usize, usize)) -> EdgeView {
    EdgeView { weight: 0, weight_delta: 0, node_from: from, node_to: to }
}

/// The declared sizes of all layers: input, the hidden sizes in order,
/// output.
pub open spec fn spec_layer_sizes(input: usize, hidden: Seq<usize>, output: usize) -> Seq<usize> {
    seq![input] + hidden + seq![output]
}

/// The node kind of layer `l` in a network of `num_layers` layers.
pub open spec fn spec_node_type(l: int, num_layers: int) -> NodeType {
    if l == 0 {
        NodeType::Input
    } else if l == num_layers - 1 {
        NodeType::Output
    } else {
        NodeType::Hidden
    }
}

/// The default activation of layer `l`: identity for input, hyperbolic
/// tangent for hidden, logistic sigmoid for output.
pub open spec fn spec_activation(l: int, num_layers: int) -> ActivationType {
    if l == 0 {
        ActivationType::Linear
    } else if l == num_layers - 1 {
        ActivationType::Sigmoid
    } else {
        ActivationType::Tanh
    }
}

/// The freshly constructed node at (l, i): zero state, dense outgoing edges
/// to every node of layer l+1 in destination order, incoming handles from
/// every node of layer l-1 in source order.
pub open spec fn spec_new_node(l: int, i: int, sizes: Seq<usize>) -> NodeView {
    NodeView {
        layer: l as usize,
        number: i as usize,
        node_type: spec_node_type(l, sizes.len() as int),
        activation_type: spec_activation(l, sizes.len() as int),
        pre_activation_value: 0,
        post_activation_value: 0,
        delta: 0,
        bias: 0,
        bias_delta: 0,
        incoming_edges: if l > 0 {
            Seq::new(sizes[l - 1] as nat, |j: int| (((l - 1) as usize, j as usize)))
        } else {
            Seq::empty()
        },
        outgoing_edges: if l + 1 < sizes.len() {
            Seq::new(
                sizes[l + 1] as nat,
                |j: int| initial_edge((l as usize, i as usize), ((l + 1) as usize, j as usize)),
            )
        } else {
            Seq::empty()
        },
    }
}

/// The freshly constructed layer `l`.
pub open spec fn spec_new_layer(sizes: Seq<usize>, l: int) -> Seq<NodeView> {
    Seq::new(sizes[l] as nat, |i: int| spec_new_node(l, i, sizes))
}

/// Trainable parameters contributed while building layer `l`: one weight per
/// edge to layer l+1, plus one bias per node if the layer is hidden.
pub open spec fn layer_contrib(sizes: Seq<usize>, l: int) -> int {
    (if l + 1 < sizes.len() {
        sizes[l] * sizes[l + 1]
    } else {
        0
    }) + (if 0 < l && l + 1 < sizes.len() {
        sizes[l] as int
    } else {
        0
    })
}

/// Trainable parameters contributed by layers `l` and beyond.
pub open spec fn total_params_from(sizes: Seq<usize>, l: int) -> int
    decreases sizes.len() - l,
{
    if l < 0 || l >= sizes.len() {
        0
    } else {
        layer_contrib(sizes, l) + total_params_from(sizes, l + 1)
    }
}

/// The total trainable-parameter count of a network with the given layer
/// sizes: the sum of all hidden-layer sizes (biases) plus the sum over
/// adjacent layer pairs of the product of their sizes (edge weights).
pub open spec fn spec_total_params(sizes: Seq<usize>) -> int {
    total_params_from(sizes, 0)
}

/// The freshly constructed network: dense adjacent-layer connectivity, all
/// weights, biases and transient state at zero.
pub open spec fn spec_new_network(
    input: usize,
    hidden: Seq<usize>,
    output: usize,
    loss: LossFunction,
) -> NetworkView {
    let sizes = spec_layer_sizes(input, hidden, output);
    NetworkView {
        loss_function: loss,
        number_weights: spec_total_params(sizes) as usize,
        number_inputs: input,
        layers: Seq::new(sizes.len(), |l: int| spec_new_layer(sizes, l)),
    }
}

// ---------------------------------------------------------------------------
// Well-formedness
// ---------------------------------------------------------------------------

/// Well-formedness of the node at (l, i) within its network: it knows its own
/// location, its kind is determined by its layer, its outgoing edges go
/// densely to layer l+1 in destination order (so no two share a destination),
/// and its incoming handles name every node of layer l-1 in source order.
pub open spec fn node_wf(m: NetworkView, l: int, i: int) -> bool {
    let n = m.layers[l][i];
    let last = m.layers.len() - 1;
    &&& n.layer as int == l
    &&& n.number as int == i
    &&& n.node_type == spec_node_type(l, m.layers.len() as int)
    &&& if l < last {
        &&& n.outgoing_edges.len() == m.layers[l + 1].len()
        &&& forall|j: int|
            0 <= j < n.outgoing_edges.len() ==> (#[trigger] n.outgoing_edges[j]).node_from
                == (n.layer, n.number) && n.outgoing_edges[j].node_to.0 as int == l + 1
                && n.outgoing_edges[j].node_to.1 as int == j
    } else {
        n.outgoing_edges.len() == 0
    }
    &&& if l > 0 {
        &&& n.incoming_edges.len() == m.layers[l - 1].len()
        &&& forall|j: int|
            0 <= j < n.incoming_edges.len() ==> (#[trigger] n.incoming_edges[j]).0 as int == l - 1
                && n.incoming_edges[j].1 as int == j
    } else {
        n.incoming_edges.len() == 0
    }
}

/// Parameters of one node while building layer `l`: one bias slot if the
/// layer is hidden, plus one weight per edge to layer `l + 1`.
pub open spec fn node_contrib(sizes: Seq<usize>, l: int) -> int {
    (if 0 < l && l + 1 < sizes.len() {
        1int
    } else {
        0int
    }) + (if l + 1 < sizes.len() {
        sizes[l + 1] as int
    } else {
        0int
    })
}

/// Well-formedness of a whole network: at least an input and an output layer,
/// no empty layer, the recorded input size and total parameter count agree
/// with the graph, and every node is well-formed in place.
pub open spec fn wf(m: NetworkView) -> bool {
    &&& m.layers.len() >= 2
    &&& forall|l: int| 0 <= l < m.layers.len() ==> (#[trigger] m.layers[l]).len() > 0
    &&& m.number_inputs == m.layers[0].len()
    &&& m.number_weights == net_params(m).len()
    &&& forall|l: int, i: int|
        0 <= l < m.layers.len() && 0 <= i < m.layers[l].len() ==> #[trigger] node_wf(m, l, i)
}

// ---------------------------------------------------------------------------
// Concatenation and prefix lemmas for the flattened vectors
// ---------------------------------------------------------------------------

/// Parameter flattening distributes over layer concatenation.
pub proof fn lemma_layer_params_cat(a: Seq<NodeView>, b: Seq<NodeView>)
    ensures
        layer_params(a + b) == layer_params(a) + layer_params(b),
    decreases a.len(),
{
    if a.len() == 0 {
        assert(a + b =~= b);
        assert(layer_params(a) + layer_params(b) =~= layer_params(b));
    } else {
        assert((a + b).drop_first() =~= a.drop_first() + b);
        lemma_layer_params_cat(a.drop_first(), b);
        assert((a + b)[0] == a[0]);
        assert(node_params(a[0]) + (layer_params(a.drop_first()) + layer_params(b)) =~= (
        node_params(a[0]) + layer_params(a.drop_first())) + layer_params(b));
    }
}

/// Gradient flattening distributes over layer concatenation.
pub proof fn lemma_layer_deltas_cat(a: Seq<NodeView>, b: Seq<NodeView>)
    ensures
        layer_deltas(a + b) == layer_deltas(a) + layer_deltas(b),
    decreases a.len(),
{
    if a.len() == 0 {
        assert(a + b =~= b);
        assert(layer_deltas(a) + layer_deltas(b) =~= layer_deltas(b));
    } else {
        assert((a + b).drop_first() =~= a.drop_first() + b);
        lemma_layer_deltas_cat(a.drop_first(), b);
        assert((a + b)[0] == a[0]);
        assert(node_deltas(a[0]) + (layer_deltas(a.drop_first()) + layer_deltas(b)) =~= (
        node_deltas(a[0]) + layer_deltas(a.drop_first())) + layer_deltas(b));
    }
}

/// Parameter flattening distributes over concatenation of layer sequences.
pub proof fn lemma_layers_params_cat(a: Seq<Seq<NodeView>>, b: Seq<Seq<NodeView>>)
    ensures
        layers_params(a + b) == layers_params(a) + layers_params(b),
    decreases a.len(),
{
    if a.len() == 0 {
        assert(a + b =~= b);
        assert(layers_params(a) + layers_params(b) =~= layers_params(b));
    } else {
        assert((a + b).drop_first() =~= a.drop_first() + b);
        lemma_layers_params_cat(a.drop_first(), b);
        assert((a + b)[0] == a[0]);
        assert(layer_params(a[0]) + (layers_params(a.drop_first()) + layers_params(b)) =~= (
        layer_params(a[0]) + layers_params(a.drop_first())) + layers_params(b));
    }
}

/// Gradient flattening distributes over concatenation of layer sequences.
pub proof fn lemma_layers_deltas_cat(a: Seq<Seq<NodeView>>, b: Seq<Seq<NodeView>>)
    ensures
        layers_deltas(a + b) == layers_deltas(a) + layers_deltas(b),
    decreases a.len(),
{
    if a.len() == 0 {
        assert(a + b =~= b);
        assert(layers_deltas(a) + layers_deltas(b) =~= layers_deltas(b));
    } else {
        assert((a + b).drop_first() =~= a.drop_first() + b);
        lemma_layers_deltas_cat(a.drop_first(), b);
        assert((a + b)[0] == a[0]);
        assert(layer_deltas(a[0]) + (layers_deltas(a.drop_first()) + layers_deltas(b)) =~= (
        layer_deltas(a[0]) + layers_deltas(a.drop_first())) + layers_deltas(b));
    }
}

/// A one-node layer flattens to that node's parameter slice.
pub proof fn lemma_layer_params_single(n: NodeView)
    ensures
        layer_params(seq![n]) == node_params(n),
{
    let s = seq![n];
    assert(s.drop_first() =~= Seq::<NodeView>::empty());
    assert(layer_params(Seq::<NodeView>::empty()) == Seq::<u64>::empty());
    assert(layer_params(s) == node_params(n) + Seq::<u64>::empty());
    assert(node_params(n) + Seq::<u64>::empty() =~= node_params(n));
}

/// A one-node layer flattens to that node's gradient slice.
pub proof fn lemma_layer_deltas_single(n: NodeView)
    ensures
        layer_deltas(seq![n]) == node_deltas(n),
{
    let s = seq![n];
    assert(s.drop_first() =~= Seq::<NodeView>::empty());
    assert(layer_deltas(Seq::<NodeView>::empty()) == Seq::<u64>::empty());
    assert(layer_deltas(s) == node_deltas(n) + Seq::<u64>::empty());
    assert(node_deltas(n) + Seq::<u64>::empty() =~= node_deltas(n));
}

/// A one-layer sequence flattens to that layer's parameter slice.
pub proof fn lemma_layers_params_single(lay: Seq<NodeView>)
    ensures
        layers_params(seq![lay]) == layer_params(lay),
{
    let s = seq![lay];
    assert(s.drop_first() =~= Seq::<Seq<NodeView>>::empty());
    assert(layers_params(Seq::<Seq<NodeView>>::empty()) == Seq::<u64>::empty());
    assert(layers_params(s) == layer_params(lay) + Seq::<u64>::empty());
    assert(layer_params(lay) + Seq::<u64>::empty() =~= layer_params(lay));
}

/// A one-layer sequence flattens to that layer's gradient slice.
pub proof fn lemma_layers_deltas_single(lay: Seq<NodeView>)
    ensures
        layers_deltas(seq![lay]) == layer_deltas(lay),
{
    let s = seq![lay];
    assert(s.drop_first() =~= Seq::<Seq<NodeView>>::empty());
    assert(layers_deltas(Seq::<Seq<NodeView>>::empty()) == Seq::<u64>::empty());
    assert(layers_deltas(s) == layer_deltas(lay) + Seq::<u64>::empty());
    assert(layer_deltas(lay) + Seq::<u64>::empty() =~= layer_deltas(lay));
}

/// Extending a node prefix by one node appends that node's parameter slice.
pub proof fn lemma_layer_params_snoc(lay: Seq<NodeView>, i: int)
    requires
        0 <= i < lay.len(),
    ensures
        layer_params(lay.take(i + 1)) == layer_params(lay.take(i)) + node_params(lay[i]),
{
    assert(lay.take(i + 1) =~= lay.take(i) + seq![lay[i]]);
    lemma_layer_params_cat(lay.take(i), seq![lay[i]]);
    lemma_layer_params_single(lay[i]);
}

/// Extending a node prefix by one node appends that node's gradient slice.
pub proof fn lemma_layer_deltas_snoc(lay: Seq<NodeView>, i: int)
    requires
        0 <= i < lay.len(),
    ensures
        layer_deltas(lay.take(i + 1)) == layer_deltas(lay.take(i)) + node_deltas(lay[i]),
{
    assert(lay.take(i + 1) =~= lay.take(i) + seq![lay[i]]);
    lemma_layer_deltas_cat(lay.take(i), seq![lay[i]]);
    lemma_layer_deltas_single(lay[i]);
}

/// Extending a layer prefix by one layer appends that layer's parameters.
pub proof fn lemma_layers_params_snoc(ls: Seq<Seq<NodeView>>, l: int)
    requires
        0 <= l < ls.len(),
    ensures
        layers_params(ls.take(l + 1)) == layers_params(ls.take(l)) + layer_params(ls[l]),
{
    assert(ls.take(l + 1) =~= ls.take(l) + seq![ls[l]]);
    lemma_layers_params_cat(ls.take(l), seq![ls[l]]);
    lemma_layers_params_single(ls[l]);
}

/// Extending a layer prefix by one layer appends that layer's gradients.
pub proof fn lemma_layers_deltas_snoc(ls: Seq<Seq<NodeView>>, l: int)
    requires
        0 <= l < ls.len(),
    ensures
        layers_deltas(ls.take(l + 1)) == layers_deltas(ls.take(l)) + layer_deltas(ls[l]),
{
    assert(ls.take(l + 1) =~= ls.take(l) + seq![ls[l]]);
    lemma_layers_deltas_cat(ls.take(l), seq![ls[l]]);
    lemma_layers_deltas_single(ls[l]);
}

/// A node prefix never flattens to more parameters than its whole layer.
pub proof fn lemma_layer_params_take_le(lay: Seq<NodeView>, i: int)
    requires
        0 <= i <= lay.len(),
    ensures
        layer_params(lay.take(i)).len() <= layer_params(lay).len(),
{
    assert(lay =~= lay.take(i) + lay.skip(i));
    lemma_layer_params_cat(lay.take(i), lay.skip(i));
}

/// A node prefix never flattens to more gradients than its whole layer.
pub proof fn lemma_layer_deltas_take_le(lay: Seq<NodeView>, i: int)
    requires
        0 <= i <= lay.len(),
    ensures
        layer_deltas(lay.take(i)).len() <= layer_deltas(lay).len(),
{
    assert(lay =~= lay.take(i) + lay.skip(i));
    lemma_layer_deltas_cat(lay.take(i), lay.skip(i));
}

/// A layer prefix never flattens to more parameters than the whole network.
pub proof fn lemma_layers_params_take_le(ls: Seq<Seq<NodeView>>, l: int)
    requires
        0 <= l <= ls.len(),
    ensures
        layers_params(ls.take(l)).len() <= layers_params(ls).len(),
{
    assert(ls =~= ls.take(l) + ls.skip(l));
    lemma_layers_params_cat(ls.take(l), ls.skip(l));
}

/// A layer prefix never flattens to more gradients than the whole network.
pub proof fn lemma_layers_deltas_take_le(ls: Seq<Seq<NodeView>>, l: int)
    requires
        0 <= l <= ls.len(),
    ensures
        layers_deltas(ls.take(l)).len() <= layers_deltas(ls).len(),
{
    assert(ls =~= ls.take(l) + ls.skip(l));
    lemma_layers_deltas_cat(ls.take(l), ls.skip(l));
}

/// The parameter slice of node (l, i) lies inside the whole flattened
/// vector: its global offset plus its length is bounded by the total.
pub proof fn lemma_global_params_bound(ls: Seq<Seq<NodeView>>, l: int, i: int)
    requires
        0 <= l < ls.len(),
        0 <= i < ls[l].len(),
    ensures
        0 <= layer_offset(ls, l) + node_offset(ls[l], i),
        layer_offset(ls, l) + node_offset(ls[l], i) + node_params(ls[l][i]).len()
            <= layers_params(ls).len(),
{
    lemma_layer_params_snoc(ls[l], i);
    lemma_layer_params_take_le(ls[l], i + 1);
    lemma_layers_params_snoc(ls, l);
    lemma_layers_params_take_le(ls, l + 1);
}

/// The gradient slice of node (l, i) lies inside the whole flattened vector.
pub proof fn lemma_global_deltas_bound(ls: Seq<Seq<NodeView>>, l: int, i: int)
    requires
        0 <= l < ls.len(),
        0 <= i < ls[l].len(),
    ensures
        layers_deltas(ls.take(l)).len() + layer_deltas(ls[l].take(i)).len() + node_deltas(
            ls[l][i],
        ).len() <= layers_deltas(ls).len(),
{
    lemma_layer_deltas_snoc(ls[l], i);
    lemma_layer_deltas_take_le(ls[l], i + 1);
    lemma_layers_deltas_snoc(ls, l);
    lemma_layers_deltas_take_le(ls, l + 1);
}

// ---------------------------------------------------------------------------
// Writing a vector in and flattening it back out
// ---------------------------------------------------------------------------

/// Flattening one node after writing its exact slice returns that slice.
pub proof fn lemma_node_round_trip(n: NodeView, w: Seq<u64>)
    requires
        w.len() == node_params(n).len(),
    ensures
        node_params(node_with_params(n, w)) == w,
{
    let n2 = node_with_params(n, w);
    assert(node_params(n2).len() == w.len());
    assert forall|j: int| 0 <= j < w.len() implies node_params(n2)[j] == w[j] by {
        if n.node_type == NodeType::Hidden {
            if j > 0 {
                assert(node_params(n2)[j] == n2.outgoing_edges[j - 1].weight);
            }
        } else {
            assert(node_params(n2)[j] == n2.outgoing_edges[j].weight);
        }
    }
    assert(node_params(n2) =~= w);
}

/// Flattening a prefix of a layer after writing its slice in returns the
/// matching prefix of the written slice.
proof fn lemma_layer_round_trip_prefix(lay: Seq<NodeView>, w: Seq<u64>, i: int)
    requires
        w.len() == layer_params(lay).len(),
        0 <= i <= lay.len(),
    ensures
        layer_params(layer_with_params(lay, w).take(i)) == w.take(node_offset(lay, i)),
    decreases i,
{
    let lw = layer_with_params(lay, w);
    if i == 0 {
        assert(lw.take(0) =~= Seq::<NodeView>::empty());
        assert(lay.take(0) =~= Seq::<NodeView>::empty());
        assert(w.take(node_offset(lay, 0)) =~= Seq::<u64>::empty());
    } else {
        lemma_layer_round_trip_prefix(lay, w, i - 1);
        lemma_layer_params_snoc(lay, i - 1);
        lemma_layer_params_take_le(lay, i);
        let off = node_offset(lay, i - 1);
        let cnt = node_params(lay[i - 1]).len() as int;
        assert(node_offset(lay, i) == off + cnt);
        assert(off + cnt <= w.len());
        lemma_node_round_trip(lay[i - 1], w.subrange(off, off + cnt));
        assert(lw[i - 1] == node_with_params(lay[i - 1], w.subrange(off, off + cnt)));
        assert(lw.take(i) =~= lw.take(i - 1) + seq![lw[i - 1]]);
        lemma_layer_params_cat(lw.take(i - 1), seq![lw[i - 1]]);
        lemma_layer_params_single(lw[i - 1]);
        assert(w.take(off + cnt) =~= w.take(off) + w.subrange(off, off + cnt));
    }
}

/// Flattening a layer after writing its exact slice returns that slice.
pub proof fn lemma_layer_round_trip(lay: Seq<NodeView>, w: Seq<u64>)
    requires
        w.len() == layer_params(lay).len(),
    ensures
        layer_params(layer_with_params(lay, w)) == w,
{
    let lw = layer_with_params(lay, w);
    lemma_layer_round_trip_prefix(lay, w, lay.len() as int);
    assert(lw.take(lay.len() as int) =~= lw);
    assert(lay.take(lay.len() as int) =~= lay);
    assert(w.take(node_offset(lay, lay.len() as int)) =~= w);
}

/// Flattening a prefix of the layer sequence after writing the vector in
/// returns the matching prefix of the vector.
proof fn lemma_layers_round_trip_prefix(ls: Seq<Seq<NodeView>>, w: Seq<u64>, l: int)
    requires
        w.len() == layers_params(ls).len(),
        0 <= l <= ls.len(),
    ensures
        layers_params(layers_with_params(ls, w).take(l)) == w.take(layer_offset(ls, l)),
    decreases l,
{
    let lw = layers_with_params(ls, w);
    if l == 0 {
        assert(lw.take(0) =~= Seq::<Seq<NodeView>>::empty());
        assert(ls.take(0) =~= Seq::<Seq<NodeView>>::empty());
        assert(w.take(layer_offset(ls, 0)) =~= Seq::<u64>::empty());
    } else {
        lemma_layers_round_trip_prefix(ls, w, l - 1);
        lemma_layers_params_snoc(ls, l - 1);
        lemma_layers_params_take_le(ls, l);
        let off = layer_offset(ls, l - 1);
        let cnt = layer_params(ls[l - 1]).len() as int;
        assert(layer_offset(ls, l) == off + cnt);
        assert(off + cnt <= w.len());
        lemma_layer_round_trip(ls[l - 1], w.subrange(off, off + cnt));
        assert(lw[l - 1] == layer_with_params(ls[l - 1], w.subrange(off, off + cnt)));
        assert(lw.take(l) =~= lw.take(l - 1) + seq![lw[l - 1]]);
        lemma_layers_params_cat(lw.take(l - 1), seq![lw[l - 1]]);
        lemma_layers_params_single(lw[l - 1]);
        assert(w.take(off + cnt) =~= w.take(off) + w.subrange(off, off + cnt));
    }
}

/// Flattening the whole layer sequence after writing the vector in returns
/// the vector.
pub proof fn lemma_layers_round_trip(ls: Seq<Seq<NodeView>>, w: Seq<u64>)
    requires
        w.len() == layers_params(ls).len(),
    ensures
        layers_params(layers_with_params(ls, w)) == w,
{
    let lw = layers_with_params(ls, w);
    lemma_layers_round_trip_prefix(ls, w, ls.len() as int);
    assert(lw.take(ls.len() as int) =~= lw);
    assert(ls.take(ls.len() as int) =~= ls);
    assert(w.take(layer_offset(ls, ls.len() as int)) =~= w);
}

/// Writing a length-correct vector preserves well-formedness: the topology
/// is untouched and the total parameter count is unchanged.
pub proof fn lemma_net_with_params_wf(m: NetworkView, w: Seq<u64>)
    requires
        wf(m),
        w.len() == net_params(m).len(),
    ensures
        wf(net_with_params(m, w)),
{
    let m2 = net_with_params(m, w);
    lemma_layers_round_trip(m.layers, w);
    assert(net_params(m2).len() == m2.number_weights);
    assert forall|l: int, i: int|
        0 <= l < m2.layers.len() && 0 <= i < m2.layers[l].len() implies #[trigger] node_wf(
        m2,
        l,
        i,
    ) by {
        assert(node_wf(m, l, i));
        let n = m.layers[l][i];
        let n2 = m2.layers[l][i];
        assert(n2.outgoing_edges.len() == n.outgoing_edges.len());
        assert(n2.layer == n.layer && n2.number == n.number && n2.node_type == n.node_type);
        assert(n2.incoming_edges == n.incoming_edges);
        assert(forall|j: int|
            0 <= j < n2.outgoing_edges.len() ==> (#[trigger] n2.outgoing_edges[j]).node_from
                == n.outgoing_edges[j].node_from && n2.outgoing_edges[j].node_to
                == n.outgoing_edges[j].node_to);
    }
}

// ---------------------------------------------------------------------------
// Reset lemmas
// ---------------------------------------------------------------------------

/// A reset never changes a node's parameter slice.
pub proof fn lemma_node_reset_params(n: NodeView)
    ensures
        node_params(node_reset(n)) == node_params(n),
        node_params(node_reset(n)).len() == node_params(n).len(),
        node_deltas(node_reset(n)).len() == node_deltas(n).len(),
{
    assert(node_params(node_reset(n)) =~= node_params(n));
    assert(node_deltas(node_reset(n)).len() == node_deltas(n).len());
}

/// A reset never changes a layer's parameter slice.
pub proof fn lemma_layer_reset_params(lay: Seq<NodeView>)
    ensures
        layer_params(layer_reset(lay)) == layer_params(lay),
    decreases lay.len(),
{
    if lay.len() == 0 {
    } else {
        assert(layer_reset(lay)[0] == node_reset(lay[0]));
        assert(layer_reset(lay).drop_first() =~= layer_reset(lay.drop_first()));
        lemma_layer_reset_params(lay.drop_first());
        lemma_node_reset_params(lay[0]);
    }
}

/// A reset never changes the network's flattened parameter vector.
pub proof fn lemma_layers_reset_params(ls: Seq<Seq<NodeView>>)
    ensures
        layers_params(ls.map_values(|lay: Seq<NodeView>| layer_reset(lay))) == layers_params(ls),
    decreases ls.len(),
{
    let rs = ls.map_values(|lay: Seq<NodeView>| layer_reset(lay));
    if ls.len() == 0 {
    } else {
        assert(rs[0] == layer_reset(ls[0]));
        assert(rs.drop_first() =~= ls.drop_first().map_values(
            |lay: Seq<NodeView>| layer_reset(lay),
        ));
        lemma_layers_reset_params(ls.drop_first());
        lemma_layer_reset_params(ls[0]);
    }
}

/// A reset preserves well-formedness.
pub proof fn lemma_net_reset_wf(m: NetworkView)
    requires
        wf(m),
    ensures
        wf(net_reset(m)),
{
    let m2 = net_reset(m);
    lemma_layers_reset_params(m.layers);
    assert(net_params(m2) == net_params(m));
    assert forall|l: int, i: int|
        0 <= l < m2.layers.len() && 0 <= i < m2.layers[l].len() implies #[trigger] node_wf(
        m2,
        l,
        i,
    ) by {
        assert(node_wf(m, l, i));
        let n = m.layers[l][i];
        assert(m2.layers[l] == layer_reset(m.layers[l]));
        let n2 = m2.layers[l][i];
        assert(n2 == node_reset(n));
        assert(forall|j: int|
            0 <= j < n2.outgoing_edges.len() ==> (#[trigger] n2.outgoing_edges[j]).node_from
                == n.outgoing_edges[j].node_from && n2.outgoing_edges[j].node_to
                == n.outgoing_edges[j].node_to);
    }
}

// ---------------------------------------------------------------------------
// Construction lemmas
// ---------------------------------------------------------------------------

/// The suffix parameter count is never negative.
pub proof fn lemma_total_params_from_nonneg(sizes: Seq<usize>, l: int)
    ensures
        total_params_from(sizes, l) >= 0,
    decreases sizes.len() - l,
{
    if 0 <= l && l < sizes.len() {
        lemma_total_params_from_nonneg(sizes, l + 1);
    }
}

/// Flattening a prefix of a freshly constructed layer counts one node
/// contribution per node.
proof fn lemma_new_layer_params_prefix(sizes: Seq<usize>, l: int, i: int)
    requires
        0 <= l < sizes.len(),
        0 <= i <= sizes[l],
    ensures
        layer_params(spec_new_layer(sizes, l).take(i)).len() == i * node_contrib(sizes, l),
    decreases i,
{
    let lay = spec_new_layer(sizes, l);
    if i == 0 {
        assert(lay.take(0) =~= Seq::<NodeView>::empty());
    } else {
        lemma_new_layer_params_prefix(sizes, l, i - 1);
        lemma_layer_params_snoc(lay, i - 1);
        let n = lay[i - 1];
        assert(n == spec_new_node(l, i - 1, sizes));
        assert(node_params(n).len() == node_bias_len(n) + n.outgoing_edges.len());
        assert(node_params(n).len() == node_contrib(sizes, l));
        assert((i - 1) * node_contrib(sizes, l) + node_contrib(sizes, l) == i * node_contrib(
            sizes,
            l,
        )) by (nonlinear_arith);
    }
}

/// A freshly constructed layer flattens to exactly its contribution to the
/// total parameter count.
pub proof fn lemma_new_layer_params_len(sizes: Seq<usize>, l: int)
    requires
        0 <= l < sizes.len(),
    ensures
        layer_params(spec_new_layer(sizes, l)).len() == layer_contrib(sizes, l),
{
    let lay = spec_new_layer(sizes, l);
    lemma_new_layer_params_prefix(sizes, l, sizes[l] as int);
    assert(lay.take(sizes[l] as int) =~= lay);
    assert(sizes[l] * node_contrib(sizes, l) == layer_contrib(sizes, l)) by (nonlinear_arith)
        requires
            node_contrib(sizes, l) == (if 0 < l && l + 1 < sizes.len() {
                1int
            } else {
                0int
            }) + (if l + 1 < sizes.len() {
                sizes[l + 1] as int
            } else {
                0int
            }),
            layer_contrib(sizes, l) == (if l + 1 < sizes.len() {
                sizes[l] * sizes[l + 1]
            } else {
                0int
            }) + (if 0 < l && l + 1 < sizes.len() {
                sizes[l] as int
            } else {
                0int
            }),
    ;
}

/// Flattening the first `l` freshly constructed layers counts exactly the
/// parameters that layers before `l` contribute.
pub proof fn lemma_new_layers_params_prefix(sizes: Seq<usize>, l: int)
    requires
        0 <= l <= sizes.len(),
    ensures
        layers_params(Seq::new(sizes.len(), |k: int| spec_new_layer(sizes, k)).take(l)).len()
            + total_params_from(sizes, l) == spec_total_params(sizes),
    decreases l,
{
    let ls = Seq::new(sizes.len(), |k: int| spec_new_layer(sizes, k));
    if l == 0 {
        assert(ls.take(0) =~= Seq::<Seq<NodeView>>::empty());
    } else {
        lemma_new_layers_params_prefix(sizes, l - 1);
        lemma_layers_params_snoc(ls, l - 1);
        lemma_new_layer_params_len(sizes, l - 1);
        assert(total_params_from(sizes, l - 1) == layer_contrib(sizes, l - 1) + total_params_from(
            sizes,
            l,
        ));
    }
}

/// The freshly constructed network is well-formed, and its recorded total
/// parameter count is both the flatten length and the closed formula over
/// the layer sizes.
pub proof fn lemma_new_network_wf(
    input: usize,
    hidden: Seq<usize>,
    output: usize,
    loss: LossFunction,
)
    requires
        input > 0,
        output > 0,
        forall|k: int| 0 <= k < hidden.len() ==> hidden[k] > 0,
        spec_layer_sizes(input, hidden, output).len() <= usize::MAX,
        spec_total_params(spec_layer_sizes(input, hidden, output)) <= usize::MAX,
    ensures
        wf(spec_new_network(input, hidden, output, loss)),
        net_params(spec_new_network(input, hidden, output, loss)).len() == spec_total_params(
            spec_layer_sizes(input, hidden, output),
        ),
{
    let sizes = spec_layer_sizes(input, hidden, output);
    let m = spec_new_network(input, hidden, output, loss);
    lemma_new_layers_params_prefix(sizes, sizes.len() as int);
    assert(m.layers.take(sizes.len() as int) =~= m.layers);
    lemma_total_params_from_nonneg(sizes, 0);
    assert(net_params(m).len() == spec_total_params(sizes));
    assert forall|l: int| 0 <= l < m.layers.len() implies (#[trigger] m.layers[l]).len() > 0 by {
        assert(m.layers[l] == spec_new_layer(sizes, l));
        if l == 0 {
            assert(sizes[l] == input);
        } else if l == sizes.len() - 1 {
            assert(sizes[l] == output);
        } else {
            assert(sizes[l] == hidden[l - 1]);
        }
    }
    assert forall|l: int, i: int|
        0 <= l < m.layers.len() && 0 <= i < m.layers[l].len() implies #[trigger] node_wf(
        m,
        l,
        i,
    ) by {
        assert(m.layers[l] == spec_new_layer(sizes, l));
        let n = m.layers[l][i];
        assert(n == spec_new_node(l, i, sizes));
        if l < m.layers.len() - 1 {
            assert(m.layers[l + 1] == spec_new_layer(sizes, l + 1));
            assert(n.outgoing_edges.len() == m.layers[l + 1].len());
        }
        if l > 0 {
            assert(m.layers[l - 1] == spec_new_layer(sizes, l - 1));
            assert(n.incoming_edges.len() == m.layers[l - 1].len());
        }
    }
}

} // verus!
