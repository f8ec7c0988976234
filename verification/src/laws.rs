//! Laws of the model, stated once over arbitrary networks and proved for
//! good: the parameter round trip, the shape agreement of the gradient
//! vector, and what a per-pass reset does and does not change.

use vstd::prelude::*;

use crate::model::{
    layer_deltas, layer_params, layer_reset, layers_deltas, layers_params,
    lemma_layers_reset_params, lemma_layers_round_trip, net_deltas, net_params, net_reset,
    net_with_params, node_deltas, node_params, node_reset, NetworkView, NodeView,
};

verus! {

/// Round trip: writing any length-correct parameter vector into a network
/// and flattening the parameters back out returns that vector exactly.
pub proof fn lemma_weights_round_trip(m: NetworkView, w: Seq<u64>)
    requires
        w.len() == net_params(m).len(),
    ensures
        net_params(net_with_params(m, w)) == w,
{
    lemma_layers_round_trip(m.layers, w);
}

/// The flattened gradient vector always has exactly the shape of the
/// flattened parameter vector: one slot for each trainable parameter.
pub proof fn lemma_deltas_shape(m: NetworkView)
    ensures
        net_deltas(m).len() == net_params(m).len(),
{
    lemma_layers_deltas_shape(m.layers);
}

/// A reset never changes the flattened parameter vector: only transient
/// state is zeroed, weights and biases stay.
pub proof fn lemma_reset_preserves_params(m: NetworkView)
    ensures
        net_params(net_reset(m)) == net_params(m),
{
    lemma_layers_reset_params(m.layers);
}

/// After a reset, every gradient accumulator reads zero.
pub proof fn lemma_reset_zeroes_deltas(m: NetworkView)
    ensures
        net_deltas(net_reset(m)).len() == net_deltas(m).len(),
        forall|k: int| 0 <= k < net_deltas(net_reset(m)).len() ==> net_deltas(net_reset(m))[k]
            == 0,
{
    lemma_layers_reset_deltas(m.layers, net_reset(m).layers);
}

/// Resetting for a pass is idempotent: two consecutive resets leave the
/// network exactly as one does.
pub proof fn lemma_reset_idempotent(m: NetworkView)
    ensures
        net_reset(net_reset(m)) == net_reset(m),
{
    let r1 = net_reset(m);
    let r2 = net_reset(r1);
    assert forall|l: int| 0 <= l < m.layers.len() implies #[trigger] r2.layers[l]
        == r1.layers[l] by {
        assert(r1.layers[l] == layer_reset(m.layers[l]));
        assert(r2.layers[l] == layer_reset(r1.layers[l]));
        assert forall|i: int| 0 <= i < m.layers[l].len() implies #[trigger] layer_reset(
            r1.layers[l],
        )[i] == r1.layers[l][i] by {
            let n = m.layers[l][i];
            assert(r1.layers[l][i] == node_reset(n));
            assert(layer_reset(r1.layers[l])[i] == node_reset(node_reset(n)));
            lemma_node_reset_idempotent(n);
        }
        assert(layer_reset(r1.layers[l]) =~= r1.layers[l]);
    }
    assert(r2 =~~= r1);
}

/// The default initialization policy: a freshly constructed network
/// flattens to a parameter vector of zeros — every edge weight and every
/// hidden bias starts at zero.
pub proof fn lemma_new_network_weights_zero(
    input: usize,
    hidden: Seq<usize>,
    output: usize,
    loss: crate::tags::LossFunction,
)
    ensures
        forall|k: int|
            0 <= k < net_params(crate::model::spec_new_network(input, hidden, output, loss)).len()
                ==> #[trigger] net_params(
                crate::model::spec_new_network(input, hidden, output, loss),
            )[k] == 0,
{
    let m = crate::model::spec_new_network(input, hidden, output, loss);
    let sizes = crate::model::spec_layer_sizes(input, hidden, output);
    assert forall|l: int, q: int, k: int|
        0 <= l < m.layers.len() && 0 <= q < m.layers[l].len() && 0 <= k < node_params(
            m.layers[l][q],
        ).len() implies #[trigger] node_params(m.layers[l][q])[k] == 0 by {
        assert(m.layers[l] == crate::model::spec_new_layer(sizes, l));
        let n = m.layers[l][q];
        assert(n == crate::model::spec_new_node(l, q, sizes));
        if n.node_type == crate::tags::NodeType::Hidden {
            if k > 0 {
                assert(node_params(n)[k] == n.outgoing_edges[k - 1].weight);
            }
        } else {
            assert(node_params(n)[k] == n.outgoing_edges[k].weight);
        }
    }
    lemma_layers_params_pointwise_zero(m.layers);
}

/// If every node of every layer has an all-zero parameter slice, the whole
/// flattened vector is zero.
proof fn lemma_layers_params_pointwise_zero(ls: Seq<Seq<NodeView>>)
    requires
        forall|l: int, q: int, k: int|
            0 <= l < ls.len() && 0 <= q < ls[l].len() && 0 <= k < node_params(ls[l][q]).len()
                ==> #[trigger] node_params(ls[l][q])[k] == 0,
    ensures
        forall|k: int| 0 <= k < layers_params(ls).len() ==> #[trigger] layers_params(ls)[k] == 0,
    decreases ls.len(),
{
    if ls.len() == 0 {
    } else {
        lemma_layer_params_pointwise_zero(ls[0]);
        assert forall|l: int, q: int, k: int|
            0 <= l < ls.drop_first().len() && 0 <= q < ls.drop_first()[l].len() && 0 <= k
                < node_params(ls.drop_first()[l][q]).len() implies #[trigger] node_params(
            ls.drop_first()[l][q],
        )[k] == 0 by {
            assert(ls.drop_first()[l] == ls[l + 1]);
        }
        lemma_layers_params_pointwise_zero(ls.drop_first());
        let head = layer_params(ls[0]);
        let tail = layers_params(ls.drop_first());
        assert forall|k: int| 0 <= k < layers_params(ls).len() implies #[trigger] layers_params(
            ls,
        )[k] == 0 by {
            assert(layers_params(ls) == head + tail);
            if k < head.len() {
                assert((head + tail)[k] == head[k]);
            } else {
                assert((head + tail)[k] == tail[k - head.len()]);
            }
        }
    }
}

/// If every node of one layer has an all-zero parameter slice, the layer's
/// flattened slice is zero.
proof fn lemma_layer_params_pointwise_zero(lay: Seq<NodeView>)
    requires
        forall|q: int, k: int|
            0 <= q < lay.len() && 0 <= k < node_params(lay[q]).len() ==> #[trigger] node_params(
                lay[q],
            )[k] == 0,
    ensures
        forall|k: int| 0 <= k < layer_params(lay).len() ==> #[trigger] layer_params(lay)[k] == 0,
    decreases lay.len(),
{
    if lay.len() == 0 {
    } else {
        assert forall|q: int, k: int|
            0 <= q < lay.drop_first().len() && 0 <= k < node_params(lay.drop_first()[q]).len()
                implies #[trigger] node_params(lay.drop_first()[q])[k] == 0 by {
            assert(lay.drop_first()[q] == lay[q + 1]);
        }
        lemma_layer_params_pointwise_zero(lay.drop_first());
        let head = node_params(lay[0]);
        let tail = layer_params(lay.drop_first());
        assert forall|k: int| 0 <= k < layer_params(lay).len() implies #[trigger] layer_params(
            lay,
        )[k] == 0 by {
            assert(layer_params(lay) == head + tail);
            if k < head.len() {
                assert((head + tail)[k] == head[k]);
                assert(node_params(lay[0])[k] == 0);
            } else {
                assert((head + tail)[k] == tail[k - head.len()]);
            }
        }
    }
}

/// Resetting one node twice is the same as resetting it once.
proof fn lemma_node_reset_idempotent(n: NodeView)
    ensures
        node_reset(node_reset(n)) == node_reset(n),
{
    assert(node_reset(node_reset(n)).outgoing_edges =~= node_reset(n).outgoing_edges);
    assert(node_reset(node_reset(n)) =~~= node_reset(n));
}

/// One node's gradient slice has the shape of its parameter slice.
proof fn lemma_node_deltas_shape(n: NodeView)
    ensures
        node_deltas(n).len() == node_params(n).len(),
{
}

/// One layer's gradient slice has the shape of its parameter slice.
proof fn lemma_layer_deltas_shape(lay: Seq<NodeView>)
    ensures
        layer_deltas(lay).len() == layer_params(lay).len(),
    decreases lay.len(),
{
    if lay.len() == 0 {
    } else {
        lemma_node_deltas_shape(lay[0]);
        lemma_layer_deltas_shape(lay.drop_first());
    }
}

/// The whole gradient vector has the shape of the parameter vector.
proof fn lemma_layers_deltas_shape(ls: Seq<Seq<NodeView>>)
    ensures
        layers_deltas(ls).len() == layers_params(ls).len(),
    decreases ls.len(),
{
    if ls.len() == 0 {
    } else {
        lemma_layer_deltas_shape(ls[0]);
        lemma_layers_deltas_shape(ls.drop_first());
    }
}

/// A reset zeroes one node's whole gradient slice.
proof fn lemma_node_reset_deltas(n: NodeView)
    ensures
        node_deltas(node_reset(n)).len() == node_deltas(n).len(),
        forall|k: int| 0 <= k < node_deltas(node_reset(n)).len() ==> node_deltas(node_reset(n))[k]
            == 0,
{
    let d = node_deltas(node_reset(n));
    assert forall|k: int| 0 <= k < d.len() implies d[k] == 0 by {
        let r = node_reset(n);
        if r.node_type == crate::tags::NodeType::Hidden {
            if k > 0 {
                assert(d[k] == r.outgoing_edges[k - 1].weight_delta);
            }
        } else {
            assert(d[k] == r.outgoing_edges[k].weight_delta);
        }
    }
}

/// A reset zeroes one layer's whole gradient slice.
proof fn lemma_layer_reset_deltas(lay: Seq<NodeView>)
    ensures
        layer_deltas(layer_reset(lay)).len() == layer_deltas(lay).len(),
        forall|k: int| 0 <= k < layer_deltas(layer_reset(lay)).len() ==> layer_deltas(
            layer_reset(lay),
        )[k] == 0,
    decreases lay.len(),
{
    if lay.len() == 0 {
    } else {
        assert(layer_reset(lay)[0] == node_reset(lay[0]));
        assert(layer_reset(lay).drop_first() =~= layer_reset(lay.drop_first()));
        lemma_node_reset_deltas(lay[0]);
        lemma_layer_reset_deltas(lay.drop_first());
    }
}

/// A reset zeroes the network's whole gradient vector.
proof fn lemma_layers_reset_deltas(ls: Seq<Seq<NodeView>>, rs: Seq<Seq<NodeView>>)
    requires
        rs == ls.map_values(|lay: Seq<NodeView>| layer_reset(lay)),
    ensures
        layers_deltas(rs).len() == layers_deltas(ls).len(),
        forall|k: int| 0 <= k < layers_deltas(rs).len() ==> #[trigger] layers_deltas(rs)[k] == 0,
    decreases ls.len(),
{
    if ls.len() == 0 {
    } else {
        assert(rs[0] == layer_reset(ls[0]));
        assert(rs.drop_first() =~= ls.drop_first().map_values(
            |lay: Seq<NodeView>| layer_reset(lay),
        ));
        lemma_layer_reset_deltas(ls[0]);
        lemma_layers_reset_deltas(ls.drop_first(), rs.drop_first());
    }
}

} // verus!
