//! Closed tag enumerations: node kinds, activation policies, loss functions,
//! and the error taxonomy.

use vstd::prelude::*;

verus! {

/// The activation policy of a node. Input nodes are linear (identity); hidden
/// nodes default to the hyperbolic tangent; output nodes default to the
/// logistic sigmoid, with softmax available as a layer-wide output policy.
#[derive(Clone, Copy, PartialEq, Eq, Structural, Debug)]
pub enum ActivationType {
    Sigmoid,
    Tanh,
    Softmax,
    Linear,
}

/// The kind of a node, determined by the layer it stands in: layer 0 holds
/// input nodes, the last layer output nodes, every layer between them hidden
/// nodes.
#[derive(Clone, Copy, PartialEq, Eq, Structural, Debug)]
pub enum NodeType {
    Input,
    Output,
    Hidden,
}

/// The loss function a network is configured with.
#[derive(Clone, Copy, PartialEq, Eq, Structural, Debug)]
pub enum LossFunction {
    L1,
    L2,
}

/// The error taxonomy. Every failure is fail-fast: the graph is left unchanged
/// whenever a call returns an error.
#[derive(Clone, Copy, PartialEq, Eq, Structural, Debug)]
pub enum NetworkError {
    /// A declared layer size was zero.
    Configuration,
    /// An input, target or parameter vector had the wrong length.
    Dimension,
    /// A second edge for the same ordered (source, destination) pair.
    DuplicateConnection,
    /// A pass step was taken out of order, such as backward propagation
    /// without a prior forward pass.
    State,
}

} // verus!
