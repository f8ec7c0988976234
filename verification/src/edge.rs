//! A single directed weighted connection between two nodes.

use vstd::prelude::*;

use crate::model::{initial_edge, EdgeView};

verus! {

/// One directed weighted connection. The endpoints are stable (layer, number)
/// handles into the network's node arena; the edge itself is owned by its
/// source node, so values of this type never escape a network mutably.
#[derive(Clone, Copy, Debug)]
pub struct Edge {
    pub weight: u64,
    pub weight_delta: u64,
    pub node_from: (usize, usize),
    pub node_to: (usize, usize),
}

impl View for Edge {
    type V = EdgeView;

    open spec fn view(&self) -> EdgeView {
        EdgeView {
            weight: self.weight,
            weight_delta: self.weight_delta,
            node_from: self.node_from,
            node_to: self.node_to,
        }
    }
}

impl Edge {
    /// A new edge between the two given node locations, with zero weight
    /// (the default initialization policy) and a zero gradient accumulator.
    pub fn new(node_from_ref: (usize, usize), node_to_ref: (usize, usize)) -> (e: Edge)
        ensures
            e@ == initial_edge(node_from_ref, node_to_ref),
    {
        Edge { weight: 0, weight_delta: 0, node_from: node_from_ref, node_to: node_to_ref }
    }
}

} // verus!
