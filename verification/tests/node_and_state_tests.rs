use ffnet::node::Node;
use ffnet::state::{next_pass_state, PassEvent, PassState};
use ffnet::tags::{ActivationType, NetworkError, NodeType};

#[test]
fn duplicate_outgoing_edge_is_rejected_and_count_stays_one() {
    let mut node = Node::new(0, 0, NodeType::Input, ActivationType::Linear);
    assert_eq!(node.add_edge_outgoing((1, 0)), Ok(()));
    assert_eq!(node.num_outgoing_edges(), 1);
    assert_eq!(
        node.add_edge_outgoing((1, 0)),
        Err(NetworkError::DuplicateConnection)
    );
    assert_eq!(node.num_outgoing_edges(), 1);
    // A different destination is still accepted afterwards.
    assert_eq!(node.add_edge_outgoing((1, 1)), Ok(()));
    assert_eq!(node.num_outgoing_edges(), 2);
}

#[test]
fn duplicate_incoming_handle_is_rejected() {
    let mut node = Node::new(1, 0, NodeType::Output, ActivationType::Sigmoid);
    assert_eq!(node.add_edge_incoming((0, 0)), Ok(()));
    assert_eq!(
        node.add_edge_incoming((0, 0)),
        Err(NetworkError::DuplicateConnection)
    );
    assert_eq!(node.add_edge_incoming((0, 1)), Ok(()));
}

#[test]
fn hidden_node_flattens_bias_then_edge_weights() {
    let mut node = Node::new(1, 0, NodeType::Hidden, ActivationType::Tanh);
    node.add_edge_outgoing((2, 0)).unwrap();
    node.add_edge_outgoing((2, 1)).unwrap();
    let mut source: Vec<u64> = vec![10, 20, 30];
    assert_eq!(node.set_weights(0, &mut source), 3);
    let mut flattened: Vec<u64> = Vec::new();
    assert_eq!(node.get_weights(&mut flattened), 3);
    assert_eq!(flattened, vec![10, 20, 30]);
}

#[test]
fn input_node_flattens_edge_weights_only() {
    let mut node = Node::new(0, 0, NodeType::Input, ActivationType::Linear);
    node.add_edge_outgoing((1, 0)).unwrap();
    node.add_edge_outgoing((1, 1)).unwrap();
    let mut source: Vec<u64> = vec![7, 8];
    assert_eq!(node.set_weights(0, &mut source), 2);
    let mut flattened: Vec<u64> = Vec::new();
    assert_eq!(node.get_weights(&mut flattened), 2);
    assert_eq!(flattened, vec![7, 8]);
}

#[test]
fn node_set_weights_reads_from_the_given_position() {
    let mut node = Node::new(1, 0, NodeType::Hidden, ActivationType::Tanh);
    node.add_edge_outgoing((2, 0)).unwrap();
    let mut source: Vec<u64> = vec![99, 1, 2, 99];
    assert_eq!(node.set_weights(1, &mut source), 2);
    let mut flattened: Vec<u64> = Vec::new();
    node.get_weights(&mut flattened);
    assert_eq!(flattened, vec![1, 2]);
}

#[test]
fn node_reset_zeroes_gradients_and_keeps_weights() {
    let mut node = Node::new(1, 0, NodeType::Hidden, ActivationType::Tanh);
    node.add_edge_outgoing((2, 0)).unwrap();
    let mut source: Vec<u64> = vec![5, 6];
    node.set_weights(0, &mut source);
    node.reset();
    let mut weights: Vec<u64> = Vec::new();
    node.get_weights(&mut weights);
    assert_eq!(weights, vec![5, 6]);
    let mut deltas: Vec<u64> = Vec::new();
    assert_eq!(node.get_deltas(&mut deltas), 2);
    assert_eq!(deltas, vec![0, 0]);
}

#[test]
fn forward_is_legal_from_every_state() {
    assert_eq!(
        next_pass_state(PassState::Uninitialized, PassEvent::Forward),
        Ok(PassState::Forwarded)
    );
    assert_eq!(
        next_pass_state(PassState::Forwarded, PassEvent::Forward),
        Ok(PassState::Forwarded)
    );
    assert_eq!(
        next_pass_state(PassState::Backpropagated, PassEvent::Forward),
        Ok(PassState::Forwarded)
    );
}

#[test]
fn backward_requires_a_prior_forward_pass() {
    assert_eq!(
        next_pass_state(PassState::Forwarded, PassEvent::Backward),
        Ok(PassState::Backpropagated)
    );
    assert_eq!(
        next_pass_state(PassState::Uninitialized, PassEvent::Backward),
        Err(NetworkError::State)
    );
    assert_eq!(
        next_pass_state(PassState::Backpropagated, PassEvent::Backward),
        Err(NetworkError::State)
    );
}

#[test]
fn reset_returns_to_the_initial_state() {
    assert_eq!(
        next_pass_state(PassState::Forwarded, PassEvent::Reset),
        Ok(PassState::Uninitialized)
    );
    assert_eq!(
        next_pass_state(PassState::Backpropagated, PassEvent::Reset),
        Ok(PassState::Uninitialized)
    );
    assert_eq!(
        next_pass_state(PassState::Uninitialized, PassEvent::Reset),
        Ok(PassState::Uninitialized)
    );
}
