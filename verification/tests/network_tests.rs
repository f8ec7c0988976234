use ffnet::network::{test_get_weights_nn, test_set_weights, NeuralNetwork};
use ffnet::tags::{LossFunction, NetworkError};

fn build(
    input: usize,
    hidden: Vec<usize>,
    output: usize,
    loss: LossFunction,
) -> Result<NeuralNetwork, NetworkError> {
    NeuralNetwork::new(input, hidden, output, loss)
}

#[test]
fn parameter_count_68() {
    let nn = build(3, vec![4, 2, 7], 3, LossFunction::L2).unwrap();
    // 3*4 + 4*2 + 2*7 + 7*3 = 55 edge weights, plus 4 + 2 + 7 = 13 hidden biases.
    assert_eq!(nn.get_number_weights(), 68);
    assert_eq!(nn.get_weights().len(), 68);
}

#[test]
fn parameter_count_18() {
    let nn = build(3, vec![2, 2], 2, LossFunction::L1).unwrap();
    // 3*2 + 2*2 + 2*2 = 14 edge weights, plus 2 + 2 = 4 hidden biases.
    assert_eq!(nn.get_number_weights(), 18);
    assert_eq!(nn.get_weights().len(), 18);
}

#[test]
fn minimal_network_has_one_weight() {
    let nn = build(1, vec![], 1, LossFunction::L2).unwrap();
    assert_eq!(nn.get_number_weights(), 1);
    assert_eq!(nn.get_weights().len(), 1);
    assert_eq!(nn.get_number_inputs(), 1);
}

#[test]
fn fresh_network_weights_are_zero() {
    let nn = build(2, vec![3], 2, LossFunction::L2).unwrap();
    let weights = nn.get_weights();
    assert_eq!(weights.len(), 2 * 3 + 3 + 3 * 2);
    for w in weights {
        assert_eq!(f64::from_bits(w), 0.0);
    }
}

#[test]
fn round_trip_distinct_values() {
    let mut nn = build(2, vec![3], 2, LossFunction::L2).unwrap();
    let n = nn.get_number_weights();
    let mut w: Vec<u64> = Vec::new();
    for k in 0..n {
        w.push((0.5 + k as f64).to_bits());
    }
    let mut arg = w.clone();
    nn.set_weights(&mut arg).unwrap();
    assert_eq!(arg, w);
    assert_eq!(nn.get_weights(), w);
}

#[test]
fn end_to_end_68_times_1_5() {
    let mut nn = build(3, vec![4, 2, 7], 3, LossFunction::L1).unwrap();
    let mut w: Vec<u64> = vec![1.5f64.to_bits(); 68];
    nn.set_weights(&mut w).unwrap();
    let got = nn.get_weights();
    assert_eq!(got.len(), 68);
    for v in got {
        assert_eq!(f64::from_bits(v), 1.5);
    }
}

#[test]
fn set_weights_wrong_length_is_dimension_error() {
    let mut nn = build(3, vec![4, 2, 7], 3, LossFunction::L1).unwrap();
    let mut short: Vec<u64> = vec![1.5f64.to_bits(); 67];
    assert_eq!(nn.set_weights(&mut short), Err(NetworkError::Dimension));
    let mut long: Vec<u64> = vec![1.5f64.to_bits(); 69];
    assert_eq!(nn.set_weights(&mut long), Err(NetworkError::Dimension));
    // Nothing was applied: every weight still reads zero.
    for v in nn.get_weights() {
        assert_eq!(f64::from_bits(v), 0.0);
    }
}

#[test]
fn zero_layer_sizes_are_configuration_errors() {
    assert!(matches!(
        build(0, vec![2], 1, LossFunction::L2),
        Err(NetworkError::Configuration)
    ));
    assert!(matches!(
        build(2, vec![2], 0, LossFunction::L2),
        Err(NetworkError::Configuration)
    ));
    assert!(matches!(
        build(2, vec![2, 0, 2], 1, LossFunction::L1),
        Err(NetworkError::Configuration)
    ));
}

#[test]
fn deltas_have_the_shape_of_the_weights() {
    let nn = build(3, vec![4, 2, 7], 3, LossFunction::L2).unwrap();
    assert_eq!(nn.get_deltas().len(), nn.get_weights().len());
    assert_eq!(nn.get_deltas().len(), 68);
}

#[test]
fn reset_is_idempotent() {
    let mut once = build(3, vec![2, 2], 2, LossFunction::L1).unwrap();
    let mut twice = build(3, vec![2, 2], 2, LossFunction::L1).unwrap();
    let mut w: Vec<u64> = Vec::new();
    for k in 0..18usize {
        w.push((k as f64 - 4.25).to_bits());
    }
    let mut arg = w.clone();
    once.set_weights(&mut arg).unwrap();
    let mut arg = w.clone();
    twice.set_weights(&mut arg).unwrap();
    once.reset_for_pass();
    twice.reset_for_pass();
    twice.reset_for_pass();
    assert_eq!(once.get_weights(), twice.get_weights());
    assert_eq!(once.get_deltas(), twice.get_deltas());
}

#[test]
fn reset_keeps_weights_and_zeroes_deltas() {
    let mut nn = build(2, vec![3], 1, LossFunction::L2).unwrap();
    let n = nn.get_number_weights();
    let mut w: Vec<u64> = Vec::new();
    for k in 0..n {
        w.push((1.0 + k as f64 / 8.0).to_bits());
    }
    let mut arg = w.clone();
    nn.set_weights(&mut arg).unwrap();
    nn.reset_for_pass();
    assert_eq!(nn.get_weights(), w);
    for d in nn.get_deltas() {
        assert_eq!(f64::from_bits(d), 0.0);
    }
}

#[test]
fn node_ref_reports_dense_connectivity() {
    let nn = build(2, vec![3], 2, LossFunction::L2).unwrap();
    // Every node of a layer owns one edge per node of the next layer.
    assert_eq!(nn.get_node_ref((0, 0)).num_outgoing_edges(), 3);
    assert_eq!(nn.get_node_ref((0, 1)).num_outgoing_edges(), 3);
    assert_eq!(nn.get_node_ref((1, 2)).num_outgoing_edges(), 2);
    assert_eq!(nn.get_node_ref((2, 1)).num_outgoing_edges(), 0);
}

#[test]
fn mut_node_ref_writes_land_in_the_right_slice() {
    let mut nn = build(2, vec![3], 2, LossFunction::L2).unwrap();
    // Layer 0 contributes 2*3 = 6 edge weights; the slice of hidden node
    // (1, 0) follows: its bias, then its two edge weights.
    {
        let node = nn.get_mut_node_ref((1, 0));
        let mut source: Vec<u64> = vec![9, 8, 7];
        assert_eq!(node.set_weights(0, &mut source), 3);
    }
    let weights = nn.get_weights();
    assert_eq!(&weights[0..6], &[0, 0, 0, 0, 0, 0]);
    assert_eq!(&weights[6..9], &[9, 8, 7]);
    assert_eq!(&weights[9..], &[0, 0, 0, 0, 0, 0]);
}

#[test]
fn self_checks_pass() {
    assert!(test_set_weights());
    assert!(test_get_weights_nn());
}
