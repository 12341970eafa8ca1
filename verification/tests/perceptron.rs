// Tests for the fixed-point perceptron library. All scalars are in
// millionths: 1_000_000 units stand for the real value one.

use perceptron::fixed::SCALE;
use perceptron::netmath::{ident, mse, sigmoid, Activation};
use perceptron::neuralnet::{compute_cost, compute_gradient, train, Net, ParamType};
use perceptron::neuron::Neuron;

fn units(x: i64) -> i64 {
    x * SCALE
}

fn neuron_with(weights: Vec<i64>, bias: i64, act: Activation) -> Neuron {
    let n = weights.len() as u32;
    let mut neuron = Neuron::new(act, n, Vec::new());
    neuron.weights = weights;
    neuron.bias = bias;
    neuron
}

#[test]
fn identity_returns_input_exactly() {
    assert_eq!(ident(0), 0);
    assert_eq!(ident(units(5)), units(5));
    assert_eq!(ident(-units(7) + 3), -units(7) + 3);
    assert_eq!(ident(i64::MAX), i64::MAX);
}

#[test]
fn sigmoid_is_one_half_at_zero() {
    assert_eq!(sigmoid(0), SCALE / 2);
}

#[test]
fn sigmoid_stays_inside_open_unit_interval() {
    for &x in &[
        i64::MIN,
        -units(1000),
        -units(9),
        -units(8),
        -units(1),
        -1,
        0,
        1,
        units(1),
        units(8),
        units(9),
        units(1000),
        i64::MAX,
    ] {
        let r = sigmoid(x);
        assert!(0 < r && r < SCALE, "sigmoid({}) = {}", x, r);
    }
}

#[test]
fn sigmoid_never_decreases() {
    let inputs = [
        i64::MIN,
        -units(20),
        -units(8),
        -units(3) - 123_456,
        -units(1),
        -250_000,
        0,
        250_000,
        units(1),
        units(3) + 123_456,
        units(8),
        units(20),
        i64::MAX,
    ];
    let mut prev = 0i64;
    for (k, &x) in inputs.iter().enumerate() {
        let r = sigmoid(x);
        if k > 0 {
            assert!(r >= prev, "sigmoid decreased at {}", x);
        }
        prev = r;
    }
}

#[test]
fn sigmoid_strictly_increases_between_half_unit_grid_points() {
    let mut prev = sigmoid(-units(8));
    let mut x = -units(8);
    while x < units(8) {
        x += SCALE / 2;
        let r = sigmoid(x);
        assert!(r > prev, "sigmoid not strict at {}", x);
        prev = r;
    }
}

#[test]
fn sigmoid_matches_logistic_at_sample_points() {
    // Table values of the logistic function, in millionths.
    assert_eq!(sigmoid(units(1)), 731_059);
    assert_eq!(sigmoid(-units(1)), 268_941);
    assert_eq!(sigmoid(units(8)), 999_665);
    assert_eq!(sigmoid(-units(8)), 335);
    // Interpolated halfway between the knots at 0 and 1/2:
    // 500000 + 250000 * (622459 - 500000) / 500000, truncated.
    assert_eq!(sigmoid(250_000), 561_229);
}

#[test]
fn mse_is_zero_when_predictions_equal_expectations() {
    let e = vec![units(5), -units(3), 123_456, 0];
    assert_eq!(mse(&e, &e, 4), 0);
    let single = vec![-987_654_321];
    assert_eq!(mse(&single, &single, 1), 0);
}

#[test]
fn mse_is_symmetric_in_its_arguments() {
    let a = vec![units(1), -units(4), 777_777, 0, units(12)];
    let b = vec![-units(2), units(3), -123_456, 42, units(11)];
    assert_eq!(mse(&a, &b, 5), mse(&b, &a, 5));
}

#[test]
fn mse_computes_the_mean_squared_error_exactly() {
    // Differences of 1.0 and 2.0: squares 1.0 and 4.0, mean 2.5.
    let expected = vec![0, 0];
    let predicted = vec![units(1), units(2)];
    assert_eq!(mse(&expected, &predicted, 2), 2_500_000);
    // A single difference of 3.0: squared, 9.0.
    let e1 = vec![0];
    let p1 = vec![units(3)];
    assert_eq!(mse(&e1, &p1, 1), units(9));
}

#[test]
fn forward_computation_is_the_weighted_sum_plus_bias() {
    // weights [3, 2], bias 5, identity: input [2, 15] gives 41.
    let neuron = neuron_with(vec![units(3), units(2)], units(5), Activation::Identity);
    let x = vec![units(2), units(15)];
    assert_eq!(neuron.compute_out(&x), units(41));
    let x2 = vec![units(8), units(3)];
    assert_eq!(neuron.compute_out(&x2), units(35));
}

#[test]
fn cost_is_zero_when_the_neuron_fits_the_samples_exactly() {
    let neuron = neuron_with(vec![units(3), units(2)], units(5), Activation::Identity);
    let x = vec![
        vec![0, 0],
        vec![units(2), units(15)],
        vec![units(8), units(3)],
        vec![units(14), units(18)],
        vec![units(20), units(1)],
    ];
    let y = vec![units(5), units(41), units(35), units(83), units(67)];
    assert_eq!(compute_cost(&neuron, &x, &y, 5), 0);
}

#[test]
fn forward_computation_is_idempotent() {
    let neuron = neuron_with(vec![123_456, -654_321], 42_000, Activation::Sigmoid);
    let x = vec![units(2), units(3)];
    let first = neuron.compute_out(&x);
    let second = neuron.compute_out(&x);
    assert_eq!(first, second);
}

#[test]
fn random_initialization_stays_inside_open_unit_interval() {
    for _ in 0..50 {
        let neuron = Neuron::new(Activation::Identity, 8, Vec::new());
        assert_eq!(neuron.weights.len(), 8);
        for &w in &neuron.weights {
            assert!(-SCALE < w && w < SCALE);
        }
        assert!(-SCALE < neuron.bias && neuron.bias < SCALE);
    }
}

#[test]
fn gradient_estimator_restores_every_parameter_exactly() {
    let mut neuron = neuron_with(vec![250_000, -750_000, 500_001], 333_333, Activation::Sigmoid);
    let x = vec![vec![units(1), units(2), units(3)], vec![units(4), units(5), units(6)]];
    let y = vec![units(1), 0];
    let weights_before = neuron.weights.clone();
    let bias_before = neuron.bias;
    for param in [
        ParamType::Weight(0),
        ParamType::Weight(1),
        ParamType::Weight(2),
        ParamType::Bias,
    ] {
        compute_gradient(&mut neuron, &x, &y, param, 2);
        assert_eq!(neuron.weights, weights_before);
        assert_eq!(neuron.bias, bias_before);
    }
}

#[test]
fn gradient_estimate_matches_analytic_sign_and_value() {
    // Single sample, single connection, identity activation, zero
    // parameters: prediction 0, expectation 2, input 1. The analytic
    // gradient for the weight is 2 * (pred - expected) * input = -4;
    // the cost is exactly quadratic, so the forward difference hits it
    // to within the quantization of the step.
    let mut neuron = neuron_with(vec![0], 0, Activation::Identity);
    let x = vec![vec![units(1)]];
    let y = vec![units(2)];
    let g = compute_gradient(&mut neuron, &x, &y, ParamType::Weight(0), 1);
    assert_eq!(g, -units(4));
    assert!(g < 0);
}

#[test]
fn one_training_step_applies_the_learning_rate() {
    // Same setup as the gradient test: both gradients are exactly -4,
    // so each parameter moves by 0.001 * 4 = 0.004.
    let mut neuron = neuron_with(vec![0], 0, Activation::Identity);
    let x = vec![vec![units(1)]];
    let y = vec![units(2)];
    train(&mut neuron, &x, &y, 1);
    assert_eq!(neuron.weights[0], 4_000);
    assert_eq!(neuron.bias, 4_000);
}

#[test]
fn training_learns_a_linear_function() {
    // y = 3*x1 + 2*x2 + 5, five exact samples, identity activation.
    let x = vec![
        vec![0, 0],
        vec![units(2), units(15)],
        vec![units(8), units(3)],
        vec![units(14), units(18)],
        vec![units(20), units(1)],
    ];
    let y = vec![units(5), units(41), units(35), units(83), units(67)];
    let mut neuron = neuron_with(vec![0, 0], 0, Activation::Identity);
    for _ in 0..50_000 {
        train(&mut neuron, &x, &y, 5);
    }
    let cost = compute_cost(&neuron, &x, &y, 5);
    assert!(cost < 10_000, "cost {} not below 0.01", cost);
    assert!((neuron.weights[0] - units(3)).abs() < SCALE / 2, "w1 = {}", neuron.weights[0]);
    assert!((neuron.weights[1] - units(2)).abs() < SCALE / 2, "w2 = {}", neuron.weights[1]);
    assert!((neuron.bias - units(5)).abs() < SCALE / 2, "bias = {}", neuron.bias);
}

#[test]
fn training_learns_a_linearly_separable_classification() {
    // Six labeled samples, classified by whether the first coordinate
    // exceeds the second; sigmoid activation, labels 0 and 1.
    let x = vec![
        vec![units(6), units(1)],
        vec![units(5), units(2)],
        vec![units(7), units(3)],
        vec![units(1), units(4)],
        vec![units(2), units(5)],
        vec![units(1), units(6)],
    ];
    let y = vec![units(1), units(1), units(1), 0, 0, 0];
    let mut neuron = neuron_with(vec![0, 0], 0, Activation::Sigmoid);
    for _ in 0..50_000 {
        train(&mut neuron, &x, &y, 6);
    }
    for (sample, &label) in x.iter().zip(y.iter()) {
        let prediction = neuron.compute_out(sample);
        assert!(
            (prediction - label).abs() < 300_000,
            "prediction {} too far from label {}",
            prediction,
            label
        );
        // Thresholding at one half reproduces the labels.
        assert_eq!(prediction > SCALE / 2, label > SCALE / 2);
    }
}

#[test]
fn network_construction_wires_layers_together() {
    let net = Net::new(vec![2, 3, 1], Activation::Sigmoid, Activation::Identity);
    assert_eq!(net.n_out, 1);
    assert_eq!(net.out_neurons.len(), 1);
    let out = &net.out_neurons[0];
    assert_eq!(out.n_connections, 3);
    assert_eq!(out.weights.len(), 3);
    assert_eq!(out.act_func, Activation::Identity);
    assert_eq!(out.con_neurons.len(), 3);
    for hidden in &out.con_neurons {
        assert_eq!(hidden.n_connections, 2);
        assert_eq!(hidden.weights.len(), 2);
        assert_eq!(hidden.act_func, Activation::Sigmoid);
        assert_eq!(hidden.con_neurons.len(), 0);
        for &w in &hidden.weights {
            assert!(-SCALE < w && w < SCALE);
        }
    }
}

#[test]
fn network_forward_computation_reaches_every_layer() {
    let net = Net::new(vec![2, 2, 1], Activation::Identity, Activation::Identity);
    let mut out = net.out_neurons.into_iter().next().unwrap();
    // Fix all parameters so the network output is exact: each hidden
    // neuron computes x1 + x2, and the output neuron sums both hidden
    // outputs, so the network computes 2 * (x1 + x2) + 1.
    for hidden in out.con_neurons.iter_mut() {
        hidden.weights = vec![units(1), units(1)];
        hidden.bias = 0;
    }
    out.weights = vec![units(1), units(1)];
    out.bias = units(1);
    let x = vec![units(3), units(4)];
    assert_eq!(out.compute_out(&x), units(15));
}
