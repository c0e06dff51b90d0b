use std::cell::RefCell;

use neural_network::network::{Activation, Arithmetic, Network, NetworkError};
use rand::rngs::StdRng;
use rand::{Rng, SeedableRng};

type Op = fn(f64, f64) -> f64;
type Unary = fn(f64) -> f64;

fn arith() -> Arithmetic<f64, Op, Op, Op> {
    Arithmetic {
        zero: 0.0,
        plus: |a, b| a + b,
        minus: |a, b| a - b,
        times: |a, b| a * b,
    }
}

fn identity() -> Activation<Unary, Unary> {
    Activation {
        function: |x| x,
        derivative: |_| 1.0,
    }
}

fn sigmoid() -> Activation<Unary, Unary> {
    Activation {
        function: |x| 1.0 / (1.0 + std::f64::consts::E.powf(-x)),
        derivative: |y| y * (1.0 - y),
    }
}

fn seeded_network(layers: Vec<usize>, rate: f64, seed: u64) -> Network<f64> {
    let rng = RefCell::new(StdRng::seed_from_u64(seed));
    let draw = || rng.borrow_mut().gen::<f64>() * 2.0 - 1.0;
    Network::new(layers, rate, &draw).unwrap()
}

fn fixed_network(layers: Vec<usize>, rate: f64, w: Vec<Vec<Vec<f64>>>, b: Vec<Vec<Vec<f64>>>) -> Network<f64> {
    let mut net = Network::new(layers, rate, &|| 0.0).unwrap();
    net.set_parameters(w, b).unwrap();
    net
}

#[test]
fn single_layer_is_refused() {
    assert_eq!(
        Network::new(vec![3], 0.5, &|| 0.0).err(),
        Some(NetworkError::TooFewLayers)
    );
    assert_eq!(
        Network::new(vec![], 0.5, &|| 0.0).err(),
        Some(NetworkError::TooFewLayers)
    );
}

#[test]
fn empty_layer_is_refused() {
    assert_eq!(
        Network::new(vec![2, 0, 1], 0.5, &|| 0.0).err(),
        Some(NetworkError::EmptyLayer)
    );
}

#[test]
fn new_draws_shapes_from_layers() {
    let net = seeded_network(vec![2, 3, 1], 0.5, 1);
    assert_eq!(net.layers(), &vec![2, 3, 1]);
    assert_eq!(net.learning_rate(), 0.5);
    let (w, b) = net.parameters();
    assert_eq!(w.len(), 2);
    assert_eq!(b.len(), 2);
    assert_eq!((w[0].len(), w[0][0].len()), (3, 2));
    assert_eq!((w[1].len(), w[1][0].len()), (1, 3));
    assert_eq!((b[0].len(), b[0][0].len()), (3, 1));
    assert_eq!((b[1].len(), b[1][0].len()), (1, 1));
    for x in w.iter().chain(b.iter()).flatten().flatten() {
        assert!(*x >= -1.0 && *x < 1.0);
    }
}

#[test]
fn feed_forward_gives_one_output_for_any_initialisation() {
    for seed in 0..20u64 {
        let mut net = seeded_network(vec![2, 3, 1], 0.5, seed);
        let out = net.feed_forward(vec![0.3, -0.7], &arith(), &sigmoid()).unwrap();
        assert_eq!(out.len(), 1);
    }
}

#[test]
fn feed_forward_computes_layers() {
    let mut net = fixed_network(
        vec![2, 2, 1],
        0.5,
        vec![vec![vec![1.0, 2.0], vec![-1.0, 0.5]], vec![vec![3.0, -2.0]]],
        vec![vec![vec![0.5], vec![1.0]], vec![vec![-1.0]]],
    );
    // hidden = [1*1 + 2*2 + 0.5, -1*1 + 0.5*2 + 1] = [5.5, 1]; out = 3*5.5 - 2*1 - 1
    let out = net.feed_forward(vec![1.0, 2.0], &arith(), &identity()).unwrap();
    assert_eq!(out, vec![13.5]);
}

#[test]
fn feed_forward_rejects_wrong_input_length() {
    let mut net = seeded_network(vec![2, 3, 1], 0.5, 3);
    let before = net.parameters();
    assert_eq!(
        net.feed_forward(vec![1.0], &arith(), &sigmoid()).err(),
        Some(NetworkError::InvalidInputLength)
    );
    assert_eq!(net.parameters(), before);
}

#[test]
fn back_propagate_single_transition() {
    let mut net = fixed_network(vec![1, 1], 0.5, vec![vec![vec![2.0]]], vec![vec![vec![1.0]]]);
    let out = net.feed_forward(vec![3.0], &arith(), &identity()).unwrap();
    assert_eq!(out, vec![7.0]);
    net.back_propagate(out, vec![10.0], &arith(), &identity()).unwrap();
    // error 3, gradient 1 * 3 * 0.5 = 1.5; weight 2 + 1.5 * 3, bias 1 + 1.5
    assert_eq!(net.parameters(), (vec![vec![vec![6.5]]], vec![vec![vec![2.5]]]));
}

#[test]
fn back_propagate_sends_error_through_old_weights() {
    let mut net = fixed_network(
        vec![1, 1, 1],
        1.0,
        vec![vec![vec![1.0]], vec![vec![2.0]]],
        vec![vec![vec![0.0]], vec![vec![0.0]]],
    );
    let out = net.feed_forward(vec![1.0], &arith(), &identity()).unwrap();
    assert_eq!(out, vec![2.0]);
    net.back_propagate(out, vec![3.0], &arith(), &identity()).unwrap();
    // top: gradient 1, weight 2 + 1 * 1 = 3, bias 1; error below is 2 * 1 (old weight)
    // bottom: gradient 2, weight 1 + 2 * 1 = 3, bias 2
    assert_eq!(
        net.parameters(),
        (
            vec![vec![vec![3.0]], vec![vec![3.0]]],
            vec![vec![vec![2.0]], vec![vec![1.0]]]
        )
    );
}

#[test]
fn back_propagate_errors() {
    let mut net = seeded_network(vec![2, 3, 1], 0.5, 4);
    let before = net.parameters();
    assert_eq!(
        net.back_propagate(vec![0.5], vec![1.0], &arith(), &sigmoid()).err(),
        Some(NetworkError::MissingForwardPass)
    );
    let out = net.feed_forward(vec![1.0, 0.0], &arith(), &sigmoid()).unwrap();
    assert_eq!(
        net.back_propagate(out.clone(), vec![1.0, 0.0], &arith(), &sigmoid()).err(),
        Some(NetworkError::InvalidTargetLength)
    );
    assert_eq!(
        net.back_propagate(vec![0.5, 0.5], vec![1.0], &arith(), &sigmoid()).err(),
        Some(NetworkError::InvalidOutputLength)
    );
    assert_eq!(net.parameters(), before);
}

#[test]
fn train_checks_samples_first() {
    let mut net = seeded_network(vec![2, 3, 1], 0.5, 5);
    let before = net.parameters();
    let a = arith();
    let s = sigmoid();
    assert_eq!(
        net.train(vec![vec![0.0, 0.0]], vec![], 10, &a, &s).err(),
        Some(NetworkError::SampleCountMismatch)
    );
    assert_eq!(
        net.train(vec![vec![0.0, 0.0], vec![1.0]], vec![vec![0.0], vec![1.0]], 10, &a, &s).err(),
        Some(NetworkError::InvalidInputLength)
    );
    assert_eq!(
        net.train(vec![vec![0.0, 0.0]], vec![vec![0.0, 1.0]], 10, &a, &s).err(),
        Some(NetworkError::InvalidTargetLength)
    );
    assert_eq!(net.parameters(), before);
}

#[test]
fn train_is_forward_then_backward_per_sample() {
    let mut a = seeded_network(vec![2, 3, 1], 0.5, 6);
    let mut b = seeded_network(vec![2, 3, 1], 0.5, 6);
    let inputs = vec![vec![0.0, 1.0], vec![1.0, 1.0]];
    let targets = vec![vec![1.0], vec![0.0]];
    a.train(inputs.clone(), targets.clone(), 2, &arith(), &sigmoid()).unwrap();
    for _ in 0..2 {
        for (x, t) in inputs.iter().zip(targets.iter()) {
            let out = b.feed_forward(x.clone(), &arith(), &sigmoid()).unwrap();
            b.back_propagate(out, t.clone(), &arith(), &sigmoid()).unwrap();
        }
    }
    assert_eq!(a.parameters(), b.parameters());
}

#[test]
fn set_parameters_rejects_wrong_shapes() {
    let mut net = seeded_network(vec![2, 3, 1], 0.5, 7);
    let before = net.parameters();
    let (w, b) = before.clone();
    assert_eq!(
        net.set_parameters(vec![w[0].clone()], b.clone()).err(),
        Some(NetworkError::ShapeError)
    );
    assert_eq!(
        net.set_parameters(vec![w[1].clone(), w[0].clone()], b.clone()).err(),
        Some(NetworkError::ShapeError)
    );
    assert_eq!(
        net.set_parameters(w.clone(), vec![b[0].clone(), vec![vec![1.0, 2.0]]]).err(),
        Some(NetworkError::ShapeError)
    );
    assert_eq!(net.parameters(), before);
}

#[test]
fn save_then_load_reproduces_outputs() {
    let mut trained = seeded_network(vec![2, 3, 1], 0.5, 8);
    let inputs = vec![vec![0.0, 0.0], vec![0.0, 1.0], vec![1.0, 0.0], vec![1.0, 1.0]];
    let targets = vec![vec![0.0], vec![1.0], vec![1.0], vec![0.0]];
    trained.train(inputs, targets, 50, &arith(), &sigmoid()).unwrap();
    let (w, b) = trained.parameters();
    let mut record = serde_json::Map::new();
    record.insert("weights".to_string(), serde_json::to_value(&w).unwrap());
    record.insert("biases".to_string(), serde_json::to_value(&b).unwrap());
    let text = serde_json::Value::Object(record).to_string();

    let parsed: serde_json::Value = serde_json::from_str(&text).unwrap();
    let w2: Vec<Vec<Vec<f64>>> = serde_json::from_value(parsed["weights"].clone()).unwrap();
    let b2: Vec<Vec<Vec<f64>>> = serde_json::from_value(parsed["biases"].clone()).unwrap();
    let mut fresh = seeded_network(vec![2, 3, 1], 0.5, 9);
    fresh.set_parameters(w2, b2).unwrap();

    let probe = vec![0.25, 0.75];
    let x = trained.feed_forward(probe.clone(), &arith(), &sigmoid()).unwrap();
    let y = fresh.feed_forward(probe, &arith(), &sigmoid()).unwrap();
    assert_eq!(x.len(), 1);
    assert!((x[0] - y[0]).abs() < 1e-12);
}

#[test]
fn parameters_round_trip_exactly() {
    let a = seeded_network(vec![3, 4, 2], 0.1, 10);
    let mut b = seeded_network(vec![3, 4, 2], 0.1, 11);
    let (w, bias) = a.parameters();
    b.set_parameters(w, bias).unwrap();
    assert_eq!(a.parameters(), b.parameters());
}

#[test]
fn xor_training_separates_classes() {
    let mut net = seeded_network(vec![2, 3, 1], 0.5, 42);
    let inputs = vec![vec![0.0, 0.0], vec![0.0, 1.0], vec![1.0, 0.0], vec![1.0, 1.0]];
    let targets = vec![vec![0.0], vec![1.0], vec![1.0], vec![0.0]];
    net.train(inputs, targets, 3000, &arith(), &sigmoid()).unwrap();
    let a = arith();
    let s = sigmoid();
    let low = |net: &mut Network<f64>, x: Vec<f64>| net.feed_forward(x, &a, &s).unwrap()[0];
    let v00 = low(&mut net, vec![0.0, 0.0]);
    let v01 = low(&mut net, vec![0.0, 1.0]);
    let v10 = low(&mut net, vec![1.0, 0.0]);
    let v11 = low(&mut net, vec![1.0, 1.0]);
    assert!((v00 - 0.0).abs() < (v00 - 0.5).abs(), "{v00}");
    assert!((v11 - 0.0).abs() < (v11 - 0.5).abs(), "{v11}");
    assert!((v01 - 1.0).abs() < (v01 - 0.5).abs(), "{v01}");
    assert!((v10 - 1.0).abs() < (v10 - 0.5).abs(), "{v10}");
}
