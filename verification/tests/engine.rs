use mlpnet::NNError;
use mlpnet::act::{Activation, activation_function, activation_function_derivate};
use mlpnet::nn::{NN, Sample, arg_max};
use mlpnet::snapshot::Snapshot;

fn b(x: f32) -> u32 {
    x.to_bits()
}

fn f(x: u32) -> f32 {
    f32::from_bits(x)
}

fn bv(xs: &[f32]) -> Vec<u32> {
    xs.iter().map(|x| x.to_bits()).collect()
}

fn snap(arch: Vec<usize>, act: Activation, biases: Vec<Vec<f32>>, weights: Vec<Vec<Vec<f32>>>) -> Snapshot {
    Snapshot {
        arch,
        act,
        biases: biases.iter().map(|v| bv(v)).collect(),
        weights: weights
            .iter()
            .map(|m| m.iter().map(|v| bv(v)).collect())
            .collect(),
    }
}

fn sample(input: &[f32], output: &[f32]) -> Sample {
    Sample { input: bv(input), output: bv(output) }
}

#[test]
fn new_rejects_short_architecture() {
    assert!(matches!(NN::new(&[], 1), Err(NNError::InvalidArchitecture)));
    assert!(matches!(NN::new(&[5], 1), Err(NNError::InvalidArchitecture)));
    assert!(NN::new(&[5, 2], 1).is_ok());
}

#[test]
fn new_is_deterministic_per_seed() {
    let n1 = NN::new(&[3, 4, 2], 42).unwrap();
    let n2 = NN::new(&[3, 4, 2], 42).unwrap();
    let n3 = NN::new(&[3, 4, 2], 43).unwrap();
    let s1 = n1.serialize();
    let s2 = n2.serialize();
    let s3 = n3.serialize();
    assert_eq!(s1.biases, s2.biases);
    assert_eq!(s1.weights, s2.weights);
    assert_ne!(s1.weights, s3.weights);
}

#[test]
fn new_draws_parameters_in_unit_range() {
    let n = NN::new(&[4, 6, 3], 9).unwrap();
    let s = n.serialize();
    for layer in &s.biases {
        for &v in layer {
            let x = f(v);
            assert!((-1.0..1.0).contains(&x), "bias {x} out of range");
        }
    }
    for conn in &s.weights {
        for row in conn {
            for &v in row {
                let x = f(v);
                assert!((-1.0..1.0).contains(&x), "weight {x} out of range");
            }
        }
    }
}

#[test]
fn forward_linear_exact_values() {
    // plain rectifier on the positive side: z = 2*10 + 3*20 + 1 = 81
    let s = snap(
        vec![2, 1],
        Activation::Linear(b(0.5)),
        vec![vec![0.0, 0.0], vec![1.0]],
        vec![vec![vec![2.0, 3.0]]],
    );
    let mut nn = NN::deserialize(&s).unwrap();
    let out = nn.get(&bv(&[10.0, 20.0])).unwrap();
    assert_eq!(out, bv(&[81.0]));
    // negative side is scaled by the slope: z = -20 + 1 = -19, a = -9.5
    let out = nn.get(&bv(&[-10.0, 0.0])).unwrap();
    assert_eq!(out, bv(&[-9.5]));
}

#[test]
fn forward_two_layer_linear_exact_values() {
    // 2-2-1, identity-ish weights: h = (x1 + x2, x1 - x2), y = h1 + 2*h2
    let s = snap(
        vec![2, 2, 1],
        Activation::Linear(b(1.0)),
        vec![vec![0.0, 0.0], vec![0.0, 0.0], vec![0.0]],
        vec![
            vec![vec![1.0, 1.0], vec![1.0, -1.0]],
            vec![vec![1.0, 2.0]],
        ],
    );
    let mut nn = NN::deserialize(&s).unwrap();
    let out = nn.get(&bv(&[5.0, 3.0])).unwrap();
    // h = (8, 2), y = 8 + 4 = 12
    assert_eq!(out, bv(&[12.0]));
}

#[test]
fn sigmoid_exact_at_zero() {
    assert_eq!(activation_function(Activation::Sigmoid, b(0.0)), b(0.5));
    // derivative at 0 is 0.5 * (1 - 0.5) = 0.25, all steps exact
    assert_eq!(activation_function_derivate(Activation::Sigmoid, b(0.0)), b(0.25));
}

#[test]
fn sigmoid_close_to_reference() {
    for &x in &[-4.0f32, -1.0, -0.3, 0.7, 2.5, 5.0] {
        let got = f(activation_function(Activation::Sigmoid, b(x)));
        let want = 1.0 / (1.0 + (-x as f64).exp()) as f32;
        assert!(
            (got - want).abs() < 1e-5,
            "sigmoid({x}) = {got}, reference {want}"
        );
    }
}

#[test]
fn sigmoid_saturates() {
    assert_eq!(activation_function(Activation::Sigmoid, b(-200.0)), b(0.0));
    assert_eq!(activation_function(Activation::Sigmoid, b(200.0)), b(1.0));
}

#[test]
fn linear_derivative_sides() {
    let a = Activation::Linear(b(0.25));
    assert_eq!(activation_function_derivate(a, b(3.0)), b(1.0));
    assert_eq!(activation_function_derivate(a, b(-3.0)), b(0.25));
}

#[test]
fn score_on_empty_dataset_is_an_error() {
    let mut nn = NN::new(&[2, 1], 5).unwrap();
    assert!(matches!(nn.score(&vec![]), Err(NNError::EmptyBatch)));
}

#[test]
fn train_on_empty_batch_is_an_error() {
    let mut nn = NN::new(&[2, 1], 5).unwrap();
    assert!(matches!(nn.train_samples(&vec![], b(1.0)), Err(NNError::EmptyBatch)));
}

#[test]
fn score_exact_value_on_linear_net() {
    // z = x1 + x2, output for (1, 2) is 3; expected 1 => err = (1-3)^2/1/2 = 2
    let s = snap(
        vec![2, 1],
        Activation::Linear(b(1.0)),
        vec![vec![0.0, 0.0], vec![0.0]],
        vec![vec![vec![1.0, 1.0]]],
    );
    let mut nn = NN::deserialize(&s).unwrap();
    let data = vec![sample(&[1.0, 2.0], &[1.0]), sample(&[0.0, 0.0], &[1.0])];
    // second sample: output 0, err = 1/2; average = (2 + 0.5) / 2 = 1.25
    let sc = nn.score(&data).unwrap();
    assert_eq!(sc, b(1.25));
}

#[test]
fn shape_mismatch_fails_without_mutation() {
    let mut nn = NN::new(&[3, 4, 2], 11).unwrap();
    let before = nn.serialize();
    // wrong input length
    assert!(matches!(nn.forward(&bv(&[1.0, 2.0])), Err(NNError::ShapeMismatch)));
    // wrong output length
    assert!(matches!(nn.backpropagate(&bv(&[1.0])), Err(NNError::ShapeMismatch)));
    // batches holding one bad sample
    let bad = vec![sample(&[1.0, 2.0, 3.0], &[1.0, 0.0]), sample(&[1.0], &[1.0, 0.0])];
    assert!(matches!(nn.train_samples(&bad, b(1.0)), Err(NNError::ShapeMismatch)));
    assert!(matches!(nn.score(&bad), Err(NNError::ShapeMismatch)));
    let after = nn.serialize();
    assert_eq!(before.arch, after.arch);
    assert_eq!(before.biases, after.biases);
    assert_eq!(before.weights, after.weights);
}

#[test]
fn zero_rate_is_a_noop() {
    let mut nn = NN::new(&[2, 3, 2], 42).unwrap();
    let before = nn.serialize();
    nn.forward(&bv(&[0.5, -0.25])).unwrap();
    nn.backpropagate(&bv(&[1.0, 0.0])).unwrap();
    nn.clear_gradient();
    nn.apply_gradient(b(0.0));
    let after = nn.serialize();
    assert_eq!(before.biases, after.biases);
    assert_eq!(before.weights, after.weights);
}

#[test]
fn nonzero_rate_moves_parameters() {
    // sanity against the no-op test: with gradients accumulated and a real
    // rate, training changes the weights
    let mut nn = NN::new(&[2, 3, 2], 42).unwrap();
    let before = nn.serialize();
    let data = vec![sample(&[0.5, -0.25], &[1.0, 0.0])];
    nn.train_samples(&data, b(1.0)).unwrap();
    let after = nn.serialize();
    assert_ne!(before.weights, after.weights);
}

#[test]
fn duplicated_batch_at_halved_rate_matches_single_sample() {
    // accumulating two identical samples and applying rate/2 equals
    // applying the rate to one sample's gradient, exactly
    let s = sample(&[0.25, 0.75], &[0.5]);
    let s2 = sample(&[0.25, 0.75], &[0.5]);
    let s3 = sample(&[0.25, 0.75], &[0.5]);
    let mut n1 = NN::new(&[2, 2, 1], 7).unwrap();
    let mut n2 = NN::new(&[2, 2, 1], 7).unwrap();
    n1.train_samples(&vec![s, s2], b(1.0)).unwrap();
    n2.train_samples(&vec![s3], b(1.0)).unwrap();
    let s1 = n1.serialize();
    let s2 = n2.serialize();
    assert_eq!(s1.biases, s2.biases);
    assert_eq!(s1.weights, s2.weights);
}

#[test]
fn snapshot_round_trip_is_exact() {
    let mut nn = NN::new(&[3, 4, 2], 9).unwrap();
    let x = bv(&[0.1, -0.2, 0.3]);
    let out_before = nn.get(&x).unwrap();
    let snap1 = nn.serialize();
    let mut restored = NN::deserialize(&snap1).unwrap();
    let snap2 = restored.serialize();
    assert_eq!(snap1.arch, snap2.arch);
    assert_eq!(snap1.biases, snap2.biases);
    assert_eq!(snap1.weights, snap2.weights);
    let out_after = restored.get(&x).unwrap();
    assert_eq!(out_before, out_after);
}

#[test]
fn deserialize_rejects_bad_snapshots() {
    assert!(matches!(
        NN::deserialize(&snap(vec![2], Activation::Sigmoid, vec![vec![0.0, 0.0]], vec![])),
        Err(NNError::InvalidArchitecture)
    ));
    // bias vector length disagrees with the architecture
    assert!(matches!(
        NN::deserialize(&snap(
            vec![2, 1],
            Activation::Sigmoid,
            vec![vec![0.0], vec![0.0]],
            vec![vec![vec![1.0, 1.0]]],
        )),
        Err(NNError::ShapeMismatch)
    ));
    // weight row length disagrees with the earlier layer
    assert!(matches!(
        NN::deserialize(&snap(
            vec![2, 1],
            Activation::Sigmoid,
            vec![vec![0.0, 0.0], vec![0.0]],
            vec![vec![vec![1.0]]],
        )),
        Err(NNError::ShapeMismatch)
    ));
}

#[test]
fn error_exact_value_and_shape_check() {
    // z = x1 + x2; for (1, 2) the output is 3, expected 1:
    // ((1 - 3)^2) / 1 / 2 = 2
    let s = snap(
        vec![2, 1],
        Activation::Linear(b(1.0)),
        vec![vec![0.0, 0.0], vec![0.0]],
        vec![vec![vec![1.0, 1.0]]],
    );
    let mut nn = NN::deserialize(&s).unwrap();
    assert_eq!(nn.error(&sample(&[1.0, 2.0], &[1.0])).unwrap(), b(2.0));
    assert!(matches!(
        nn.error(&sample(&[1.0, 2.0], &[1.0, 0.0])),
        Err(NNError::ShapeMismatch)
    ));
    assert!(matches!(
        nn.error(&sample(&[1.0], &[1.0])),
        Err(NNError::ShapeMismatch)
    ));
}

#[test]
fn get_rejects_wrong_input_length() {
    let mut nn = NN::new(&[2, 1], 4).unwrap();
    assert!(matches!(nn.get(&bv(&[1.0])), Err(NNError::ShapeMismatch)));
    assert!(nn.get(&bv(&[1.0, 2.0])).is_ok());
}

#[test]
fn count_correct_rejects_wrong_input_length() {
    let mut nn = NN::new(&[2, 1], 4).unwrap();
    let bad = vec![sample(&[1.0, 2.0], &[1.0]), sample(&[1.0], &[1.0])];
    assert!(matches!(nn.count_correct(&bad), Err(NNError::ShapeMismatch)));
}

#[test]
fn layer_len_reports_neuron_count() {
    let nn = NN::new(&[3, 5, 2], 1).unwrap();
    assert_eq!(nn.layers.len(), 3);
    assert_eq!(nn.layers[0].len(), 3);
    assert_eq!(nn.layers[1].len(), 5);
    assert_eq!(nn.layers[2].len(), 2);
}

#[test]
fn arg_max_picks_the_highest_entry() {
    assert_eq!(arg_max(&bv(&[0.1, 0.9, 0.3])), 1);
    assert_eq!(arg_max(&bv(&[0.5, 0.2, 0.5])), 0);
    assert_eq!(arg_max(&bv(&[-0.5, -0.2, -0.3])), 1);
    assert_eq!(arg_max(&bv(&[])), 0);
}
