use mlpnet::nn::{NN, Sample};

fn bv(xs: &[f32]) -> Vec<u32> {
    xs.iter().map(|x| x.to_bits()).collect()
}

fn sample(input: &[f32], output: &[f32]) -> Sample {
    Sample { input: bv(input), output: bv(output) }
}

fn xor_data() -> Vec<Sample> {
    vec![
        sample(&[0.0, 0.0], &[0.0]),
        sample(&[0.0, 1.0], &[1.0]),
        sample(&[1.0, 0.0], &[1.0]),
        sample(&[1.0, 1.0], &[0.0]),
    ]
}

#[test]
fn single_step_strictly_decreases_score() {
    // one visible pair, a sample one step can fit, over a generous range
    // of learning rates
    let data = vec![sample(&[1.0, 0.0], &[1.0])];
    for &rate in &[0.125f32, 0.5, 1.0, 2.0, 8.0] {
        let mut nn = NN::new(&[2, 1], 3).unwrap();
        let before = f32::from_bits(nn.score(&data).unwrap());
        nn.train_samples(&data, rate.to_bits()).unwrap();
        let after = f32::from_bits(nn.score(&data).unwrap());
        assert!(
            after < before,
            "rate {rate}: score went {before} -> {after}"
        );
    }
}

#[test]
fn xor_trains_below_threshold() {
    let data = xor_data();
    let mut nn = NN::new(&[2, 2, 1], 22).unwrap();
    for _ in 0..2000 {
        nn.train_samples(&data, 1.0f32.to_bits()).unwrap();
    }
    let score = f32::from_bits(nn.score(&data).unwrap());
    assert!(score < 0.05, "score after training: {score}");
    for s in &data {
        let out = nn.get(&s.input).unwrap();
        let got = f32::from_bits(out[0]);
        let want = f32::from_bits(s.output[0]);
        assert_eq!(
            got > 0.5,
            want > 0.5,
            "wrong side of 0.5: got {got}, want {want}"
        );
    }
}

#[test]
fn count_correct_on_trained_xor() {
    let data = xor_data();
    let mut nn = NN::new(&[2, 2, 1], 22).unwrap();
    for _ in 0..2000 {
        nn.train_samples(&data, 1.0f32.to_bits()).unwrap();
    }
    // a single output neuron always has arg-max 0, as does every expected
    // output, so all four count as correct
    assert_eq!(nn.count_correct(&data).unwrap(), 4);
    // a two-output classification where the untrained net must be scored
    let mut fresh = NN::new(&[2, 2, 1], 22).unwrap();
    assert_eq!(fresh.count_correct(&data).unwrap(), 4);
}
