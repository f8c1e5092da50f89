use binary_brain::{Activation, BinaryBrain, BinaryBrainError, NeuronChunk};
use rand::SeedableRng;
use rand_xoshiro::Xoshiro256StarStar;

fn rng(seed: u64) -> Xoshiro256StarStar {
    Xoshiro256StarStar::seed_from_u64(seed)
}

fn weight_words(b: &BinaryBrain) -> Vec<u64> {
    b.weights().iter().map(|c| c.0).collect()
}

fn threshold_bytes(b: &BinaryBrain) -> Vec<i8> {
    b.activations().iter().map(|a| a.0).collect()
}

#[test]
fn construction_succeeds_on_valid_shapes() {
    let mut r = rng(1);
    for &(ic, oc, total) in &[(0, 0, 64), (4, 1, 64), (32, 32, 64), (10, 20, 128), (0, 192, 192)] {
        let b = BinaryBrain::new(ic, oc, total, &mut r).unwrap();
        assert_eq!(b.input_count(), ic);
        assert_eq!(b.output_count(), oc);
        assert_eq!(b.neuron_count(), total);
        assert_eq!(b.weights().len(), total * total / 64);
        assert_eq!(b.activations().len(), total);
    }
}

#[test]
fn cycle_with_correct_input_never_errors() {
    let mut r = rng(2);
    let mut b = BinaryBrain::new(5, 3, 128, &mut r).unwrap();
    let input = vec![Activation(7); 5];
    let mut output = Vec::new();
    for _ in 0..10 {
        b.cycle(&input, &mut output).unwrap();
        assert_eq!(output.len(), 3);
    }
}

#[test]
fn construction_rejects_total_not_multiple_of_64() {
    for &total in &[1usize, 63, 65, 100, 127] {
        let mut r = rng(3);
        match BinaryBrain::new(0, 0, total, &mut r) {
            Err(BinaryBrainError::TotalNotDivisbleByChunkSize) => {}
            other => panic!("expected TotalNotDivisbleByChunkSize, got {:?}", other),
        }
    }
}

#[test]
fn construction_rejects_oversized_input_output() {
    let mut r = rng(4);
    match BinaryBrain::new(40, 25, 64, &mut r) {
        Err(BinaryBrainError::InputOutputAboveTotal) => {}
        other => panic!("expected InputOutputAboveTotal, got {:?}", other),
    }
}

#[test]
fn with_parameters_rejects_mismatched_weights() {
    let weights = vec![NeuronChunk(0); 63];
    let acts = vec![Activation(0); 64];
    match BinaryBrain::with_parameters(weights, acts, 1, 1) {
        Err(BinaryBrainError::InvalidWeightActivationCombo) => {}
        other => panic!("expected InvalidWeightActivationCombo, got {:?}", other),
    }
}

#[test]
fn wrong_input_length_fails_without_mutating_state() {
    let mut r = rng(5);
    let mut a = BinaryBrain::new(4, 2, 64, &mut r).unwrap();
    let b0 = a.duplicate();
    let mut b = b0;
    let mut out_a = Vec::new();
    let mut out_b = Vec::new();

    let wrong = vec![Activation(1); 3];
    match a.cycle(&wrong, &mut out_a) {
        Err(BinaryBrainError::WrongInputShape) => {}
        other => panic!("expected WrongInputShape, got {:?}", other),
    }
    assert!(out_a.is_empty());

    // The failed call must not have advanced `a`'s recurrent state: both
    // engines must still agree on every following cycle.
    let good = vec![Activation(1); 4];
    for _ in 0..5 {
        a.cycle(&good, &mut out_a).unwrap();
        b.cycle(&good, &mut out_b).unwrap();
        assert_eq!(out_a, out_b);
    }
}

#[test]
fn round_trip_preserves_weights_and_thresholds() {
    let mut r = rng(6);
    let b = BinaryBrain::new(6, 2, 128, &mut r).unwrap();
    let bytes = b.serialize();
    let c = BinaryBrain::deserialize(&bytes).unwrap();
    assert_eq!(c.input_count(), b.input_count());
    assert_eq!(c.output_count(), b.output_count());
    assert_eq!(c.neuron_count(), b.neuron_count());
    assert_eq!(weight_words(&c), weight_words(&b));
    assert_eq!(threshold_bytes(&c), threshold_bytes(&b));
}

#[test]
fn round_trip_resets_state_to_zero() {
    let mut r = rng(7);
    let mut b = BinaryBrain::new(4, 4, 64, &mut r).unwrap();
    let input = vec![Activation(3); 4];
    let mut out = Vec::new();
    // Advance the state away from zero, then persist.
    for _ in 0..3 {
        b.cycle(&input, &mut out).unwrap();
    }
    let bytes = b.serialize();
    let mut loaded = BinaryBrain::deserialize(&bytes).unwrap();

    // A zero-state sibling with the same parameters behaves identically.
    let mut fresh = BinaryBrain::with_parameters(
        b.weights().to_vec(),
        b.activations().to_vec(),
        b.input_count(),
        b.output_count(),
    )
    .unwrap();
    let mut out_l = Vec::new();
    let mut out_f = Vec::new();
    for _ in 0..5 {
        loaded.cycle(&input, &mut out_l).unwrap();
        fresh.cycle(&input, &mut out_f).unwrap();
        assert_eq!(out_l, out_f);
    }
}

#[test]
fn serialized_layout_is_little_endian() {
    let weights = vec![NeuronChunk(0x0807060504030201); 64];
    let acts: Vec<Activation> = (0..64).map(|i| Activation(i as i8)).collect();
    let b = BinaryBrain::with_parameters(weights, acts, 2, 1).unwrap();
    let bytes = b.serialize();
    assert_eq!(bytes.len(), 24 + 64 * 8 + 64);
    assert_eq!(&bytes[0..8], &[2, 0, 0, 0, 0, 0, 0, 0]);
    assert_eq!(&bytes[8..16], &[1, 0, 0, 0, 0, 0, 0, 0]);
    assert_eq!(&bytes[16..24], &[64, 0, 0, 0, 0, 0, 0, 0]);
    assert_eq!(&bytes[24..32], &[1, 2, 3, 4, 5, 6, 7, 8]);
    assert_eq!(bytes[24 + 64 * 8], 0);
    assert_eq!(bytes[24 + 64 * 8 + 5], 5);
}

#[test]
fn deserialize_fails_on_truncation() {
    let mut r = rng(8);
    let b = BinaryBrain::new(2, 2, 64, &mut r).unwrap();
    let bytes = b.serialize();
    for cut in [0, 10, 23, 24, bytes.len() - 1] {
        match BinaryBrain::deserialize(&bytes[..cut]) {
            Err(BinaryBrainError::Truncated) => {}
            other => panic!("expected Truncated at {}, got {:?}", cut, other),
        }
    }
}

#[test]
fn deserialize_rejects_invalid_counts() {
    let mut header = vec![0u8; 24];
    header[16] = 65; // neuron count not a multiple of 64
    match BinaryBrain::deserialize(&header) {
        Err(BinaryBrainError::TotalNotDivisbleByChunkSize) => {}
        other => panic!("expected TotalNotDivisbleByChunkSize, got {:?}", other),
    }

    let mut header = vec![0u8; 24];
    header[0] = 60; // input count
    header[8] = 60; // output count
    header[16] = 64; // neuron count
    match BinaryBrain::deserialize(&header) {
        Err(BinaryBrainError::InputOutputAboveTotal) => {}
        other => panic!("expected InputOutputAboveTotal, got {:?}", other),
    }
}

#[test]
fn identical_engines_cycle_identically() {
    let mut r = rng(9);
    let mut a = BinaryBrain::new(8, 8, 192, &mut r).unwrap();
    let mut b = a.duplicate();
    let mut out_a = Vec::new();
    let mut out_b = Vec::new();
    for step in 0..20 {
        let input: Vec<Activation> = (0..8).map(|i| Activation((i * step % 17) as i8 - 8)).collect();
        a.cycle(&input, &mut out_a).unwrap();
        b.cycle(&input, &mut out_b).unwrap();
        assert_eq!(out_a, out_b);
    }
}

#[test]
fn all_agree_always_fire_scenario() {
    // Four inputs, one output, one word of neurons; thresholds at the
    // minimum, weights all ones.
    let weights = vec![NeuronChunk(u64::MAX); 64];
    let acts = vec![Activation(i8::MIN); 64];
    let mut b = BinaryBrain::with_parameters(weights, acts, 4, 1).unwrap();
    let input = vec![Activation(0); 4];
    let mut out = Vec::new();

    // First cycle: the zero state disagrees with every weight bit, yet the
    // thresholds make every neuron fire.
    b.cycle(&input, &mut out).unwrap();
    assert_eq!(out, vec![(true, -64)]);

    // Now every state word equals every weight word: every neuron agrees
    // on every bit and the single output entry carries the maximal sum.
    b.cycle(&input, &mut out).unwrap();
    assert_eq!(out, vec![(true, 64)]);
    b.cycle(&input, &mut out).unwrap();
    assert_eq!(out, vec![(true, 64)]);
}
