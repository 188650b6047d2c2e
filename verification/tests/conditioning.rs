use voicepipe::conditioner::{apply_noise_gate, condition, noise_gate, resample};
use voicepipe::detector::VoiceDetector;

#[test]
fn gate_zeroes_quiet_samples() {
    assert_eq!(apply_noise_gate(0), 0);
    assert_eq!(apply_noise_gate(19_999), 0);
    assert_eq!(apply_noise_gate(-19_999), 0);
    assert_eq!(apply_noise_gate(1), 0);
}

#[test]
fn gate_passes_loud_samples_unchanged() {
    assert_eq!(apply_noise_gate(20_000), 20_000);
    assert_eq!(apply_noise_gate(-20_000), -20_000);
    assert_eq!(apply_noise_gate(500_000), 500_000);
    assert_eq!(apply_noise_gate(-1_000_000), -1_000_000);
}

#[test]
fn gate_applies_to_each_sample_of_a_buffer() {
    let input: Vec<i64> = vec![0, 19_999, 20_000, -5, -20_000, 300_000];
    let out = noise_gate(&input);
    assert_eq!(out, vec![0, 0, 20_000, 0, -20_000, 300_000]);
}

#[test]
fn resample_at_equal_rates_is_identity() {
    let input: Vec<i64> = vec![5, -7, 123_456, 0, -1_000_000];
    let out = resample(&input, 16_000, 16_000);
    assert_eq!(out, input);
}

#[test]
fn resample_halves_a_buffer() {
    let input: Vec<i64> = vec![100, 200, 300, 400];
    let out = resample(&input, 2, 1);
    assert_eq!(out, vec![100, 300]);
}

#[test]
fn resample_interpolates_between_neighbours() {
    let input: Vec<i64> = vec![0, 1_000_000];
    let out = resample(&input, 1, 2);
    assert_eq!(out, vec![0, 500_000]);
}

#[test]
fn resample_empty_is_empty() {
    let input: Vec<i64> = Vec::new();
    assert_eq!(resample(&input, 44_100, 16_000), Vec::<i64>::new());
}

#[test]
fn downsampled_length_follows_the_rate_ratio() {
    let input: Vec<i64> = vec![0; 44_100];
    let out = resample(&input, 44_100, 16_000);
    assert_eq!(out.len(), 16_000);
}

#[test]
fn conditioned_sine_keeps_length_and_envelope() {
    let rate = 44_100usize;
    let mut input: Vec<i64> = Vec::with_capacity(rate);
    for i in 0..rate {
        let phase = 2.0 * std::f64::consts::PI * 440.0 * (i as f64) / (rate as f64);
        let amp = 0.5 * phase.sin();
        input.push((amp * 1_000_000.0) as i64);
    }
    let out = condition(&input, 44_100, 16_000);
    assert_eq!(out.len(), 16_000);
    let peak = out.iter().map(|s| s.abs()).max().unwrap();
    assert!(peak >= 450_000, "peak {} lost too much amplitude", peak);
    assert!(peak <= 500_000, "peak {} exceeds the input envelope", peak);
}

#[test]
fn rms_of_zero_frame_is_zero() {
    let zeros: Vec<i64> = vec![0; 1024];
    assert_eq!(VoiceDetector::calculate_rms(&zeros), 0);
}

#[test]
fn rms_of_empty_frame_is_zero() {
    let empty: Vec<i64> = Vec::new();
    assert_eq!(VoiceDetector::calculate_rms(&empty), 0);
}

#[test]
fn rms_of_constant_frame_is_its_magnitude() {
    let pos: Vec<i64> = vec![300_000; 5];
    assert_eq!(VoiceDetector::calculate_rms(&pos), 300_000);
    let neg: Vec<i64> = vec![-250_000; 7];
    assert_eq!(VoiceDetector::calculate_rms(&neg), 250_000);
}

#[test]
fn rms_of_mixed_frame_rounds_down() {
    let frame: Vec<i64> = vec![3_000, 4_000];
    assert_eq!(VoiceDetector::calculate_rms(&frame), 3_535);
}
