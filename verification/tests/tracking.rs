use voicepipe::tracker::{NoiseFloorTracker, HISTORY_CAPACITY, INITIAL_NOISE_FLOOR};

fn expected_floor(window: &[i64]) -> i64 {
    let mut sorted: Vec<i64> = window.to_vec();
    sorted.sort();
    let idx = (sorted.len() / 10).max(1) - 1;
    sorted[idx]
}

#[test]
fn capacity_and_initial_floor_are_the_documented_defaults() {
    assert_eq!(HISTORY_CAPACITY, 50);
    assert_eq!(INITIAL_NOISE_FLOOR, 10_000);
}

#[test]
fn first_observation_becomes_the_floor() {
    let mut tracker = NoiseFloorTracker::new();
    assert_eq!(tracker.observe(5_000), 5_000);
}

#[test]
fn floor_is_the_tenth_percentile_of_recent_history() {
    let mut tracker = NoiseFloorTracker::new();
    let mut model: Vec<i64> = Vec::new();
    for step in 0..60i64 {
        let rms = 1_000 + step * 500;
        let floor = tracker.observe(rms);
        model.push(rms);
        if model.len() > 50 {
            model.remove(0);
        }
        assert_eq!(floor, expected_floor(&model), "after observation {}", step);
    }
}

#[test]
fn increasing_then_constant_energies_converge_the_floor() {
    let mut tracker = NoiseFloorTracker::new();
    let mut model: Vec<i64> = Vec::new();
    let mut floor = 0i64;
    for step in 0..30i64 {
        let rms = 2_000 + step * 1_000;
        floor = tracker.observe(rms);
        model.push(rms);
    }
    for _ in 0..50 {
        floor = tracker.observe(40_000);
        model.push(40_000);
        if model.len() > 50 {
            model.remove(0);
        }
    }
    assert_eq!(floor, expected_floor(&model));
    assert_eq!(floor, 40_000);
}

#[test]
fn eviction_forgets_the_oldest_energy() {
    let mut tracker = NoiseFloorTracker::new();
    tracker.observe(1);
    for _ in 0..50 {
        tracker.observe(9_000);
    }
    let floor = tracker.observe(9_000);
    assert_eq!(floor, 9_000);
}
