use voicepipe::detector::VoiceDetector;

fn default_detector() -> VoiceDetector {
    VoiceDetector::new(20_000, 500, "yo").unwrap()
}

#[test]
fn silent_buffers_are_never_active() {
    let mut d = default_detector();
    for len in [0usize, 1, 100, 1024, 5000, 16_000] {
        let zeros: Vec<i64> = vec![0; len];
        assert!(!d.is_voice_active(&zeros, 1024), "length {}", len);
    }
}

#[test]
fn silent_buffers_read_as_silence() {
    let mut d = default_detector();
    let zeros: Vec<i64> = vec![0; 16_000];
    assert!(d.detect_silence(&zeros, 16_000));
    let empty: Vec<i64> = Vec::new();
    assert!(d.detect_silence(&empty, 16_000));
}

#[test]
fn sustained_loud_frames_over_a_quiet_floor_are_active() {
    let mut d = default_detector();
    let zeros: Vec<i64> = vec![0; 16_000];
    assert!(!d.is_voice_active(&zeros, 1024));
    let mut buffer: Vec<i64> = vec![0; 13 * 1024];
    buffer.extend(std::iter::repeat(500_000).take(3 * 1024));
    assert!(d.is_voice_active(&buffer, 1024));
}

#[test]
fn fewer_than_the_required_consecutive_frames_stay_inactive() {
    let mut d = default_detector();
    let zeros: Vec<i64> = vec![0; 16_000];
    assert!(!d.is_voice_active(&zeros, 1024));
    let mut buffer: Vec<i64> = vec![0; 4 * 1024];
    buffer.extend(std::iter::repeat(500_000).take(2 * 1024));
    buffer.extend(std::iter::repeat(0i64).take(2 * 1024));
    buffer.extend(std::iter::repeat(500_000).take(2 * 1024));
    assert!(!d.is_voice_active(&buffer, 1024));
}

#[test]
fn the_floor_adapts_to_constant_loudness() {
    let mut d = default_detector();
    let loud: Vec<i64> = vec![400_000; 8 * 1024];
    assert!(
        !d.is_voice_active(&loud, 1024),
        "a floor that has adapted to the signal keeps the threshold above it",
    );
}

#[test]
fn activity_checks_share_adaptation_state_with_silence_checks() {
    let mut d = default_detector();
    let zeros: Vec<i64> = vec![0; 16_000];
    assert!(d.detect_silence(&zeros, 16_000));
    let mut buffer: Vec<i64> = vec![0; 13 * 1024];
    buffer.extend(std::iter::repeat(500_000).take(3 * 1024));
    assert!(d.is_voice_active(&buffer, 1024));
}
