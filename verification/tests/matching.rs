use voicepipe::detector::{ConfigError, VoiceDetector};
use voicepipe::levenshtein::levenshtein_distance;

fn chars(s: &str) -> Vec<char> {
    s.chars().collect()
}

fn default_detector() -> VoiceDetector {
    VoiceDetector::new(20_000, 500, "yo").unwrap()
}

#[test]
fn distance_of_a_string_to_itself_is_zero() {
    assert_eq!(levenshtein_distance(&chars("kitten"), &chars("kitten")), 0);
    assert_eq!(levenshtein_distance(&chars(""), &chars("")), 0);
}

#[test]
fn distance_counts_single_substitutions() {
    assert_eq!(levenshtein_distance(&chars("yo"), &chars("y0")), 1);
    assert_eq!(levenshtein_distance(&chars("abc"), &chars("abd")), 1);
}

#[test]
fn distance_matches_the_classic_example() {
    assert_eq!(levenshtein_distance(&chars("kitten"), &chars("sitting")), 3);
}

#[test]
fn distance_is_symmetric() {
    let pairs = [("kitten", "sitting"), ("yo", "hello"), ("", "abc"), ("ab", "ba")];
    for (a, b) in pairs {
        assert_eq!(
            levenshtein_distance(&chars(a), &chars(b)),
            levenshtein_distance(&chars(b), &chars(a)),
        );
    }
}

#[test]
fn distance_counts_insertions_and_deletions() {
    assert_eq!(levenshtein_distance(&chars("yo"), &chars("")), 2);
    assert_eq!(levenshtein_distance(&chars(""), &chars("yeah")), 4);
    assert_eq!(levenshtein_distance(&chars("yo"), &chars("yoo")), 1);
}

#[test]
fn exact_phrase_matches() {
    let d = default_detector();
    assert!(d.matches_wake_word("yo"));
}

#[test]
fn uppercase_text_is_lowercased_before_matching() {
    let d = default_detector();
    assert!(d.matches_wake_word("YO"));
    assert!(d.matches_wake_word("Yo there"));
}

#[test]
fn single_substitution_still_matches() {
    let d = default_detector();
    assert!(d.matches_wake_word("y0"));
}

#[test]
fn unrelated_text_does_not_match() {
    let d = default_detector();
    assert!(!d.matches_wake_word("hello there"));
    assert!(!d.matches_wake_word(""));
    assert!(!d.matches_wake_word("good morning"));
}

#[test]
fn known_confusables_match() {
    let d = default_detector();
    assert!(d.matches_wake_word("you"));
    assert!(d.matches_wake_word("yeah"));
    assert!(d.matches_wake_word("well yeah ok"));
}

#[test]
fn confusables_match_even_with_another_activation_phrase() {
    let d = VoiceDetector::new(20_000, 500, "jarvis").unwrap();
    assert!(d.matches_wake_word("jarvis"));
    assert!(d.matches_wake_word("jarvus please"));
    assert!(d.matches_wake_word("yeah"));
    assert!(!d.matches_wake_word("hello there"));
}

#[test]
fn one_character_words_are_not_fuzzy_matched() {
    let d = VoiceDetector::new(20_000, 500, "a").unwrap();
    assert!(!d.matches_wake_word("b c d"));
    assert!(d.matches_wake_word("a"));
}

#[test]
fn empty_activation_phrase_is_rejected() {
    let r = VoiceDetector::new(20_000, 500, "");
    assert_eq!(r.err(), Some(ConfigError::EmptyActivationWord));
}

#[test]
fn zero_silence_duration_is_rejected() {
    let r = VoiceDetector::new(20_000, 0, "yo");
    assert_eq!(r.err(), Some(ConfigError::InvalidSilenceDuration));
}

#[test]
fn oversized_silence_duration_is_rejected() {
    let r = VoiceDetector::new(20_000, 3_600_001, "yo");
    assert_eq!(r.err(), Some(ConfigError::InvalidSilenceDuration));
}
