use voicepipe::assistant::{Assistant, ConversationState, ListeningVerdict, MAX_HISTORY};
use voicepipe::detector::VoiceDetector;

fn fresh_assistant() -> Assistant {
    let detector = VoiceDetector::new(20_000, 500, "yo").unwrap();
    let mut a = Assistant::new(detector);
    a.start();
    a
}

#[test]
fn startup_awaits_the_wake_word() {
    let detector = VoiceDetector::new(20_000, 500, "yo").unwrap();
    let mut a = Assistant::new(detector);
    assert_eq!(a.current_state(), ConversationState::Idle);
    a.start();
    assert_eq!(a.current_state(), ConversationState::AwaitingWakeWord);
    assert!(!a.is_active());
}

#[test]
fn hearing_the_wake_word_starts_listening() {
    let mut a = fresh_assistant();
    let matched = a.on_wake_text("hey yo what's up");
    assert!(matched);
    assert_eq!(a.current_state(), ConversationState::Listening);
    assert!(a.is_active());
}

#[test]
fn unrelated_text_keeps_awaiting() {
    let mut a = fresh_assistant();
    let matched = a.on_wake_text("nice weather today");
    assert!(!matched);
    assert_eq!(a.current_state(), ConversationState::AwaitingWakeWord);
    assert!(!a.is_active());
}

#[test]
fn a_silent_window_returns_to_awaiting() {
    let mut a = fresh_assistant();
    assert!(a.on_wake_text("hey yo what's up"));
    let empty: Vec<i64> = Vec::new();
    let verdict = a.assess_listening(&empty);
    assert_eq!(verdict, ListeningVerdict::ReturnToWakeWord);
    assert_eq!(a.current_state(), ConversationState::AwaitingWakeWord);
    assert!(!a.is_active());
}

#[test]
fn a_speech_window_asks_for_transcription() {
    let mut a = fresh_assistant();
    assert!(a.on_wake_text("yo"));
    let zeros: Vec<i64> = vec![0; 16_000];
    assert_eq!(a.assess_listening(&zeros), ListeningVerdict::ReturnToWakeWord);
    assert!(a.on_wake_text("yo"));
    let mut buffer: Vec<i64> = vec![0; 13 * 1024];
    buffer.extend(std::iter::repeat(500_000).take(3 * 1024));
    let verdict = a.assess_listening(&buffer);
    assert_eq!(verdict, ListeningVerdict::NeedTranscription);
    assert_eq!(a.current_state(), ConversationState::Listening);
}

#[test]
fn a_command_is_answered_and_remembered() {
    let mut a = fresh_assistant();
    assert!(a.on_wake_text("yo"));
    assert!(a.on_command_text("turn on the lights"));
    assert_eq!(a.current_state(), ConversationState::Processing);
    a.on_response("turn on the lights".to_string(), "done".to_string());
    assert_eq!(a.current_state(), ConversationState::AwaitingWakeWord);
    assert!(!a.is_active());
    assert_eq!(a.history_len(), 1);
    let entry = a.history_entry(0);
    assert_eq!(entry.0, "turn on the lights");
    assert_eq!(entry.1, "done");
}

#[test]
fn an_empty_transcription_abandons_the_window() {
    let mut a = fresh_assistant();
    assert!(a.on_wake_text("yo"));
    assert!(!a.on_command_text(""));
    assert_eq!(a.current_state(), ConversationState::AwaitingWakeWord);
    assert_eq!(a.history_len(), 0);
}

#[test]
fn the_history_evicts_its_oldest_entry() {
    let mut a = fresh_assistant();
    for i in 0..12 {
        a.add_to_history(format!("command {}", i), format!("answer {}", i));
    }
    assert_eq!(a.history_len(), MAX_HISTORY);
    assert_eq!(a.history_entry(0).0, "command 2");
    assert_eq!(a.history_entry(9).0, "command 11");
}

#[test]
fn a_processing_cycle_resumes_listening() {
    let mut a = fresh_assistant();
    assert!(a.on_wake_text("yo"));
    assert!(a.on_command_text("lights"));
    assert_eq!(a.current_state(), ConversationState::Processing);
    a.step_processing();
    assert_eq!(a.current_state(), ConversationState::Listening);
}

#[test]
fn an_error_resets_to_awaiting() {
    let mut a = fresh_assistant();
    assert!(a.on_wake_text("yo"));
    a.on_error();
    assert_eq!(a.current_state(), ConversationState::AwaitingWakeWord);
    assert!(!a.is_active());
}
