use voicepipe::transcript::{clean_segment, clean_transcript, split_utterances};

#[test]
fn markers_and_padding_are_removed_from_a_segment() {
    assert_eq!(clean_segment(" [noise] hello [silence] "), "hello");
    assert_eq!(clean_segment("[noise]"), "");
    assert_eq!(clean_segment("plain words"), "plain words");
    assert_eq!(clean_segment("   "), "");
}

#[test]
fn marker_removal_is_a_single_left_to_right_pass() {
    assert_eq!(clean_segment("[noi[noise]se]"), "[noise]");
}

#[test]
fn segments_join_with_single_spaces_and_empties_vanish() {
    let segments: Vec<String> = vec![
        "[noise]".to_string(),
        " hi there ".to_string(),
        "[silence] ok".to_string(),
    ];
    assert_eq!(clean_transcript(&segments), "hi there ok");
}

#[test]
fn an_empty_segment_list_gives_an_empty_transcript() {
    let segments: Vec<String> = Vec::new();
    assert_eq!(clean_transcript(&segments), "");
}

#[test]
fn replies_split_at_sentence_punctuation() {
    let out = split_utterances("Hello there. How are you? I am fine!");
    assert_eq!(out, vec!["Hello there", "How are you", "I am fine"]);
}

#[test]
fn empty_chunks_between_punctuation_are_skipped() {
    let out = split_utterances("...");
    assert_eq!(out, Vec::<String>::new());
    let spaced = split_utterances(" spaced . out ");
    assert_eq!(spaced, vec!["spaced", "out"]);
}

#[test]
fn a_reply_without_punctuation_is_one_utterance() {
    let out = split_utterances("no punctuation here");
    assert_eq!(out, vec!["no punctuation here"]);
}
