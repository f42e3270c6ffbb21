use talky_core::filter::{collapse_stutters, filter_transcription_output};
use talky_core::hallucination::{is_hallucination, is_repetitive_hallucination};

#[test]
fn test_filter_filler_words() {
    let text = "So um I was thinking uh about this";
    let result = filter_transcription_output(text);
    assert_eq!(result, "So I was thinking about this");
}

#[test]
fn test_filter_filler_words_case_insensitive() {
    let text = "UM this is UH a test";
    let result = filter_transcription_output(text);
    assert_eq!(result, "this is a test");
}

#[test]
fn test_filter_filler_words_with_punctuation() {
    let text = "Well, um, I think, uh. that's right";
    let result = filter_transcription_output(text);
    assert_eq!(result, "Well, I think, that's right");
}

#[test]
fn test_filter_cleans_whitespace() {
    let text = "Hello    world   test";
    let result = filter_transcription_output(text);
    assert_eq!(result, "Hello world test");
}

#[test]
fn test_filter_trims() {
    let text = "  Hello world  ";
    let result = filter_transcription_output(text);
    assert_eq!(result, "Hello world");
}

#[test]
fn test_filter_combined() {
    let text = "  Um, so I was, uh, thinking about this  ";
    let result = filter_transcription_output(text);
    assert_eq!(result, "so I was, thinking about this");
}

#[test]
fn test_filter_preserves_valid_text() {
    let text = "This is a completely normal sentence.";
    let result = filter_transcription_output(text);
    assert_eq!(result, "This is a completely normal sentence.");
}

#[test]
fn test_filter_stutter_short_words() {
    let text = "I I I I think so so so so";
    let result = filter_transcription_output(text);
    assert_eq!(result, "I think so");
}

#[test]
fn test_filter_stutter_preserves_two_repetitions() {
    let text = "no no is fine";
    let result = filter_transcription_output(text);
    assert_eq!(result, "no no is fine");
}

#[test]
fn test_filter_stutter_four_letter_words() {
    // 4-letter words like "Yeah" are collapsed too
    let text = "Yeah Yeah Yeah Yeah okay";
    let result = filter_transcription_output(text);
    assert_eq!(result, "Yeah okay");
}

#[test]
fn test_filter_stutter_what() {
    let text = "what what what what happened";
    let result = filter_transcription_output(text);
    assert_eq!(result, "what happened");
}

#[test]
fn test_filter_stutter_well() {
    let text = "well well well I think";
    let result = filter_transcription_output(text);
    assert_eq!(result, "well I think");
}

#[test]
fn test_collapse_stutters_alone() {
    assert_eq!(collapse_stutters("wh wh wh wh why"), "wh why");
    assert_eq!(collapse_stutters("no no is fine"), "no no is fine");
    assert_eq!(collapse_stutters("thinking thinking thinking on"), "thinking thinking thinking on");
    assert_eq!(collapse_stutters("   "), "   ");
}

#[test]
fn test_thank_you_spam_rejected() {
    assert!(is_hallucination("Thank you. Thank you. Thank you."));
    assert_eq!(filter_transcription_output("Thank you. Thank you. Thank you."), "");
}

#[test]
fn test_single_greetings_rejected() {
    assert!(is_hallucination("Thank you"));
    assert!(is_hallucination("thanks."));
    assert!(is_hallucination("Gracias"));
    assert!(is_hallucination("goodbye!"));
    assert!(is_hallucination("Yeah,"));
}

#[test]
fn test_punctuation_only_rejected() {
    assert!(is_hallucination("..."));
    assert!(is_hallucination("?!"));
}

#[test]
fn test_bracketed_sound_rejected() {
    assert!(is_hallucination("[music playing]"));
    assert!(is_hallucination("[APPLAUSE]"));
}

#[test]
fn test_subtitle_and_url_artifacts_rejected() {
    assert!(is_hallucination("Subtitles by the community"));
    assert!(is_hallucination("captions: someone"));
    assert!(is_hallucination("www.example.com is great"));
    assert!(is_hallucination("https://example.org page"));
}

#[test]
fn test_hello_and_okay_spam_rejected() {
    assert!(is_hallucination("Hello hello"));
    assert!(is_hallucination("Okay okay okay"));
    assert!(!is_hallucination("Okay okay let us go now friends"));
}

#[test]
fn test_short_text_rejected() {
    assert!(is_hallucination(""));
    assert!(is_hallucination("a"));
    assert!(is_hallucination("ab"));
    assert!(!is_hallucination("a b"));
}

#[test]
fn test_repetitive_phrases_rejected() {
    assert!(is_repetitive_hallucination(
        "let us go let us go let us go let us go"
    ));
    assert!(!is_repetitive_hallucination(
        "we should go to the park and then come back home"
    ));
    assert!(is_hallucination("let us go let us go let us go let us go"));
}

#[test]
fn test_hallucination_stable_under_trim() {
    for t in [
        "Thank you",
        "  Thank you  ",
        "a perfectly ordinary report about the meeting",
        "   a perfectly ordinary report about the meeting \n",
    ] {
        assert_eq!(is_hallucination(t), is_hallucination(t.trim()));
    }
}

#[test]
fn test_filter_is_idempotent_on_samples() {
    for t in [
        "So um I was thinking uh about this",
        "w wh wh wh wh why",
        "Thank you. Thank you.",
        "  Um, so I was, uh, thinking about this  ",
        "This is a completely normal sentence.",
    ] {
        let once = filter_transcription_output(t);
        let twice = filter_transcription_output(&once);
        assert_eq!(once, twice);
    }
}
