use talky_core::correction::{apply_custom_words, extract_punctuation, preserve_case_pattern};
use talky_core::dedup::is_duplicate_segment;
use talky_core::overlap::remove_prefix_overlap;

#[test]
fn test_apply_custom_words_exact_match() {
    let text = "hello world";
    let custom_words = vec!["Hello".to_string(), "World".to_string()];
    let result = apply_custom_words(text, &custom_words, 500);
    assert_eq!(result, "Hello World");
}

#[test]
fn test_apply_custom_words_fuzzy_match() {
    let text = "helo wrold";
    let custom_words = vec!["hello".to_string(), "world".to_string()];
    let result = apply_custom_words(text, &custom_words, 500);
    assert_eq!(result, "hello world");
}

#[test]
fn test_preserve_case_pattern() {
    assert_eq!(preserve_case_pattern("HELLO", "world"), "WORLD");
    assert_eq!(preserve_case_pattern("Hello", "world"), "World");
    assert_eq!(preserve_case_pattern("hello", "WORLD"), "WORLD");
}

#[test]
fn test_extract_punctuation() {
    assert_eq!(extract_punctuation("hello"), ("", ""));
    assert_eq!(extract_punctuation("!hello?"), ("!", "?"));
    assert_eq!(extract_punctuation("...hello..."), ("...", "..."));
}

#[test]
fn test_empty_custom_words() {
    let text = "hello world";
    let custom_words = vec![];
    let result = apply_custom_words(text, &custom_words, 500);
    assert_eq!(result, "hello world");
}

#[test]
fn test_rejects_common_word_to_different_length_custom() {
    // "order" (5 chars) should NOT become "Zephyra" (7 chars)
    // Length ratio 5/7 = 0.71 < 0.8, so phonetic boost doesn't apply
    let result = apply_custom_words("we placed an order", &vec!["Zephyra".to_string()], 210);
    assert_eq!(result, "we placed an order");
}

#[test]
fn test_rejects_argument_to_sphinx() {
    // "argument" (8 chars) should NOT become "SPHINX" (6 chars)
    // Length ratio 6/8 = 0.75 < 0.8, so phonetic boost doesn't apply
    let result = apply_custom_words("valid argument", &vec!["SPHINX".to_string()], 210);
    assert_eq!(result, "valid argument");
}

#[test]
fn test_matches_sphink_to_sphinx() {
    // "sphink" (6 chars) SHOULD become "SPHINX" (6 chars)
    // Length ratio 6/6 = 1.0 > 0.8, phonetic boost applies
    let result = apply_custom_words("the sphink system", &vec!["SPHINX".to_string()], 210);
    assert_eq!(result, "the SPHINX system");
}

#[test]
fn test_custom_word_keeps_punctuation_and_case() {
    let result = apply_custom_words("Meeting in zefyura?", &vec!["zephyra".to_string()], 600);
    assert_eq!(result, "Meeting in zephyra?");
    // the trailing mark keeps the token from counting as all-uppercase,
    // so only the first letter is capitalised
    let result = apply_custom_words("ZEFYURA!", &vec!["zephyra".to_string()], 600);
    assert_eq!(result, "Zephyra!");
    let result = apply_custom_words("ZEFYURA", &vec!["zephyra".to_string()], 600);
    assert_eq!(result, "ZEPHYRA");
}

#[test]
fn test_is_duplicate_segment_identical() {
    // Identical text with overlapping time should be duplicate
    assert!(is_duplicate_segment(
        "Hello world",
        1000,
        2000,
        "Hello world",
        1000,
        2000,
        750,
        500
    ));
}

#[test]
fn test_is_duplicate_segment_similar() {
    // Similar text (minor differences) with overlapping time
    assert!(is_duplicate_segment(
        "It sounds like we're in a good spot",
        1000,
        3000,
        "It sounds like we're in a good spot, right?",
        1000,
        3000,
        750,
        500
    ));
}

#[test]
fn test_is_duplicate_segment_different_text() {
    // Different text should not be duplicate
    assert!(!is_duplicate_segment(
        "Hello world",
        1000,
        2000,
        "Goodbye everyone",
        1000,
        2000,
        750,
        500
    ));
}

#[test]
fn test_is_duplicate_segment_no_time_overlap() {
    // Identical text but no time overlap should not be duplicate
    assert!(!is_duplicate_segment(
        "Hello world",
        1000,
        2000,
        "Hello world",
        3000,
        4000,
        750,
        500
    ));
}

#[test]
fn test_is_duplicate_segment_partial_overlap() {
    // Identical text with partial time overlap (>500ms) should be duplicate
    assert!(is_duplicate_segment(
        "Hello world",
        1000,
        3000,
        "Hello world",
        2000,
        4000,
        750,
        500
    ));
}

#[test]
fn test_is_duplicate_segment_insufficient_overlap() {
    // Identical text but overlap < threshold (400ms < 500ms)
    assert!(!is_duplicate_segment(
        "Hello world",
        1000,
        2000,
        "Hello world",
        1600,
        3000,
        750,
        500
    ));
}

#[test]
fn test_is_duplicate_segment_empty_text() {
    // Empty text should not be duplicate
    assert!(!is_duplicate_segment("", 1000, 2000, "Hello", 1000, 2000, 750, 500));
    assert!(!is_duplicate_segment("Hello", 1000, 2000, "", 1000, 2000, 750, 500));
}

#[test]
fn test_is_duplicate_segment_case_insensitive() {
    // Should match case-insensitively
    assert!(is_duplicate_segment(
        "HELLO WORLD",
        1000,
        2000,
        "hello world",
        1000,
        2000,
        750,
        500
    ));
}

#[test]
fn test_remove_prefix_overlap_basic() {
    assert_eq!(remove_prefix_overlap("world this is new", "hello world this", 2), "is new");
}

#[test]
fn test_remove_prefix_overlap_no_match_unchanged() {
    assert_eq!(
        remove_prefix_overlap("completely different text", "hello world this", 2),
        "completely different text"
    );
}

#[test]
fn test_remove_prefix_overlap_case_insensitive() {
    assert_eq!(remove_prefix_overlap("World This is new", "hello world this", 2), "is new");
}

#[test]
fn test_remove_prefix_overlap_empty_sides() {
    assert_eq!(remove_prefix_overlap("", "hello world", 2), "");
    assert_eq!(remove_prefix_overlap("hello world", "", 2), "hello world");
}

#[test]
fn test_remove_prefix_overlap_prefers_longest() {
    // both the two-word and the three-word overlap match; the longest wins
    assert_eq!(remove_prefix_overlap("a b c d", "x a b c", 2), "d");
}
