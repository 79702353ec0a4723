use murmure::engine::{ParakeetInferenceParams, TranscriptionResult};
use murmure::timestamp::{
    build_utterance_from_tokens, convert_timestamps, TimestampGranularity, TimestampedResult,
    TranscriptionSegment,
};

fn result(tokens: &[&str], timestamps: &[u32], text: &str) -> TimestampedResult {
    TimestampedResult {
        tokens: tokens.iter().map(|t| t.to_string()).collect(),
        timestamps: timestamps.to_vec(),
        text: text.to_string(),
    }
}

fn entries(v: &[TranscriptionSegment]) -> Vec<(String, u64, u64)> {
    v.iter().map(|e| (e.text.clone(), e.start, e.end)).collect()
}

fn e(text: &str, start: u64, end: u64) -> (String, u64, u64) {
    (text.to_string(), start, end)
}

#[test]
fn hello_world_example_word_granularity() {
    // The trailing "." has no boundary marker, so it extends the open word.
    let r = result(&["\u{2581}Hello", "\u{2581}world", "."], &[0, 300, 600], "Hello world.");
    let out = convert_timestamps(&r, TimestampGranularity::Word);
    assert_eq!(entries(&out), vec![e("Hello", 0, 300), e("world.", 300, 650)]);
}

#[test]
fn lone_punctuation_after_marker_is_its_own_word() {
    let r = result(&["\u{2581}Hello", "\u{2581}world", "\u{2581}."], &[0, 300, 600], "Hello world .");
    let out = convert_timestamps(&r, TimestampGranularity::Word);
    assert_eq!(entries(&out), vec![e("Hello", 0, 300), e("world", 300, 600), e(".", 600, 650)]);
}

#[test]
fn token_granularity_passes_tokens_through() {
    let r = result(&["\u{2581}Hi", " ", "x"], &[0, 100, 200], "Hi x");
    let out = convert_timestamps(&r, TimestampGranularity::Token);
    assert_eq!(
        entries(&out),
        vec![e("\u{2581}Hi", 0, 100), e(" ", 100, 200), e("x", 200, 250)]
    );
}

#[test]
fn token_granularity_pairs_only_timed_tokens() {
    let r = result(&["a", "b", "c"], &[10, 20], "abc");
    let out = convert_timestamps(&r, TimestampGranularity::Token);
    assert_eq!(entries(&out), vec![e("a", 10, 20), e("b", 20, 70)]);
}

#[test]
fn segment_granularity_splits_on_terminal_punctuation() {
    let r = result(
        &["\u{2581}Hello", "\u{2581}world", ".", "\u{2581}How", "\u{2581}are", "\u{2581}you", "?"],
        &[0, 100, 200, 300, 400, 500, 600],
        "Hello world. How are you?",
    );
    let out = convert_timestamps(&r, TimestampGranularity::Segment);
    assert_eq!(
        entries(&out),
        vec![e("Hello world.", 0, 300), e("How are you?", 300, 650)]
    );
}

#[test]
fn segment_without_punctuation_covers_everything() {
    let r = result(&["\u{2581}one", "\u{2581}two", "\u{2581}three"], &[0, 100, 200], "one two three");
    let out = convert_timestamps(&r, TimestampGranularity::Segment);
    assert_eq!(entries(&out), vec![e("one two three", 0, 250)]);
}

#[test]
fn segment_closes_at_end_after_punctuation() {
    let r = result(&["\u{2581}Stop", "!", "\u{2581}go"], &[0, 100, 200], "Stop! go");
    let out = convert_timestamps(&r, TimestampGranularity::Segment);
    assert_eq!(entries(&out), vec![e("Stop!", 0, 200), e("go", 200, 250)]);
}

#[test]
fn blank_tokens_are_skipped_in_words() {
    let r = result(&["\u{2581}a", "  ", "b"], &[0, 100, 200], "ab");
    let out = convert_timestamps(&r, TimestampGranularity::Word);
    assert_eq!(entries(&out), vec![e("ab", 0, 250)]);
}

#[test]
fn marker_only_word_is_dropped() {
    let r = result(&["\u{2581}", "\u{2581}x"], &[0, 100], "x");
    let out = convert_timestamps(&r, TimestampGranularity::Word);
    assert_eq!(entries(&out), vec![e("x", 100, 150)]);
}

#[test]
fn space_marker_starts_words() {
    let r = result(&[" good", " day"], &[5, 15], "good day");
    let out = convert_timestamps(&r, TimestampGranularity::Word);
    assert_eq!(entries(&out), vec![e("good", 5, 15), e("day", 15, 65)]);
}

#[test]
fn no_tokens_with_text_gives_one_untimed_segment() {
    let r = result(&[], &[], "hello there");
    let seg = convert_timestamps(&r, TimestampGranularity::Segment);
    assert_eq!(entries(&seg), vec![e("hello there", 0, 0)]);
    let words = convert_timestamps(&r, TimestampGranularity::Word);
    assert!(words.is_empty());
}

#[test]
fn fully_empty_input_gives_nothing() {
    let r = result(&[], &[], "   ");
    assert!(convert_timestamps(&r, TimestampGranularity::Segment).is_empty());
    assert!(convert_timestamps(&r, TimestampGranularity::Word).is_empty());
    assert!(convert_timestamps(&r, TimestampGranularity::Token).is_empty());
}

#[test]
fn word_and_segment_texts_agree_on_example() {
    let r = result(
        &["\u{2581}Hello", "\u{2581}world", ".", "\u{2581}How", "\u{2581}are", "\u{2581}you", "?"],
        &[0, 100, 200, 300, 400, 500, 600],
        "Hello world. How are you?",
    );
    let words: Vec<String> = convert_timestamps(&r, TimestampGranularity::Word)
        .into_iter()
        .map(|e| e.text)
        .collect();
    let segments: Vec<String> = convert_timestamps(&r, TimestampGranularity::Segment)
        .into_iter()
        .map(|e| e.text)
        .collect();
    assert_eq!(words.join(" "), segments.join(" "));
    assert_eq!(words.join(" "), "Hello world. How are you?");
}

#[test]
fn last_segment_ends_with_last_word() {
    let r = result(&["\u{2581}a", ".", "\u{2581}b", "\u{2581}c"], &[0, 10, 20, 30], "a. b c");
    let words = convert_timestamps(&r, TimestampGranularity::Word);
    let segments = convert_timestamps(&r, TimestampGranularity::Segment);
    assert!(!segments.is_empty());
    assert_eq!(segments.last().unwrap().end, words.last().unwrap().end);
    assert_eq!(segments.last().unwrap().end, 80);
}

#[test]
fn utterance_hierarchy_keeps_tokens() {
    let r = result(&["\u{2581}Hel", "lo", "\u{2581}you", "!"], &[0, 100, 200, 300], "Hello you!");
    let u = build_utterance_from_tokens(&r);
    assert_eq!(u.text, "Hello you!");
    assert_eq!(u.segments.len(), 1);
    let seg = &u.segments[0];
    assert_eq!(seg.text, "Hello you!");
    assert_eq!((seg.t_start, seg.t_end), (0, 350));
    assert_eq!(seg.words.len(), 2);
    assert_eq!(seg.words[0].text, "Hello");
    assert_eq!(seg.words[0].tokens.len(), 2);
    assert_eq!(seg.words[0].tokens[1].token_id, Some(1));
    assert_eq!(seg.words[1].text, "you!");
    assert_eq!((seg.words[1].t_start, seg.words[1].t_end), (200, 350));
}

#[test]
fn inference_params_default_to_tokens() {
    let p = ParakeetInferenceParams::default();
    assert_eq!(p.timestamp_granularity, TimestampGranularity::Token);
    assert_eq!(TimestampGranularity::default(), TimestampGranularity::Token);
    let _unused: Option<TranscriptionResult> = None;
}
