use murmure::dictionary::{fix_transcription_with_codes, phonetic_codes_match, split_whitespace_words};

fn strings(v: &[&str]) -> Vec<String> {
    v.iter().map(|s| s.to_string()).collect()
}

#[test]
fn splits_on_any_whitespace() {
    assert_eq!(split_whitespace_words("  hello   big\tworld \n"), strings(&["hello", "big", "world"]));
    assert!(split_whitespace_words("").is_empty());
    assert!(split_whitespace_words(" \u{3000} ").is_empty());
}

#[test]
fn codes_match_on_a_shared_alternative() {
    assert!(phonetic_codes_match("abc|def", "xyz|def"));
    assert!(!phonetic_codes_match("abc|def", "ab|de"));
    assert!(phonetic_codes_match("abc", "abc"));
}

#[test]
fn matching_word_is_replaced_everywhere() {
    let t = "I love mermur and mermur";
    let words = split_whitespace_words(t);
    assert_eq!(words.len(), 5);
    let codes = strings(&["i", "lof", "mirmur", "ant", "mirmur"]);
    let out = fix_transcription_with_codes(t, &codes, &strings(&["Murmure"]), &strings(&["mirmur|murmur"]));
    assert_eq!(out, "I love Murmure and Murmure");
}

#[test]
fn replacement_also_hits_inside_other_words() {
    let out = fix_transcription_with_codes("a cat", &strings(&["x", "y"]), &strings(&["the"]), &strings(&["x"]));
    assert_eq!(out, "the cthet");
}

#[test]
fn no_match_or_empty_dictionary_keeps_text() {
    let t = "hello world";
    let codes = strings(&["h", "w"]);
    assert_eq!(fix_transcription_with_codes(t, &codes, &strings(&["Bye"]), &strings(&["b"])), t);
    assert_eq!(fix_transcription_with_codes(t, &codes, &Vec::new(), &Vec::new()), t);
}
