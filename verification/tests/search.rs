use iced_palette::fuzzy_match;

#[test]
fn test_exact_match() {
    let result = fuzzy_match("save", "Save File").unwrap();
    assert!(result.score > 0);
    assert_eq!(result.indices, vec![0, 1, 2, 3]);
}

#[test]
fn test_fuzzy_match() {
    let result = fuzzy_match("sf", "Save File").unwrap();
    assert!(result.score > 0);
    assert_eq!(result.indices, vec![0, 5]); // S and F
}

#[test]
fn test_no_match() {
    assert!(fuzzy_match("xyz", "Save File").is_none());
}

#[test]
fn test_camel_case_boundary() {
    let result = fuzzy_match("gw", "getCurrentWindow").unwrap();
    // Should match 'g' at start and 'W' at word boundary
    assert!(result.indices.contains(&0)); // g
    assert!(result.indices.contains(&10)); // W
}

#[test]
fn test_snake_case_boundary() {
    let result = fuzzy_match("sf", "save_file").unwrap();
    assert!(result.score > 0);
}

#[test]
fn test_empty_pattern() {
    let result = fuzzy_match("", "anything").unwrap();
    assert_eq!(result.score, 0);
    assert!(result.indices.is_empty());
}

#[test]
fn test_consecutive_bonus() {
    let consecutive = fuzzy_match("sav", "save").unwrap();
    let scattered = fuzzy_match("sae", "save file").unwrap();
    // Consecutive matches should score higher
    assert!(consecutive.score > scattered.score);
}

#[test]
fn exact_match_score_is_pinned() {
    // s: +8 start, +10 boundary; a, v, e: +5 consecutive each; +10 found
    let result = fuzzy_match("save", "Save File").unwrap();
    assert_eq!(result.score, 43);
}

#[test]
fn scattered_match_score_is_pinned() {
    // s: +8 start, +10 boundary; a: +5 consecutive; e at index 3: gap of 1;
    // +10 found
    let result = fuzzy_match("sae", "save file").unwrap();
    assert_eq!(result.score, 32);
    assert_eq!(result.indices, vec![0, 1, 3]);
}

#[test]
fn camel_case_score_is_pinned() {
    // g: +8 start, +10 boundary; W at index 10: +10 boundary, gap of 9; +10
    let result = fuzzy_match("gw", "getCurrentWindow").unwrap();
    assert_eq!(result.score, 29);
    assert_eq!(result.indices, vec![0, 10]);
}

#[test]
fn snake_case_indices_follow_underscore() {
    // s: +8 start, +10 boundary; f at index 5: +10 boundary, gap of 4; +10
    let result = fuzzy_match("sf", "save_file").unwrap();
    assert_eq!(result.score, 34);
    assert_eq!(result.indices, vec![0, 5]);
}

#[test]
fn uppercase_pattern_matches_lowercase_text() {
    // the comparison folds the pattern too, not only the text
    let result = fuzzy_match("SAVE", "save").unwrap();
    assert_eq!(result.score, 43);
    assert_eq!(result.indices, vec![0, 1, 2, 3]);
}

#[test]
fn empty_pattern_matches_empty_text() {
    let result = fuzzy_match("", "").unwrap();
    assert_eq!(result.score, 0);
    assert!(result.indices.is_empty());
}

#[test]
fn pattern_longer_than_text_fails() {
    assert!(fuzzy_match("abc", "ab").is_none());
}

#[test]
fn out_of_order_pattern_fails() {
    // both characters occur, but not in pattern order
    assert!(fuzzy_match("fs", "save_file").is_none());
}

#[test]
fn multibyte_text_is_indexed_by_character() {
    // the match position counts characters, not bytes
    let result = fuzzy_match("w", "\u{00fc}ber wide").unwrap();
    assert_eq!(result.indices, vec![5]);
}
