use lace::word::{find_word_back, find_word_next, is_blank_str};

#[test]
fn next_word_after_space() {
    assert_eq!(find_word_next("abc def", 0, false), 4);
}

#[test]
fn next_word_at_punctuation() {
    assert_eq!(find_word_next("abc+def", 0, false), 3);
}

#[test]
fn previous_word_from_end() {
    assert_eq!(find_word_back("abc def", 7, false), 4);
}

#[test]
fn next_word_full_word_ignores_punctuation() {
    assert_eq!(find_word_next("abc+def", 0, true), 7);
    assert_eq!(find_word_next("abc+def ghi", 0, true), 8);
}

#[test]
fn next_word_from_punctuation() {
    assert_eq!(find_word_next("abc+def", 3, false), 4);
    assert_eq!(find_word_next("a+-b", 1, false), 3);
}

#[test]
fn next_word_on_empty_text() {
    assert_eq!(find_word_next("", 0, false), 0);
    assert_eq!(find_word_next("", 5, true), 0);
}

#[test]
fn next_word_at_or_past_the_end() {
    assert_eq!(find_word_next("abc", 3, false), 3);
    assert_eq!(find_word_next("abc", 10, false), 3);
}

#[test]
fn next_word_from_whitespace() {
    assert_eq!(find_word_next("  abc", 0, false), 2);
    assert_eq!(find_word_next("a \t b", 1, false), 4);
    assert_eq!(find_word_next("   ", 0, false), 3);
}

#[test]
fn next_word_from_inside_a_word() {
    assert_eq!(find_word_next("abc  def", 1, false), 5);
    assert_eq!(find_word_next("abc", 0, false), 3);
}

#[test]
fn next_word_with_trailing_whitespace() {
    // After an alphanumeric word the whitespace is a change of class.
    assert_eq!(find_word_next("abc   ", 0, false), 3);
    assert_eq!(find_word_next("abc   ", 0, true), 6);
    assert_eq!(find_word_next("+++   ", 0, false), 6);
}

#[test]
fn next_word_counts_codepoints() {
    assert_eq!(find_word_next("héllo wörld", 0, false), 6);
    assert_eq!(find_word_next("日本語 テキスト", 1, false), 4);
    assert_eq!(find_word_next("α\u{a0}β", 0, false), 2);
}

#[test]
fn previous_word_at_the_start() {
    assert_eq!(find_word_back("abc def", 0, false), 0);
    assert_eq!(find_word_back("abc def", 1, false), 0);
    assert_eq!(find_word_back("", 0, false), 0);
}

#[test]
fn previous_word_skips_whitespace() {
    assert_eq!(find_word_back("abc def", 4, false), 0);
    assert_eq!(find_word_back("abc   def", 6, false), 0);
    assert_eq!(find_word_back("a  ", 3, false), 0);
    assert_eq!(find_word_back("ab cd  ", 7, false), 3);
}

#[test]
fn previous_word_at_punctuation() {
    assert_eq!(find_word_back("abc+def", 7, false), 4);
    assert_eq!(find_word_back("abc+def", 4, false), 3);
    assert_eq!(find_word_back("abc+def", 3, false), 0);
    assert_eq!(find_word_back("abc+def", 7, true), 0);
}

#[test]
fn previous_word_inside_a_word() {
    assert_eq!(find_word_back("abc def", 6, false), 4);
    assert_eq!(find_word_back("abc def", 5, false), 4);
    assert_eq!(find_word_back("abc def", 2, false), 0);
}

#[test]
fn previous_word_counts_codepoints() {
    assert_eq!(find_word_back("héllo wörld", 11, false), 6);
    assert_eq!(find_word_back("héllo wörld", 6, false), 0);
}

#[test]
fn blank_lines() {
    assert!(is_blank_str(""));
    assert!(is_blank_str("   "));
    assert!(is_blank_str(" \t\u{a0}\u{3000}"));
    assert!(!is_blank_str("  a "));
    assert!(!is_blank_str(";"));
}
