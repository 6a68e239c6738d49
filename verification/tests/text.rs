use lace::text::{count_chars_bytes, insert_char_index, remove_char_index};

#[test]
fn count_ascii() {
    assert_eq!(count_chars_bytes("hello", 0), (0, 5));
    assert_eq!(count_chars_bytes("hello", 3), (3, 5));
    assert_eq!(count_chars_bytes("hello", 5), (5, 5));
}

#[test]
fn count_empty() {
    assert_eq!(count_chars_bytes("", 0), (0, 0));
    assert_eq!(count_chars_bytes("", 4), (0, 0));
}

#[test]
fn count_beyond_the_end_gives_byte_length() {
    assert_eq!(count_chars_bytes("héllo", 9), (6, 5));
}

#[test]
fn count_multibyte() {
    // 'h' 1 byte, 'é' 2 bytes, '€' 3 bytes, '😀' 4 bytes, '!' 1 byte
    let text = "hé€😀!";
    assert_eq!(count_chars_bytes(text, 0), (0, 5));
    assert_eq!(count_chars_bytes(text, 1), (1, 5));
    assert_eq!(count_chars_bytes(text, 2), (3, 5));
    assert_eq!(count_chars_bytes(text, 3), (6, 5));
    assert_eq!(count_chars_bytes(text, 4), (10, 5));
    assert_eq!(count_chars_bytes(text, 5), (11, 5));
}

#[test]
fn insert_at_start_middle_end() {
    let mut text = String::from("ac");
    insert_char_index(&mut text, 1, 'b');
    assert_eq!(text, "abc");
    insert_char_index(&mut text, 0, '>');
    assert_eq!(text, ">abc");
    insert_char_index(&mut text, 4, '<');
    assert_eq!(text, ">abc<");
}

#[test]
fn insert_into_empty() {
    let mut text = String::new();
    insert_char_index(&mut text, 0, 'é');
    assert_eq!(text, "é");
}

#[test]
fn insert_counts_codepoints_not_bytes() {
    let mut text = String::from("é€😀");
    insert_char_index(&mut text, 2, 'x');
    assert_eq!(text, "é€x😀");
    insert_char_index(&mut text, 4, 'ü');
    assert_eq!(text, "é€x😀ü");
}

#[test]
fn remove_returns_the_codepoint() {
    let mut text = String::from("hé€😀!");
    assert_eq!(remove_char_index(&mut text, 2), '€');
    assert_eq!(text, "hé😀!");
    assert_eq!(remove_char_index(&mut text, 0), 'h');
    assert_eq!(text, "é😀!");
    assert_eq!(remove_char_index(&mut text, 2), '!');
    assert_eq!(text, "é😀");
    assert_eq!(remove_char_index(&mut text, 1), '😀');
    assert_eq!(remove_char_index(&mut text, 0), 'é');
    assert_eq!(text, "");
}

#[test]
fn insert_then_remove_restores() {
    let mut text = String::from("wörld");
    insert_char_index(&mut text, 3, '€');
    assert_eq!(text, "wör€ld");
    assert_eq!(remove_char_index(&mut text, 3), '€');
    assert_eq!(text, "wörld");
}
