use lace::history::TerminalHistory;
use lace::key::Key;
use lace::records::{read_file, record};
use lace::storage::HistoryFileError;
use lace::terminal::{KeyOutcome, Terminal};

#[test]
fn record_ends_in_a_line_feed() {
    assert_eq!(record("step"), "step\n");
    assert_eq!(record(""), "\n");
    assert_eq!(record("é€ 😀"), "é€ 😀\n");
}

#[test]
fn read_without_a_file() {
    let loaded = read_file(None, true);
    assert!(loaded.lines.is_empty());
    assert_eq!(loaded.warning, None);
}

#[test]
fn read_an_empty_file() {
    let loaded = read_file(Some(b""), true);
    assert!(loaded.lines.is_empty());
    assert_eq!(loaded.warning, None);
}

#[test]
fn read_records() {
    let loaded = read_file(Some(b"step\ncontinue\nbreak add 0x3000\n"), true);
    assert_eq!(loaded.lines, vec!["step", "continue", "break add 0x3000"]);
    assert_eq!(loaded.warning, None);
}

#[test]
fn read_a_last_record_without_line_feed() {
    let loaded = read_file(Some(b"step\ncontinue"), true);
    assert_eq!(loaded.lines, vec!["step", "continue"]);
    assert_eq!(loaded.warning, None);
}

#[test]
fn read_empty_records() {
    let loaded = read_file(Some(b"\n\nstep\n\n"), true);
    assert_eq!(loaded.lines, vec!["", "", "step", ""]);
    assert_eq!(loaded.warning, None);
}

#[test]
fn read_drops_a_carriage_return_before_the_line_feed() {
    let loaded = read_file(Some(b"step\r\n\r\ncont\rinue\r\r\nlast\r"), true);
    assert_eq!(loaded.lines, vec!["step", "", "cont\rinue\r", "last\r"]);
    assert_eq!(loaded.warning, None);
}

#[test]
fn read_multibyte_records() {
    let loaded = read_file(Some("é€\n😀 x\n".as_bytes()), true);
    assert_eq!(loaded.lines, vec!["é€", "😀 x"]);
    assert_eq!(loaded.warning, None);
}

#[test]
fn read_stops_at_malformed_text() {
    let loaded = read_file(Some(b"step\ncontinue\n\xff\xfe\nlater\n"), true);
    assert_eq!(loaded.lines, vec!["step", "continue"]);
    assert_eq!(loaded.warning, Some(HistoryFileError::ReadFailed));
}

#[test]
fn read_stops_at_a_malformed_first_record() {
    let loaded = read_file(Some(b"\xc3\nstep\n"), true);
    assert!(loaded.lines.is_empty());
    assert_eq!(loaded.warning, Some(HistoryFileError::ReadFailed));
}

#[test]
fn read_stops_at_a_truncated_codepoint() {
    let loaded = read_file(Some(b"ok\n\xe2\x82"), true);
    assert_eq!(loaded.lines, vec!["ok"]);
    assert_eq!(loaded.warning, Some(HistoryFileError::ReadFailed));
}

#[test]
fn read_rejects_surrogates_and_overlong_forms() {
    let loaded = read_file(Some(b"a\n\xed\xa0\x80\n"), true);
    assert_eq!(loaded.lines, vec!["a"]);
    assert_eq!(loaded.warning, Some(HistoryFileError::ReadFailed));
    let loaded = read_file(Some(b"a\n\xc0\x8a\n"), true);
    assert_eq!(loaded.lines, vec!["a"]);
    assert_eq!(loaded.warning, Some(HistoryFileError::ReadFailed));
}

#[test]
fn read_of_a_file_that_broke_off() {
    let loaded = read_file(Some(b"step\ncontinue\nbrea"), false);
    assert_eq!(loaded.lines, vec!["step", "continue"]);
    assert_eq!(loaded.warning, Some(HistoryFileError::ReadFailed));
    let loaded = read_file(Some(b"step\ncontinue\n"), false);
    assert_eq!(loaded.lines, vec!["step", "continue"]);
    assert_eq!(loaded.warning, Some(HistoryFileError::ReadFailed));
    let loaded = read_file(Some(b"ste"), false);
    assert!(loaded.lines.is_empty());
    assert_eq!(loaded.warning, Some(HistoryFileError::ReadFailed));
    let loaded = read_file(Some(b""), false);
    assert!(loaded.lines.is_empty());
    assert_eq!(loaded.warning, Some(HistoryFileError::ReadFailed));
    let loaded = read_file(Some(b"a\n\xff\nb\nc"), false);
    assert_eq!(loaded.lines, vec!["a"]);
    assert_eq!(loaded.warning, Some(HistoryFileError::ReadFailed));
    let loaded = read_file(None, false);
    assert!(loaded.lines.is_empty());
    assert_eq!(loaded.warning, None);
}

#[test]
fn history_round_trip() {
    let mut history = TerminalHistory::new(Vec::new());
    let mut file: Vec<u8> = Vec::new();
    for line in ["step", "step", "é€ 😀", "", "break;continue", "step", "a\rb"] {
        if let Some(text) = history.push(line.to_string()) {
            assert_eq!(text, record(line));
            file.extend_from_slice(text.as_bytes());
        }
    }
    let loaded = read_file(Some(&file), true);
    assert_eq!(loaded.warning, None);
    assert_eq!(loaded.lines, vec!["step", "é€ 😀", "", "break;continue", "step", "a\rb"]);
    let restored = TerminalHistory::new(loaded.lines);
    assert_eq!(restored.len(), history.len());
    for index in 0..history.len() {
        assert_eq!(restored.entry(index), history.entry(index));
    }
}

#[test]
fn round_trip_over_two_sessions() {
    let mut file: Vec<u8> = Vec::new();
    let mut history = TerminalHistory::new(read_file(Some(&file), true).lines);
    for line in ["one", "two"] {
        if let Some(text) = history.push(line.to_string()) {
            assert_eq!(text, record(line));
            file.extend_from_slice(text.as_bytes());
        }
    }
    let mut history = TerminalHistory::new(read_file(Some(&file), true).lines);
    for line in ["two", "three"] {
        if let Some(text) = history.push(line.to_string()) {
            assert_eq!(text, record(line));
            file.extend_from_slice(text.as_bytes());
        }
    }
    assert_eq!(file, b"one\ntwo\nthree\n");
    assert_eq!(read_file(Some(&file), true).lines, vec!["one", "two", "three"]);
}

#[test]
fn typed_lines_come_back_from_the_file() {
    let mut terminal = Terminal::new(TerminalHistory::new(Vec::new()));
    let mut file: Vec<u8> = Vec::new();
    for line in ["break add 0x3000", "step;step", "step;step", "\u{a0}é€ 😀 "] {
        terminal.begin_line();
        for ch in line.chars() {
            terminal.handle_key(Key::Char(ch));
        }
        // Control codes do not reach the line.
        terminal.handle_key(Key::Char('\n'));
        terminal.handle_key(Key::Char('\r'));
        assert_eq!(terminal.handle_key(Key::Enter), KeyOutcome::Submit);
        if let Some(text) = terminal.finish_line() {
            file.extend_from_slice(text.as_bytes());
        }
        while !terminal.needs_line() {
            terminal.get_next_command();
        }
    }
    let loaded = read_file(Some(&file), true);
    assert_eq!(loaded.warning, None);
    assert_eq!(loaded.lines, vec!["break add 0x3000", "step;step", "\u{a0}é€ 😀 "]);
    for index in 0..terminal.history().len() {
        assert_eq!(terminal.history().entry(index), loaded.lines[index]);
    }
}
