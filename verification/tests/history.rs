use lace::history::{HistoryPosition, TerminalHistory};

fn lines(entries: &[&str]) -> Vec<String> {
    entries.iter().map(|entry| entry.to_string()).collect()
}

fn entries(history: &TerminalHistory) -> Vec<String> {
    (0..history.len()).map(|index| history.entry(index).to_string()).collect()
}

#[test]
fn new_history_is_on_a_fresh_line() {
    let history = TerminalHistory::new(lines(&["one", "two"]));
    assert_eq!(history.len(), 2);
    assert_eq!(history.position(), HistoryPosition::ComposingNew);
    assert_eq!(history.entry(0), "one");
    assert_eq!(history.entry(1), "two");
    assert_eq!(history.current(), None);
}

#[test]
fn push_appends_to_an_empty_history() {
    let mut history = TerminalHistory::new(Vec::new());
    assert_eq!(history.push("step".to_string()), Some("step\n".to_string()));
    assert_eq!(entries(&history), lines(&["step"]));
}

#[test]
fn push_skips_a_consecutive_repeat() {
    let mut history = TerminalHistory::new(Vec::new());
    assert_eq!(history.push("step".to_string()), Some("step\n".to_string()));
    assert_eq!(history.push("step".to_string()), None);
    assert_eq!(entries(&history), lines(&["step"]));
}

#[test]
fn push_keeps_separated_repeats() {
    let mut history = TerminalHistory::new(Vec::new());
    assert_eq!(history.push("step".to_string()), Some("step\n".to_string()));
    assert_eq!(history.push("continue".to_string()), Some("continue\n".to_string()));
    assert_eq!(history.push("step".to_string()), Some("step\n".to_string()));
    assert_eq!(entries(&history), lines(&["step", "continue", "step"]));
}

#[test]
fn push_compares_with_the_newest_loaded_entry() {
    let mut history = TerminalHistory::new(lines(&["a", "b"]));
    assert_eq!(history.push("b".to_string()), None);
    assert_eq!(history.push("a".to_string()), Some("a\n".to_string()));
    assert_eq!(entries(&history), lines(&["a", "b", "a"]));
}

#[test]
fn push_returns_to_the_fresh_line() {
    let mut history = TerminalHistory::new(lines(&["a", "b"]));
    assert!(history.move_older());
    assert_eq!(history.position(), HistoryPosition::Viewing(1));
    history.push("b".to_string());
    assert_eq!(history.position(), HistoryPosition::ComposingNew);
}

#[test]
fn move_older_walks_to_the_oldest_entry() {
    let mut history = TerminalHistory::new(lines(&["a", "b", "c"]));
    assert!(history.move_older());
    assert_eq!(history.position(), HistoryPosition::Viewing(2));
    assert_eq!(history.current(), Some("c"));
    assert!(history.move_older());
    assert!(history.move_older());
    assert_eq!(history.position(), HistoryPosition::Viewing(0));
    assert_eq!(history.current(), Some("a"));
    assert!(!history.move_older());
    assert_eq!(history.position(), HistoryPosition::Viewing(0));
}

#[test]
fn move_older_on_an_empty_history_stays() {
    let mut history = TerminalHistory::new(Vec::new());
    assert!(!history.move_older());
    assert_eq!(history.position(), HistoryPosition::ComposingNew);
}

#[test]
fn move_newer_reaches_the_fresh_line() {
    let mut history = TerminalHistory::new(lines(&["a", "b"]));
    history.move_older();
    history.move_older();
    assert_eq!(history.position(), HistoryPosition::Viewing(0));
    assert!(history.move_newer());
    assert_eq!(history.position(), HistoryPosition::Viewing(1));
    assert!(history.move_newer());
    assert_eq!(history.position(), HistoryPosition::ComposingNew);
    assert!(!history.move_newer());
    assert_eq!(history.position(), HistoryPosition::ComposingNew);
}

#[test]
fn reset_returns_to_the_fresh_line() {
    let mut history = TerminalHistory::new(lines(&["a"]));
    history.move_older();
    history.reset();
    assert_eq!(history.position(), HistoryPosition::ComposingNew);
    assert_eq!(entries(&history), lines(&["a"]));
}
