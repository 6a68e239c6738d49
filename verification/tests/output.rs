use lace::output::{file_message, message, Output, HEADING_WIDTH, PRIMARY, PROMPT};
use lace::set_minimal;

#[test]
fn heading_is_set_to_the_right() {
    let line = message("Running", "emitted binary");
    assert_eq!(line.heading, "     Running");
    assert_eq!(line.text, "emitted binary");
    assert_eq!(format!("{} {}", line.heading, line.text), format!("{:>12} {}", "Running", "emitted binary"));
}

#[test]
fn heading_of_the_full_width_or_more() {
    assert_eq!(HEADING_WIDTH, 12);
    assert_eq!(message("Assembling..", "x").heading, "Assembling..");
    assert_eq!(message("Re-checking now", "x").heading, "Re-checking now");
    assert_eq!(message("Re-checking", "x").heading, " Re-checking");
    assert_eq!(message("", "").heading, "            ");
    assert_eq!(message("", "").text, "");
}

#[test]
fn heading_width_counts_codepoints() {
    let line = message("Prüfung", "größe");
    assert_eq!(line.heading, format!("{:>12}", "Prüfung"));
    assert_eq!(line.heading.chars().count(), 12);
    assert_eq!(line.text, "größe");
}

#[test]
fn file_message_names_the_target() {
    let line = file_message("Assembling", "examples/hello.asm");
    assert_eq!(line.heading, "  Assembling");
    assert_eq!(line.text, "target examples/hello.asm");
}

#[test]
fn minimal_output_can_be_set_and_unset() {
    let mut output = Output::new();
    assert!(!output.is_minimal());
    set_minimal(&mut output, true);
    assert!(output.is_minimal());
    assert!(output.minimal);
    set_minimal(&mut output, true);
    assert!(output.is_minimal());
    set_minimal(&mut output, false);
    assert!(!output.is_minimal());
}

#[test]
fn prompt_is_plain_in_minimal_output() {
    let mut output = Output::new();
    set_minimal(&mut output, true);
    assert_eq!(output.prompt(), PROMPT);
    assert_eq!(output.prompt(), "DEBUGGER> ");
}

#[test]
fn prompt_is_coloured_in_full_output() {
    let output = Output::new();
    assert_eq!(PRIMARY, "34");
    assert_eq!(output.prompt(), format!("\x1b[1;{}m{}\x1b[0m", PRIMARY, PROMPT));
}
