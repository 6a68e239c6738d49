//! What the prompt and the status lines of the program look like.

use vstd::prelude::*;
use vstd::string::*;

verus! {

/// The prompt that stands before the line.
pub const PROMPT: &'static str = "DEBUGGER> ";

/// Code of the colour in which the prompt is written.
pub const PRIMARY: &'static str = "34";

/// How output is written.
#[derive(Clone, Copy, Debug, PartialEq, Eq)]
pub struct Output {
    /// Whether output is kept minimal: plain text without colour.
    pub minimal: bool,
}

/// The prompt as it is written to the terminal: plain in minimal output,
/// otherwise in bold and in the prompt's colour.
pub open spec fn prompt_text(minimal: bool) -> Seq<char> {
    if minimal {
        PROMPT@
    } else {
        "\x1b[1;"@ + PRIMARY@ + "m"@ + PROMPT@ + "\x1b[0m"@
    }
}

/// The terminal column of the cursor that stands at codepoint `cursor` of
/// the line, after the prompt. Columns wrap at the range of `u16`.
pub open spec fn cursor_column(cursor: nat) -> nat {
    (PROMPT@.len() + cursor) % 0x1_0000
}

/// The prompt takes ten columns.
pub proof fn lemma_prompt_width()
    ensures
        PROMPT@.len() == 10,
{
    reveal_strlit("DEBUGGER> ");
}

impl Output {
    /// Output that is not minimal.
    pub fn new() -> (output: Self)
        ensures
            !output.minimal,
    {
        Output { minimal: false }
    }

    /// Whether output is minimal.
    pub fn is_minimal(&self) -> (minimal: bool)
        ensures
            minimal == self.minimal,
    {
        self.minimal
    }

    /// The prompt as it is written to the terminal.
    pub fn prompt(&self) -> (text: String)
        ensures
            text@ == prompt_text(self.minimal),
    {
        if self.minimal {
            String::from_str(PROMPT)
        } else {
            let mut text = String::from_str("\x1b[1;");
            text.append(PRIMARY);
            text.append("m");
            text.append(PROMPT);
            text.append("\x1b[0m");
            text
        }
    }
}

/// Number of columns that the heading of a status line is filled to.
pub const HEADING_WIDTH: usize = 12;

/// A status line: a heading and a text. The line is written as the
/// heading, a space and the text; the heading may be coloured.
pub struct StatusLine {
    /// The heading, filled with spaces on its left to the width of headings.
    pub heading: String,
    /// The text.
    pub text: String,
}

/// `count` spaces.
pub open spec fn spaces(count: int) -> Seq<char> {
    Seq::new(count as nat, |i: int| ' ')
}

/// `heading` set to the right in the width of headings: with spaces on its
/// left where it has fewer codepoints than the width, and as it is otherwise.
pub open spec fn padded(heading: Seq<char>) -> Seq<char> {
    if heading.len() < HEADING_WIDTH {
        spaces(HEADING_WIDTH - heading.len()) + heading
    } else {
        heading
    }
}

/// The status line with heading `left` and text `right`.
pub fn message(left: &str, right: &str) -> (line: StatusLine)
    ensures
        line.heading@ == padded(left@),
        line.text@ == right@,
{
    let length: usize = left.unicode_len();
    let mut heading = String::new();
    let mut filled: usize = length;
    proof {
        reveal_strlit(" ");
        assert(heading@ =~= spaces(0));
    }
    while filled < HEADING_WIDTH
        invariant
            length <= filled,
            length < HEADING_WIDTH ==> filled <= HEADING_WIDTH,
            length >= HEADING_WIDTH ==> filled == length,
            heading@ == spaces(filled - length),
            " "@ == seq![' '],
        decreases HEADING_WIDTH - filled,
    {
        heading.append(" ");
        filled = filled + 1;
        assert(heading@ =~= spaces(filled - length));
    }
    heading.append(left);
    proof {
        assert(spaces(0) + left@ =~= left@);
        assert(heading@ =~= padded(left@));
    }
    StatusLine { heading, text: String::from_str(right) }
}

/// The status line with heading `left` about the file with path `right`.
pub fn file_message(left: &str, right: &str) -> (line: StatusLine)
    ensures
        line.heading@ == padded(left@),
        line.text@ == "target "@ + right@,
{
    let mut text = String::from_str("target ");
    text.append(right);
    message(left, text.as_str())
}

/// The terminal column of the cursor that stands at codepoint `cursor`.
pub fn column_of(cursor: usize) -> (column: u16)
    ensures
        column == cursor_column(cursor as nat),
{
    proof {
        lemma_prompt_width();
    }
    let width: usize = PROMPT.unicode_len();
    ((width + cursor % 0x1_0000) % 0x1_0000) as u16
}

} // verus!
