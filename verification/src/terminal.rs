//! The line editor of the command prompt.
//!
//! A [`Terminal`] holds the line being edited and the history. It does no
//! input or output of its own: the caller draws what
//! [`Terminal::draw_prompt`] says, reads a key and hands it to
//! [`Terminal::handle_key`], until a line is submitted. The commands of the
//! line then come from [`Terminal::get_next_command`].

use vstd::prelude::*;
use vstd::utf8::*;

use crate::editor::{lemma_separator_from, lemma_step_in_range, separator_from, EditorState};
use crate::history::{HistoryPosition, TerminalHistory};
use crate::key::{is_control_char, Key};
use crate::output::{column_of, cursor_column, prompt_text, Output};
use crate::records::record_of;
use crate::text::{
    byte_offset,
    insert_char_index,
    lemma_byte_offset_is_boundary,
    lemma_byte_offset_step,
    lemma_byte_offset_zero,
    lemma_char_count_bound,
    lemma_utf8_concat,
    lemma_utf8_injective,
    lemma_utf8_single,
    lemma_utf8_split,
    remove_char_index,
};
use crate::word::{find_word_back, find_word_next, is_blank_str};

verus! {

/// What a key did to the reading of the line.
#[derive(Clone, Copy, Debug, PartialEq, Eq)]
pub enum KeyOutcome {
    /// The line is still being edited.
    Continue,
    /// `Enter` was pressed on a blank line: the prompt starts again on a new
    /// output line.
    BlankLine,
    /// The line was submitted.
    Submit,
}

/// One step of drawing on the terminal.
#[derive(Debug, PartialEq, Eq)]
pub enum Draw {
    /// Clear the output line that the cursor stands in.
    ClearLine,
    /// Put the cursor in this column of its line, the first column being 0.
    MoveToColumn(u16),
    /// Write this text where the cursor stands.
    Write(String),
}

/// One step of drawing, with its text as a sequence of codepoints.
pub enum DrawStep {
    ClearLine,
    MoveToColumn(u16),
    Write(Seq<char>),
}

impl View for Draw {
    type V = DrawStep;

    open spec fn view(&self) -> DrawStep {
        match self {
            Draw::ClearLine => DrawStep::ClearLine,
            Draw::MoveToColumn(column) => DrawStep::MoveToColumn(*column),
            Draw::Write(text) => DrawStep::Write(text@),
        }
    }
}

/// What is drawn before each key is read: the output line is cleared, the
/// prompt and the displayed line are written from column 0, and the cursor
/// of the terminal is put where the cursor of the editor stands.
pub open spec fn prompt_frame(state: EditorState, minimal: bool) -> Seq<DrawStep> {
    seq![
        DrawStep::ClearLine,
        DrawStep::MoveToColumn(0),
        DrawStep::Write(prompt_text(minimal)),
        DrawStep::Write(state.displayed()),
        DrawStep::MoveToColumn(cursor_column(state.render_cursor) as u16),
    ]
}

/// The steps of `frame` with their texts as sequences of codepoints.
pub open spec fn draw_view(frame: Seq<Draw>) -> Seq<DrawStep> {
    Seq::new(frame.len(), |i: int| frame[i]@)
}

/// The line editor: the buffer, its two cursors and the history.
pub struct Terminal {
    buffer: String,
    /// Byte offset in `buffer` up to which commands were handed out.
    cursor: usize,
    /// The same position as a codepoint index.
    consumed: Ghost<nat>,
    /// Codepoint index of the visible cursor in the displayed line.
    visible_cursor: usize,
    history: TerminalHistory,
}

impl View for Terminal {
    type V = EditorState;

    closed spec fn view(&self) -> EditorState {
        EditorState {
            buffer: self.buffer@,
            render_cursor: self.visible_cursor as nat,
            consumed: self.consumed@,
            history: self.history@,
        }
    }
}

/// For text `tail` that is `text` without its first `skipped` codepoints: a
/// separator search in `tail` finds what a search in `text` finds from
/// `skipped` on.
proof fn lemma_separator_from_skip(text: Seq<char>, skipped: int, from: int)
    requires
        0 <= skipped <= text.len(),
        0 <= from,
    ensures
        separator_from(text.skip(skipped), from) + skipped == separator_from(text, skipped + from),
    decreases text.len() - skipped - from,
{
    let tail = text.skip(skipped);
    if from < tail.len() && tail[from] != ';' {
        lemma_separator_from_skip(text, skipped, from + 1);
    }
}

/// Byte offsets add up along the text.
proof fn lemma_byte_offset_skip(text: Seq<char>, skipped: int, index: int)
    requires
        0 <= skipped <= text.len(),
        0 <= index <= text.len() - skipped,
    ensures
        byte_offset(text, skipped + index) == byte_offset(text, skipped) + byte_offset(
            text.skip(skipped),
            index,
        ),
{
    lemma_utf8_concat(text.take(skipped), text.skip(skipped).take(index));
    assert(text.take(skipped) + text.skip(skipped).take(index) =~= text.take(skipped + index));
}

/// Finds the first `;` of `text`. Returns its byte offset, or the byte
/// length if there is none, and whether there is one.
fn find_separator(text: &str) -> (found: (usize, bool))
    ensures
        found.0 == byte_offset(text@, separator_from(text@, 0)),
        found.1 == (separator_from(text@, 0) < text@.len()),
{
    let byte_len: usize = text.as_bytes().len();
    let mut offset: usize = 0;
    let ghost mut index: int = 0;
    proof {
        broadcast use vstd::slice::axiom_spec_len;

        lemma_byte_offset_zero(text@);
    }
    for ch in iter: text.chars()
        invariant
            iter.seq() == text@,
            index == iter.index(),
            offset == byte_offset(text@, index),
            offset <= encode_utf8(text@).len() <= usize::MAX,
            separator_from(text@, index) == separator_from(text@, 0),
    {
        if ch == ';' {
            return (offset, true);
        }
        proof {
            lemma_byte_offset_step(text@, index);
            index = index + 1;
        }
        offset = offset + ch.len_utf8();
    }
    (offset, false)
}

impl Terminal {
    /// The byte cursor stands where the codepoint count of what was handed
    /// out says.
    pub closed spec fn inv(&self) -> bool {
        self.cursor == byte_offset(self.buffer@, self.consumed@ as int)
    }

    /// The editor state is well formed and the fields agree with each other.
    pub open spec fn wf(&self) -> bool {
        self@.wf() && self.inv()
    }

    /// An editor with an empty line, over the history `history`.
    pub fn new(history: TerminalHistory) -> (terminal: Self)
        requires
            history@.wf(),
        ensures
            terminal.wf(),
            terminal@ == (EditorState {
                buffer: Seq::empty(),
                render_cursor: 0,
                consumed: 0,
                history: history@,
            }),
    {
        let terminal = Terminal {
            buffer: String::new(),
            cursor: 0,
            consumed: Ghost(0),
            visible_cursor: 0,
            history,
        };
        proof {
            lemma_byte_offset_zero(terminal.buffer@);
        }
        terminal
    }

    /// Whether the displayed line is the fresh line, rather than an entry of
    /// the history.
    pub fn is_next(&self) -> (fresh: bool)
        ensures
            fresh == (self@.history.position is ComposingNew),
    {
        match self.history.position() {
            HistoryPosition::ComposingNew => true,
            HistoryPosition::Viewing(_) => false,
        }
    }

    /// The displayed line: the viewed entry, or the buffer on a fresh line.
    pub fn get_current(&self) -> (line: &str)
        requires
            self@.history.wf(),
        ensures
            line@ == self@.displayed(),
    {
        match self.history.current() {
            Some(entry) => entry,
            None => self.buffer.as_str(),
        }
    }

    /// The buffer.
    pub fn buffer(&self) -> (line: &str)
        ensures
            line@ == self@.buffer,
    {
        self.buffer.as_str()
    }

    /// Codepoint index of the cursor in the displayed line.
    pub fn visible_cursor(&self) -> (index: usize)
        ensures
            index == self@.render_cursor,
    {
        self.visible_cursor
    }

    /// The history.
    pub fn history(&self) -> (history: &TerminalHistory)
        ensures
            history@ == self@.history,
    {
        &self.history
    }

    /// The steps that draw the prompt and the displayed line, in order.
    pub fn draw_prompt(&self, output: &Output) -> (frame: Vec<Draw>)
        requires
            self@.history.wf(),
        ensures
            draw_view(frame@) == prompt_frame(self@, output.minimal),
    {
        let mut frame: Vec<Draw> = Vec::new();
        frame.push(Draw::ClearLine);
        frame.push(Draw::MoveToColumn(0));
        frame.push(Draw::Write(output.prompt()));
        frame.push(Draw::Write(self.get_current().to_owned()));
        frame.push(Draw::MoveToColumn(column_of(self.visible_cursor)));
        assert(draw_view(frame@) =~= prompt_frame(self@, output.minimal));
        frame
    }

    /// Whether a fresh line has to be read before the next command can be
    /// handed out.
    pub fn needs_line(&self) -> (needed: bool)
        requires
            self.wf(),
        ensures
            needed == self@.awaits_line(),
    {
        proof {
            if self.consumed@ > 0 {
                lemma_byte_offset_step(self.buffer@, self.consumed@ - 1);
            } else {
                lemma_byte_offset_zero(self.buffer@);
            }
        }
        self.cursor == 0
    }

    /// Copies a viewed entry into the buffer and moves to the fresh line, so
    /// that an edit acts on the copy.
    fn update_next(&mut self)
        requires
            old(self).wf(),
            old(self)@.awaits_line(),
        ensures
            final(self).wf(),
            final(self)@ == old(self)@.forked(),
    {
        match self.history.position() {
            HistoryPosition::ComposingNew => {},
            HistoryPosition::Viewing(index) => {
                self.buffer = self.history.entry(index).to_owned();
                self.history.reset();
                proof {
                    lemma_byte_offset_zero(self.buffer@);
                }
            },
        }
    }

    /// Applies one key to the line. The result says whether the line was
    /// submitted, refused as blank, or is still being edited.
    pub fn handle_key(&mut self, key: Key) -> (outcome: KeyOutcome)
        requires
            old(self).wf(),
            old(self)@.awaits_line(),
        ensures
            final(self).wf(),
            final(self)@ == old(self)@.step(key),
            outcome is Submit <==> old(self)@.submits(key),
            outcome is BlankLine <==> key is Enter && old(self)@.is_blank_line(),
    {
        proof {
            lemma_step_in_range(self@, key);
        }
        match key {
            Key::Enter => {
                if self.is_next() && is_blank_str(self.buffer.as_str()) {
                    self.buffer.clear();
                    self.visible_cursor = 0;
                    proof {
                        lemma_byte_offset_zero(self.buffer@);
                    }
                    return KeyOutcome::BlankLine;
                } else {
                    self.update_next();
                    return KeyOutcome::Submit;
                }
            },
            Key::Char(ch) => {
                if !is_control_char(ch) {
                    self.update_next();
                    insert_char_index(&mut self.buffer, self.visible_cursor, ch);
                    // The length of the buffer fits a `usize`, and so does the cursor.
                    let byte_len: usize = self.buffer.as_str().as_bytes().len();
                    proof {
                        broadcast use vstd::slice::axiom_spec_len;

                        lemma_char_count_bound(self.buffer@);
                        lemma_byte_offset_zero(self.buffer@);
                    }
                    self.visible_cursor = self.visible_cursor + 1;
                }
            },
            Key::Backspace => {
                self.update_next();
                if self.visible_cursor > 0 && self.visible_cursor
                    <= self.get_current().unicode_len() {
                    self.visible_cursor = self.visible_cursor - 1;
                    let removed: char = remove_char_index(&mut self.buffer, self.visible_cursor);
                    proof {
                        lemma_byte_offset_zero(self.buffer@);
                    }
                }
            },
            Key::Delete => {
                self.update_next();
                if self.visible_cursor < self.get_current().unicode_len() {
                    let removed: char = remove_char_index(&mut self.buffer, self.visible_cursor);
                    proof {
                        lemma_byte_offset_zero(self.buffer@);
                    }
                }
            },
            Key::Left => {
                if self.visible_cursor > 0 {
                    self.visible_cursor = self.visible_cursor - 1;
                }
            },
            Key::Right => {
                if self.visible_cursor < self.get_current().unicode_len() {
                    self.visible_cursor = self.visible_cursor + 1;
                }
            },
            Key::CtrlLeft => {
                let target: usize = find_word_back(self.get_current(), self.visible_cursor, false);
                self.visible_cursor = target;
            },
            Key::CtrlRight => {
                let target: usize = find_word_next(self.get_current(), self.visible_cursor, false);
                self.visible_cursor = target;
            },
            Key::Up => {
                if self.history.move_older() {
                    self.visible_cursor = self.get_current().unicode_len();
                }
            },
            Key::Down => {
                if self.history.move_newer() {
                    self.visible_cursor = self.get_current().unicode_len();
                }
            },
        }
        KeyOutcome::Continue
    }

    /// Begins the reading of a line: empties the buffer and puts the cursor
    /// at its start.
    pub fn begin_line(&mut self)
        requires
            old(self).wf(),
            old(self)@.awaits_line(),
        ensures
            final(self).wf(),
            final(self)@ == old(self)@.cleared(),
    {
        self.buffer.clear();
        self.visible_cursor = 0;
        proof {
            lemma_byte_offset_zero(self.buffer@);
        }
    }

    /// Ends the reading of a line: submits the buffer to the history, which
    /// appends it unless it repeats the newest entry. Where the line was
    /// appended, the result is its record, which is to be appended to the
    /// history file.
    pub fn finish_line(&mut self) -> (written: Option<String>)
        requires
            old(self).wf(),
            old(self)@.history.position is ComposingNew,
        ensures
            final(self).wf(),
            final(self)@ == old(self)@.submitted(),
            written is Some <==> old(self)@.history.accepts(old(self)@.buffer),
            written matches Some(text) ==> text@ == record_of(old(self)@.buffer),
    {
        let line = self.buffer.clone();
        self.history.push(line)
    }

    /// Hands out the next command of the buffer: what stands between the
    /// commands handed out already and the next `;`, or the end.
    pub fn get_next_command(&mut self) -> (command: String)
        requires
            old(self).wf(),
        ensures
            final(self).wf(),
            command@ == old(self)@.next_command(),
            final(self)@ == old(self)@.after_command(),
    {
        let ghost text = self.buffer@;
        let ghost start = self.consumed@ as int;
        let line = self.buffer.as_str();
        let byte_len: usize = line.as_bytes().len();
        proof {
            broadcast use vstd::slice::axiom_spec_len;

            lemma_byte_offset_is_boundary(text, start);
            lemma_utf8_split(text, start);
        }
        let (_, rest) = line.split_at(self.cursor);
        proof {
            lemma_utf8_injective(rest@, text.skip(start));
            lemma_separator_from(text, start);
            lemma_separator_from(rest@, 0);
            lemma_separator_from_skip(text, start, 0);
        }
        let ghost length = separator_from(rest@, 0);
        let (offset, found) = find_separator(rest);
        proof {
            lemma_byte_offset_skip(text, start, length);
            lemma_byte_offset_is_boundary(rest@, length);
            lemma_utf8_split(rest@, length);
        }
        if found {
            let (command, _) = rest.split_at(offset);
            proof {
                lemma_utf8_injective(command@, rest@.take(length));
                assert(rest@.take(length) =~= text.subrange(start, start + length));
                lemma_byte_offset_step(text, start + length);
                lemma_utf8_single(';');
            }
            let command = command.to_owned();
            self.cursor = self.cursor + offset + 1;
            self.consumed = Ghost((start + length + 1) as nat);
            command
        } else {
            proof {
                assert(rest@ =~= text.subrange(start, start + length));
                lemma_byte_offset_zero(text);
            }
            let command = rest.to_owned();
            self.cursor = 0;
            self.consumed = Ghost(0);
            command
        }
    }
}

} // verus!
