//! The line editor as a state machine over codepoint sequences.
//!
//! [`EditorState`] is what a [`crate::terminal::Terminal`] stands for, and
//! [`EditorState::step`] is what one key does to it. What holds of the editor
//! whatever the keys are is stated and proved here over that model.

use vstd::prelude::*;

use crate::history::{HistoryPosition, HistoryState};
use crate::key::{is_control, Key};
use crate::records::storable;
use crate::word::{is_blank, lemma_word_motion_bounds, next_word_start, prev_word_start};

verus! {

/// The state of the line editor.
pub struct EditorState {
    /// The line being composed, or the last line submitted while its
    /// commands are handed out.
    pub buffer: Seq<char>,
    /// Codepoint index of the cursor in the displayed line.
    pub render_cursor: nat,
    /// Number of codepoints of `buffer` that were handed out as commands
    /// already; 0 when a fresh line has to be read.
    pub consumed: nat,
    /// The submitted lines and the position among them.
    pub history: HistoryState,
}

/// First index at or after `from` that holds a `;`; the codepoint count if
/// there is none.
pub open spec fn separator_from(text: Seq<char>, from: int) -> int
    decreases text.len() - from,
{
    if from >= text.len() {
        text.len() as int
    } else if from >= 0 && text[from] == ';' {
        from
    } else {
        separator_from(text, from + 1)
    }
}

/// Whether `line` holds no ASCII control code.
pub open spec fn free_of_control(line: Seq<char>) -> bool {
    forall|i: int| 0 <= i < line.len() ==> !is_control(#[trigger] line[i])
}

impl EditorState {
    /// Neither the buffer nor an entry of the history holds an ASCII control code.
    pub open spec fn free_of_control(self) -> bool {
        &&& free_of_control(self.buffer)
        &&& forall|i: int|
            0 <= i < self.history.entries.len() ==> free_of_control(#[trigger] self.history.entries[i])
    }

    /// The line on display: the viewed entry, or the buffer on a fresh line.
    pub open spec fn displayed(self) -> Seq<char> {
        match self.history.viewed() {
            Some(entry) => entry,
            None => self.buffer,
        }
    }

    /// The viewed entry exists and the cursor is inside the displayed line or
    /// at its end.
    pub open spec fn in_range(self) -> bool {
        self.history.wf() && self.render_cursor <= self.displayed().len()
    }

    /// The state is in range and no more of the buffer was handed out than it holds.
    pub open spec fn wf(self) -> bool {
        self.in_range() && self.consumed <= self.buffer.len()
    }

    /// Whether a fresh line has to be read before a command can be handed out.
    pub open spec fn awaits_line(self) -> bool {
        self.consumed == 0
    }

    /// The state before a mutating key acts: a viewed entry is copied into
    /// the buffer and the position moves to the fresh line, so that the edit
    /// never touches the history.
    pub open spec fn forked(self) -> EditorState {
        match self.history.viewed() {
            Some(entry) => EditorState {
                buffer: entry,
                history: HistoryState { position: HistoryPosition::ComposingNew, ..self.history },
                ..self
            },
            None => self,
        }
    }

    /// Whether `Enter` is refused: on a fresh line that holds only whitespace.
    pub open spec fn is_blank_line(self) -> bool {
        self.history.position is ComposingNew && is_blank(self.buffer)
    }

    /// Whether `key` ends the reading of the line.
    pub open spec fn submits(self, key: Key) -> bool {
        key is Enter && !self.is_blank_line()
    }

    /// The state after `key`.
    pub open spec fn step(self, key: Key) -> EditorState {
        match key {
            Key::Enter => if self.is_blank_line() {
                EditorState { buffer: Seq::empty(), render_cursor: 0, ..self }
            } else {
                self.forked()
            },
            Key::Char(c) => if is_control(c) {
                self
            } else {
                let fork = self.forked();
                EditorState {
                    buffer: fork.buffer.insert(fork.render_cursor as int, c),
                    render_cursor: fork.render_cursor + 1,
                    ..fork
                }
            },
            Key::Backspace => {
                let fork = self.forked();
                if 0 < fork.render_cursor <= fork.buffer.len() {
                    EditorState {
                        buffer: fork.buffer.remove(fork.render_cursor - 1),
                        render_cursor: (fork.render_cursor - 1) as nat,
                        ..fork
                    }
                } else {
                    fork
                }
            },
            Key::Delete => {
                let fork = self.forked();
                if fork.render_cursor < fork.buffer.len() {
                    EditorState { buffer: fork.buffer.remove(fork.render_cursor as int), ..fork }
                } else {
                    fork
                }
            },
            Key::Left => if self.render_cursor > 0 {
                EditorState { render_cursor: (self.render_cursor - 1) as nat, ..self }
            } else {
                self
            },
            Key::Right => if self.render_cursor < self.displayed().len() {
                EditorState { render_cursor: self.render_cursor + 1, ..self }
            } else {
                self
            },
            Key::CtrlLeft => EditorState {
                render_cursor: prev_word_start(
                    self.displayed(),
                    self.render_cursor as int,
                    false,
                ) as nat,
                ..self
            },
            Key::CtrlRight => EditorState {
                render_cursor: next_word_start(
                    self.displayed(),
                    self.render_cursor as int,
                    false,
                ) as nat,
                ..self
            },
            Key::Up => if self.history.has_older() {
                let moved = EditorState { history: self.history.older(), ..self };
                EditorState { render_cursor: moved.displayed().len(), ..moved }
            } else {
                self
            },
            Key::Down => if self.history.has_newer() {
                let moved = EditorState { history: self.history.newer(), ..self };
                EditorState { render_cursor: moved.displayed().len(), ..moved }
            } else {
                self
            },
        }
    }

    /// The state after the keys of `keys`, in order.
    pub open spec fn run(self, keys: Seq<Key>) -> EditorState
        decreases keys.len(),
    {
        if keys.len() == 0 {
            self
        } else {
            self.run(keys.drop_last()).step(keys.last())
        }
    }

    /// The state in which the reading of a line begins: an empty buffer with
    /// the cursor at its start.
    pub open spec fn cleared(self) -> EditorState {
        EditorState { buffer: Seq::empty(), render_cursor: 0, ..self }
    }

    /// The state after the buffer was submitted to the history.
    pub open spec fn submitted(self) -> EditorState {
        EditorState { history: self.history.pushed(self.buffer), ..self }
    }

    /// Index one past the last codepoint of the next command.
    pub open spec fn command_end(self) -> int {
        separator_from(self.buffer, self.consumed as int)
    }

    /// The next command: the part of the buffer from what was handed out
    /// already up to the next `;`, or to the end.
    pub open spec fn next_command(self) -> Seq<char> {
        self.buffer.subrange(self.consumed as int, self.command_end())
    }

    /// The state after the next command was handed out: the command and its
    /// `;` count as handed out, or nothing does if the command ran to the end
    /// of the buffer.
    pub open spec fn after_command(self) -> EditorState {
        EditorState {
            consumed: if self.command_end() < self.buffer.len() {
                (self.command_end() + 1) as nat
            } else {
                0
            },
            ..self
        }
    }
}

/// The separator that ends a command lies between what was handed out and
/// the end of the text, and no `;` comes before it.
pub proof fn lemma_separator_from(text: Seq<char>, from: int)
    requires
        0 <= from <= text.len(),
    ensures
        from <= separator_from(text, from) <= text.len(),
        separator_from(text, from) < text.len() ==> text[separator_from(text, from)] == ';',
        forall|i: int| from <= i < separator_from(text, from) ==> text[i] != ';',
    decreases text.len() - from,
{
    if from < text.len() && text[from] != ';' {
        lemma_separator_from(text, from + 1);
    }
}

/// No key moves the cursor out of the displayed line, and no key makes the
/// position point at an entry that does not exist.
pub proof fn lemma_step_in_range(state: EditorState, key: Key)
    requires
        state.in_range(),
    ensures
        state.step(key).in_range(),
{
    lemma_word_motion_bounds(state.displayed(), state.render_cursor as int, false);
}

/// A sequence of keys leaves the cursor inside the displayed line or at its
/// end.
pub proof fn lemma_run_in_range(state: EditorState, keys: Seq<Key>)
    requires
        state.in_range(),
    ensures
        state.run(keys).in_range(),
    decreases keys.len(),
{
    if keys.len() > 0 {
        lemma_run_in_range(state, keys.drop_last());
        lemma_step_in_range(state.run(keys.drop_last()), keys.last());
    }
}

/// Whatever keys are pressed, the cursor is inside the displayed line or at
/// its end after every one of them.
pub proof fn lemma_cursor_in_range_after_every_key(state: EditorState, keys: Seq<Key>)
    requires
        state.in_range(),
    ensures
        forall|count: int|
            0 <= count <= keys.len() ==> (#[trigger] state.run(keys.take(count))).in_range(),
{
    assert forall|count: int| 0 <= count <= keys.len() implies (#[trigger] state.run(
        keys.take(count),
    )).in_range() by {
        lemma_run_in_range(state, keys.take(count));
    }
}

/// While a line is being read, a key leaves the state well formed.
pub proof fn lemma_step_wf(state: EditorState, key: Key)
    requires
        state.wf(),
        state.awaits_line(),
    ensures
        state.step(key).wf(),
        state.step(key).awaits_line(),
{
    lemma_step_in_range(state, key);
}

/// `Enter` on a fresh line that holds only whitespace does not end the
/// reading: the buffer is emptied, the cursor returns to its start, and the
/// line is blank again, so that no number of such keys ends the reading.
pub proof fn lemma_blank_line_is_not_submitted(state: EditorState)
    requires
        state.is_blank_line(),
    ensures
        !state.submits(Key::Enter),
        state.step(Key::Enter).buffer == Seq::<char>::empty(),
        state.step(Key::Enter).render_cursor == 0,
        state.step(Key::Enter).history == state.history,
        state.step(Key::Enter).is_blank_line(),
{
}

/// No key changes the entries of the history.
pub proof fn lemma_step_keeps_entries(state: EditorState, key: Key)
    ensures
        state.step(key).history.entries == state.history.entries,
{
}

/// No sequence of keys changes the entries of the history.
pub proof fn lemma_run_keeps_entries(state: EditorState, keys: Seq<Key>)
    ensures
        state.run(keys).history.entries == state.history.entries,
    decreases keys.len(),
{
    if keys.len() > 0 {
        lemma_run_keeps_entries(state, keys.drop_last());
        lemma_step_keeps_entries(state.run(keys.drop_last()), keys.last());
    }
}

/// A key that edits the line while an entry is viewed edits a copy: the
/// position moves to the fresh line, the buffer is the edited copy of the
/// entry, and the history holds the entry as before. When the edited line is
/// then submitted, the entries before it stay, and it is appended unless it
/// repeats the newest entry.
pub proof fn lemma_edit_of_viewed_entry_is_a_copy(state: EditorState, key: Key, index: usize)
    requires
        state.in_range(),
        state.history.position == HistoryPosition::Viewing(index),
        key is Backspace || key is Delete || (key matches Key::Char(c) && !is_control(c)),
    ensures
        state.step(key) == state.forked().step(key),
        state.forked().buffer == state.history.entries[index as int],
        state.forked().history.position is ComposingNew,
        state.step(key).history.position is ComposingNew,
        state.step(key).history.entries == state.history.entries,
        state.step(key).submits(Key::Enter) ==> ({
            let edited = state.step(key);
            let done = edited.step(Key::Enter).submitted();
            &&& edited.step(Key::Enter).buffer == edited.buffer
            &&& done.history == state.history.pushed(edited.buffer)
            &&& state.history.entries.is_prefix_of(done.history.entries)
            &&& done.history.entries[index as int] == state.history.entries[index as int]
            &&& done.history.entries.last() == edited.buffer
        }),
{
}

/// Whatever keys were pressed before a line is submitted, the submission
/// leaves every entry as it was, and appends the buffer unless it repeats
/// the newest entry.
pub proof fn lemma_submission_after_keys(state: EditorState, keys: Seq<Key>)
    ensures
        ({
            let edited = state.run(keys);
            let done = edited.submitted();
            &&& done.history.entries == state.history.pushed(edited.buffer).entries
            &&& state.history.entries.is_prefix_of(done.history.entries)
            &&& done.history.entries.len() <= state.history.entries.len() + 1
        }),
{
    lemma_run_keeps_entries(state, keys);
}

/// The keys put no ASCII control code into the line, and so none reaches the
/// history: a line that the user put together holds no line break.
pub proof fn lemma_step_keeps_control_out(state: EditorState, key: Key)
    requires
        state.in_range(),
        state.free_of_control(),
    ensures
        state.step(key).free_of_control(),
        state.step(key).submitted().free_of_control(),
{
    let after = state.step(key);
    assert(after.history.entries == state.history.entries);
    assert(free_of_control(after.buffer));
    let done = after.submitted();
    assert forall|i: int| 0 <= i < done.history.entries.len() implies free_of_control(
        #[trigger] done.history.entries[i],
    ) by {
        if i < state.history.entries.len() {
            assert(done.history.entries[i] == state.history.entries[i]);
        }
    }
}

/// A line without ASCII control codes comes back from its record as it is.
pub proof fn lemma_line_without_control_is_storable(line: Seq<char>)
    requires
        free_of_control(line),
    ensures
        storable(line),
{
    if line.contains('\n') {
        let i = choose|i: int| 0 <= i < line.len() && line[i] == '\n';
        assert(is_control(line[i]));
    }
    if line.len() > 0 && line.last() == '\r' {
        assert(is_control(line[line.len() - 1]));
    }
}

/// From a fresh line, `Up` followed by `Down` returns to the fresh line, with
/// the buffer and the history as they were.
pub proof fn lemma_up_then_down_returns(state: EditorState)
    requires
        state.history.wf(),
        state.history.position is ComposingNew,
    ensures
        state.step(Key::Up).step(Key::Down).history == state.history,
        state.step(Key::Up).step(Key::Down).buffer == state.buffer,
        state.step(Key::Up).step(Key::Down).consumed == state.consumed,
        state.history.entries.len() > 0 ==> state.step(Key::Up).step(Key::Down).render_cursor
            == state.buffer.len(),
        state.history.entries.len() == 0 ==> state.step(Key::Up).step(Key::Down) == state,
{
}

/// Handing out commands one after the other covers the line: each command
/// holds no `;`, and the state asks for a fresh line exactly when the
/// command ran to the end of the buffer.
pub proof fn lemma_next_command(state: EditorState)
    requires
        state.consumed <= state.buffer.len(),
    ensures
        !state.next_command().contains(';'),
        state.consumed + state.next_command().len() == state.command_end(),
        state.after_command().consumed <= state.buffer.len(),
        state.after_command().awaits_line() <==> state.command_end() == state.buffer.len(),
        state.command_end() < state.buffer.len() ==> state.buffer.subrange(
            state.consumed as int,
            state.after_command().consumed as int,
        ) == state.next_command().push(';'),
{
    lemma_separator_from(state.buffer, state.consumed as int);
    let end = state.command_end();
    if end < state.buffer.len() {
        assert(state.buffer.subrange(state.consumed as int, end + 1) =~= state.next_command().push(
            ';',
        ));
    }
}

} // verus!
