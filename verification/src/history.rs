//! The history of submitted lines and the position of the user within it.

use vstd::prelude::*;

use crate::records::{record, record_of};

verus! {

/// Where the user stands in the history: on a fresh line, or on a past entry.
#[derive(Clone, Copy, Debug, PartialEq, Eq, Structural)]
pub enum HistoryPosition {
    /// The line being composed, which is no entry yet.
    ComposingNew,
    /// The entry with this index, the oldest entry having index 0.
    Viewing(usize),
}

/// What a [`TerminalHistory`] holds: the entries, oldest first, and the position.
pub struct HistoryState {
    pub entries: Seq<Seq<char>>,
    pub position: HistoryPosition,
}

impl HistoryState {
    /// The entries can be counted by a `usize`, and a viewed entry exists.
    pub open spec fn wf(self) -> bool {
        &&& self.entries.len() <= usize::MAX
        &&& self.position matches HistoryPosition::Viewing(i) ==> i < self.entries.len()
    }

    /// The entry under the position, if the position is on one.
    pub open spec fn viewed(self) -> Option<Seq<char>> {
        match self.position {
            HistoryPosition::Viewing(i) => Some(self.entries[i as int]),
            HistoryPosition::ComposingNew => None,
        }
    }

    /// Whether `line` would be appended: it differs from the newest entry, or
    /// there is no entry.
    pub open spec fn accepts(self, line: Seq<char>) -> bool {
        self.entries.len() == 0 || self.entries.last() != line
    }

    /// The history after `line` was submitted: the line is appended unless it
    /// repeats the newest entry, and the position is on a fresh line.
    pub open spec fn pushed(self, line: Seq<char>) -> HistoryState {
        HistoryState {
            entries: if self.accepts(line) {
                self.entries.push(line)
            } else {
                self.entries
            },
            position: HistoryPosition::ComposingNew,
        }
    }

    /// Whether there is an older entry to move to.
    pub open spec fn has_older(self) -> bool {
        match self.position {
            HistoryPosition::Viewing(i) => i > 0,
            HistoryPosition::ComposingNew => self.entries.len() > 0,
        }
    }

    /// The history after a move to the next older entry, from a fresh line to
    /// the newest entry. Without an older entry nothing changes.
    pub open spec fn older(self) -> HistoryState {
        match self.position {
            HistoryPosition::Viewing(i) if i > 0 => HistoryState {
                position: HistoryPosition::Viewing((i - 1) as usize),
                ..self
            },
            HistoryPosition::ComposingNew if self.entries.len() > 0 => HistoryState {
                position: HistoryPosition::Viewing((self.entries.len() - 1) as usize),
                ..self
            },
            _ => self,
        }
    }

    /// Whether there is a newer line to move to.
    pub open spec fn has_newer(self) -> bool {
        self.position is Viewing
    }

    /// The history after a move to the next newer entry, from the newest
    /// entry to the fresh line. On the fresh line nothing changes.
    pub open spec fn newer(self) -> HistoryState {
        match self.position {
            HistoryPosition::Viewing(i) => HistoryState {
                position: if i + 1 < self.entries.len() {
                    HistoryPosition::Viewing((i + 1) as usize)
                } else {
                    HistoryPosition::ComposingNew
                },
                ..self
            },
            HistoryPosition::ComposingNew => self,
        }
    }

    /// No entry repeats the one before it.
    pub open spec fn no_adjacent_repeat(self) -> bool {
        forall|i: int| 0 < i < self.entries.len() ==> self.entries[i - 1] != #[trigger] self.entries[i]
    }
}

/// The lines of `list` as sequences of codepoints.
pub open spec fn lines_view(list: Seq<String>) -> Seq<Seq<char>> {
    Seq::new(list.len(), |i: int| list[i]@)
}

/// The lines submitted so far, oldest first, and the position of the user
/// among them.
pub struct TerminalHistory {
    list: Vec<String>,
    position: HistoryPosition,
}

impl View for TerminalHistory {
    type V = HistoryState;

    closed spec fn view(&self) -> HistoryState {
        HistoryState { entries: lines_view(self.list@), position: self.position }
    }
}

impl TerminalHistory {
    /// A history that holds `list`, oldest first, with the position on a fresh line.
    pub fn new(list: Vec<String>) -> (history: Self)
        ensures
            history@.entries == lines_view(list@),
            history@.position == HistoryPosition::ComposingNew,
            history@.wf(),
    {
        // A vector holds no more items than a `usize` counts.
        let count: usize = list.len();
        assert(lines_view(list@).len() == count);
        TerminalHistory { list, position: HistoryPosition::ComposingNew }
    }

    /// Submits `line`: appends it unless it repeats the newest entry, and
    /// moves the position to a fresh line. Where the line was appended, the
    /// result is its record, which is to be appended to the history file.
    pub fn push(&mut self, line: String) -> (written: Option<String>)
        ensures
            final(self)@ == old(self)@.pushed(line@),
            final(self)@.wf(),
            written is Some <==> old(self)@.accepts(line@),
            written matches Some(text) ==> text@ == record_of(line@),
    {
        let count: usize = self.list.len();
        let written = if count == 0 || self.list[count - 1] != line {
            let text = record(line.as_str());
            self.list.push(line);
            Some(text)
        } else {
            None
        };
        self.position = HistoryPosition::ComposingNew;
        let count: usize = self.list.len();
        assert(self@.entries.len() == count);
        assert(self@.entries =~= old(self)@.pushed(line@).entries);
        written
    }

    /// The number of entries.
    pub fn len(&self) -> (count: usize)
        ensures
            count == self@.entries.len(),
    {
        self.list.len()
    }

    /// The position.
    pub fn position(&self) -> (position: HistoryPosition)
        ensures
            position == self@.position,
    {
        self.position
    }

    /// The entry with index `index`.
    pub fn entry(&self, index: usize) -> (line: &str)
        requires
            index < self@.entries.len(),
        ensures
            line@ == self@.entries[index as int],
    {
        self.list[index].as_str()
    }

    /// The entry under the position, if the position is on one.
    pub fn current(&self) -> (line: Option<&str>)
        requires
            self@.wf(),
        ensures
            line is Some == self@.viewed() is Some,
            line matches Some(text) ==> self@.viewed() == Some(text@),
    {
        match self.position {
            HistoryPosition::Viewing(index) => Some(self.list[index].as_str()),
            HistoryPosition::ComposingNew => None,
        }
    }

    /// Moves to the next older entry, from a fresh line to the newest entry.
    /// Returns whether the position moved.
    pub fn move_older(&mut self) -> (moved: bool)
        requires
            old(self)@.wf(),
        ensures
            final(self)@ == old(self)@.older(),
            final(self)@.wf(),
            moved == old(self)@.has_older(),
    {
        match self.position {
            HistoryPosition::Viewing(index) => {
                if index > 0 {
                    self.position = HistoryPosition::Viewing(index - 1);
                    true
                } else {
                    false
                }
            },
            HistoryPosition::ComposingNew => {
                let count: usize = self.list.len();
                if count > 0 {
                    self.position = HistoryPosition::Viewing(count - 1);
                    true
                } else {
                    false
                }
            },
        }
    }

    /// Moves to the next newer entry, from the newest entry to the fresh
    /// line. Returns whether the position moved.
    pub fn move_newer(&mut self) -> (moved: bool)
        requires
            old(self)@.wf(),
        ensures
            final(self)@ == old(self)@.newer(),
            final(self)@.wf(),
            moved == old(self)@.has_newer(),
    {
        match self.position {
            HistoryPosition::Viewing(index) => {
                let count: usize = self.list.len();
                assert(self@.entries.len() == count);
                if index + 1 < count {
                    self.position = HistoryPosition::Viewing(index + 1);
                } else {
                    self.position = HistoryPosition::ComposingNew;
                }
                true
            },
            HistoryPosition::ComposingNew => false,
        }
    }

    /// Moves the position to a fresh line.
    pub fn reset(&mut self)
        ensures
            final(self)@.entries == old(self)@.entries,
            final(self)@.position == HistoryPosition::ComposingNew,
            final(self)@.wf(),
    {
        self.position = HistoryPosition::ComposingNew;
        let count: usize = self.list.len();
        assert(self@.entries.len() == count);
    }
}

/// A line submitted twice in a row is kept once.
pub proof fn lemma_repeated_submission_kept_once(history: HistoryState, line: Seq<char>)
    ensures
        history.pushed(line).pushed(line) == history.pushed(line),
{
}

/// A line submitted again after another line is kept both times.
pub proof fn lemma_separated_submissions_both_kept(
    history: HistoryState,
    line: Seq<char>,
    other: Seq<char>,
)
    requires
        line != other,
    ensures
        history.pushed(line).pushed(other).pushed(line).entries == history.pushed(
            line,
        ).entries.push(other).push(line),
{
}

/// A submission leaves every earlier entry as it was, and adds at most one.
pub proof fn lemma_submission_keeps_entries(history: HistoryState, line: Seq<char>)
    ensures
        history.entries.is_prefix_of(history.pushed(line).entries),
        history.pushed(line).entries.len() <= history.entries.len() + 1,
        history.pushed(line).entries.len() > 0,
        history.pushed(line).entries.last() == line,
{
}

/// A history in which no entry repeats the one before it stays so under submissions.
pub proof fn lemma_submission_keeps_no_adjacent_repeat(history: HistoryState, line: Seq<char>)
    requires
        history.no_adjacent_repeat(),
    ensures
        history.pushed(line).no_adjacent_repeat(),
{
}

} // verus!
