//! The line editor of an interactive command prompt.
//!
//! The library holds the editing of one line of UTF-8 text by keys, with
//! word motion and a history of submitted lines, and the splitting of a
//! submitted line into commands at `;`. It reads no key and writes nothing:
//! the program around it does.

use vstd::prelude::*;

pub mod editor;
pub mod history;
pub mod key;
pub mod output;
pub mod records;
pub mod storage;
pub mod terminal;
pub mod text;
pub mod word;

pub use history::{HistoryPosition, TerminalHistory};
pub use key::Key;
pub use output::Output;
pub use terminal::{Draw, KeyOutcome, Terminal};

verus! {

/// Chooses between minimal output, which is plain text, and full output.
pub fn set_minimal(output: &mut Output, minimal: bool)
    ensures
        final(output).minimal == minimal,
{
    output.minimal = minimal;
}

} // verus!
