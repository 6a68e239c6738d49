//! The keys that the line editor understands.

use vstd::prelude::*;

verus! {

/// One decoded key press.
#[derive(Clone, Copy, Debug, PartialEq, Eq)]
pub enum Key {
    /// Submit the line.
    Enter,
    /// A typed codepoint.
    Char(char),
    /// Remove the codepoint before the cursor.
    Backspace,
    /// Remove the codepoint under the cursor.
    Delete,
    /// Move the cursor one codepoint to the left.
    Left,
    /// Move the cursor one codepoint to the right.
    Right,
    /// Move the cursor to the start of the word on its left.
    CtrlLeft,
    /// Move the cursor to the start of the word on its right.
    CtrlRight,
    /// Show the next older history entry.
    Up,
    /// Show the next newer history entry.
    Down,
}

/// A key of the keyboard as the terminal reports it, without its modifiers.
#[derive(Clone, Copy, Debug, PartialEq, Eq)]
pub enum KeyCode {
    Enter,
    Backspace,
    Delete,
    Left,
    Right,
    Up,
    Down,
    /// A key that stands for a codepoint.
    Char(char),
    /// Any other key.
    Other,
}

/// What a key press asks for.
#[derive(Clone, Copy, Debug, PartialEq, Eq)]
pub enum KeyPress {
    /// A key for the line editor.
    Edit(Key),
    /// The user asks to leave the prompt: `Ctrl` with `c` or `d`.
    Interrupt,
    /// Nothing that the prompt reacts to.
    Ignored,
}

/// A key event as the terminal reports it.
#[derive(Clone, Copy, Debug, PartialEq, Eq)]
pub struct KeyEvent {
    /// The key.
    pub code: KeyCode,
    /// Whether the `Ctrl` key is held.
    pub control: bool,
    /// Whether the key was let go, rather than pressed or held down.
    pub released: bool,
}

/// What a key event asks for.
///
/// A key that is let go asks for nothing. With `Ctrl`, the arrows to the
/// left and to the right move by words, `c` and `d` interrupt, and other
/// codepoints are ignored. The other keys mean the same with and without it.
pub open spec fn decoded(event: KeyEvent) -> KeyPress {
    if event.released {
        KeyPress::Ignored
    } else {
        decoded_press(event.code, event.control)
    }
}

/// What the press of `code` asks for, with the `Ctrl` key held or not.
pub open spec fn decoded_press(code: KeyCode, control: bool) -> KeyPress {
    match code {
        KeyCode::Enter => KeyPress::Edit(Key::Enter),
        KeyCode::Backspace => KeyPress::Edit(Key::Backspace),
        KeyCode::Delete => KeyPress::Edit(Key::Delete),
        KeyCode::Left => KeyPress::Edit(
            if control {
                Key::CtrlLeft
            } else {
                Key::Left
            },
        ),
        KeyCode::Right => KeyPress::Edit(
            if control {
                Key::CtrlRight
            } else {
                Key::Right
            },
        ),
        KeyCode::Up => KeyPress::Edit(Key::Up),
        KeyCode::Down => KeyPress::Edit(Key::Down),
        KeyCode::Char(c) => if !control {
            KeyPress::Edit(Key::Char(c))
        } else if c == 'c' || c == 'd' {
            KeyPress::Interrupt
        } else {
            KeyPress::Ignored
        },
        KeyCode::Other => KeyPress::Ignored,
    }
}

/// Decides what a key event asks for.
pub fn decode_key(event: KeyEvent) -> (press: KeyPress)
    ensures
        press == decoded(event),
{
    if event.released {
        return KeyPress::Ignored;
    }
    let control = event.control;
    match event.code {
        KeyCode::Enter => KeyPress::Edit(Key::Enter),
        KeyCode::Backspace => KeyPress::Edit(Key::Backspace),
        KeyCode::Delete => KeyPress::Edit(Key::Delete),
        KeyCode::Left => if control {
            KeyPress::Edit(Key::CtrlLeft)
        } else {
            KeyPress::Edit(Key::Left)
        },
        KeyCode::Right => if control {
            KeyPress::Edit(Key::CtrlRight)
        } else {
            KeyPress::Edit(Key::Right)
        },
        KeyCode::Up => KeyPress::Edit(Key::Up),
        KeyCode::Down => KeyPress::Edit(Key::Down),
        KeyCode::Char(c) => if !control {
            KeyPress::Edit(Key::Char(c))
        } else if c == 'c' || c == 'd' {
            KeyPress::Interrupt
        } else {
            KeyPress::Ignored
        },
        KeyCode::Other => KeyPress::Ignored,
    }
}

/// Whether `c` is an ASCII control code, which the editor does not insert.
pub open spec fn is_control(c: char) -> bool {
    c <= '\x1f' || c == '\x7f'
}

/// Whether `c` is an ASCII control code.
pub fn is_control_char(c: char) -> (control: bool)
    ensures
        control == is_control(c),
{
    c <= '\x1f' || c == '\x7f'
}

} // verus!
