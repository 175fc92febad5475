//! Logical key events.
//!
//! The application consumes already-decoded key events; mapping the raw
//! input-device events of a terminal to this vocabulary is the caller's job.

use vstd::prelude::*;

verus! {

/// The key itself. A printable character arrives as `Char`.
#[derive(Clone, Copy, Debug)]
pub enum KeyCode {
    Char(char),
    Backspace,
    Tab,
    Enter,
    Esc,
    Up,
    Down,
    Left,
    Right,
    Home,
    End,
}

/// Whether the key went down or came back up. Only presses are acted upon.
#[derive(Clone, Copy, Debug)]
pub enum KeyKind {
    Press,
    Release,
}

/// A decoded key event.
#[derive(Clone, Copy, Debug)]
pub struct KeyEvent {
    pub code: KeyCode,
    pub kind: KeyKind,
}

impl KeyEvent {
    /// A key press carrying the given code.
    pub fn press(code: KeyCode) -> (r: Self)
        ensures
            r.code == code,
            r.kind == KeyKind::Press,
    {
        KeyEvent { code, kind: KeyKind::Press }
    }
}

} // verus!
