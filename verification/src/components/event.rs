//! Key presses, as the parts of the screen read them.

use vstd::prelude::*;

verus! {

/// The key of a key event.
#[derive(Clone, Copy, Debug, PartialEq, Eq)]
pub enum KeyCode {
    Backspace,
    Enter,
    Tab,
    BackTab,
    Esc,
    Char(char),
    /// Any other key.
    Other,
}

/// Whether a key went down, is held or went up.
#[derive(Clone, Copy, Debug, PartialEq, Eq)]
pub enum KeyEventKind {
    Press,
    Repeat,
    Release,
}

/// A key event.
#[derive(Clone, Copy, Debug, PartialEq, Eq)]
pub struct KeyEvent {
    pub code: KeyCode,
    /// Whether Alt, and no other modifier, was held.
    pub alt: bool,
    pub kind: KeyEventKind,
}

impl KeyEvent {
    /// The press of `code`, with no modifier held.
    pub fn press(code: KeyCode) -> (key: KeyEvent)
        ensures
            key == (KeyEvent { code, alt: false, kind: KeyEventKind::Press }),
    {
        KeyEvent { code, alt: false, kind: KeyEventKind::Press }
    }
}

} // verus!
