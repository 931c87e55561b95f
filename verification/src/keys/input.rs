//! Key presses as the key handling reads them: the key and the held modifiers.
use vstd::prelude::*;

verus! {

/// A key on the keyboard.
#[derive(Debug, Clone, Copy, PartialEq, Eq, Structural)]
pub enum KeyCode {
    Backspace,
    Enter,
    Left,
    Right,
    Up,
    Down,
    Home,
    End,
    PageUp,
    PageDown,
    Tab,
    BackTab,
    Delete,
    Insert,
    F(u8),
    Char(char),
    Null,
    Esc,
    /// Any other key (lock keys, media keys, lone modifiers).
    Other,
}

/// A key press with the modifiers held down.
#[derive(Debug, Clone, Copy, PartialEq, Eq, Structural)]
pub struct KeyInput {
    pub code: KeyCode,
    pub ctrl: bool,
    pub alt: bool,
    pub shift: bool,
}

impl KeyInput {
    /// A key pressed with the given modifiers.
    pub fn new(code: KeyCode, ctrl: bool, alt: bool, shift: bool) -> (k: KeyInput)
        ensures
            k == (KeyInput { code, ctrl, alt, shift }),
    {
        KeyInput { code, ctrl, alt, shift }
    }

    /// A key pressed alone.
    pub fn plain(code: KeyCode) -> (k: KeyInput)
        ensures
            k == (KeyInput { code, ctrl: false, alt: false, shift: false }),
    {
        KeyInput { code, ctrl: false, alt: false, shift: false }
    }
}

} // verus!
