//! Key presses.

use vstd::prelude::*;

verus! {

/// Which key.
#[derive(Debug, Clone, Copy, PartialEq, Eq, Structural)]
pub enum KeyCode {
    Char(char),
    Backspace,
    Enter,
    Left,
    Right,
    Up,
    Down,
    Tab,
    Delete,
    Home,
    End,
    PageUp,
    PageDown,
    Esc,
    /// Any other key.
    Other,
}

/// Which modifiers are held down.
#[derive(Debug, Clone, Copy, PartialEq, Eq, Structural)]
pub struct Modifiers {
    pub shift: bool,
    pub control: bool,
    pub alt: bool,
    /// Any other modifier.
    pub other: bool,
}

/// A key press.
#[derive(Debug, Clone, Copy, PartialEq, Eq, Structural)]
pub struct KeyEvent {
    pub code: KeyCode,
    pub modifiers: Modifiers,
}

impl Modifiers {
    /// No modifier.
    pub open spec fn empty(self) -> bool {
        !self.shift && !self.control && !self.alt && !self.other
    }

    /// No modifier, or shift alone.
    pub open spec fn plain(self) -> bool {
        !self.control && !self.alt && !self.other
    }

    /// Whether no modifier is held down.
    pub fn is_empty(self) -> (r: bool)
        ensures
            r == self.empty(),
    {
        !self.shift && !self.control && !self.alt && !self.other
    }

    /// Whether no modifier but shift is held down.
    pub fn is_plain(self) -> (r: bool)
        ensures
            r == self.plain(),
    {
        !self.control && !self.alt && !self.other
    }
}

impl KeyEvent {
    /// Key `code`, without modifiers.
    pub fn plain(code: KeyCode) -> (r: KeyEvent)
        ensures
            r.code == code,
            r.modifiers.empty(),
    {
        KeyEvent {
            code,
            modifiers: Modifiers { shift: false, control: false, alt: false, other: false },
        }
    }

    /// Whether the key is the character `c`.
    pub fn is_char(self, c: char) -> (r: bool)
        ensures
            r == (self.code == KeyCode::Char(c)),
    {
        match self.code {
            KeyCode::Char(d) => d == c,
            _ => false,
        }
    }
}

} // verus!
