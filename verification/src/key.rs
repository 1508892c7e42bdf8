//! The keys that the editor acts on.

use vstd::prelude::*;

verus! {

/// A key press.
#[derive(Debug, Clone, Copy, PartialEq, Eq, Structural)]
pub enum Key {
    Backspace,
    Left,
    Right,
    Up,
    Down,
    Home,
    End,
    PageUp,
    PageDown,
    Delete,
    /// A character key.
    Char(char),
    /// A character key pressed together with the control key.
    Ctrl(char),
    Esc,
    /// Any other key: the editor takes note of it and does nothing.
    Other,
}

} // verus!
