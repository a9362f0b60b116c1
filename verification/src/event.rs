//! Input events as plain values: what the keyboard and the mouse wheel can
//! tell the viewer.

use vstd::prelude::*;

verus! {

/// A key press.
#[derive(Debug, Clone, Copy, PartialEq, Eq, Structural)]
pub enum KeyInput {
    Char(char),
    Tab,
    Backspace,
    /// Any other key.
    Other,
}

/// A mouse event.
#[derive(Debug, Clone, Copy, PartialEq, Eq, Structural)]
pub enum MouseInput {
    ScrollUp,
    ScrollDown,
    ScrollLeft,
    ScrollRight,
    /// Any other mouse event.
    Other,
}

/// An input event.
#[derive(Debug, Clone, Copy, PartialEq, Eq, Structural)]
pub enum InputEvent {
    Key(KeyInput),
    Mouse(MouseInput),
    /// Any other event.
    Other,
}

} // verus!
