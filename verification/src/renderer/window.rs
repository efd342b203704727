//! Input as the window reports it.

use vstd::prelude::*;

verus! {

/// A mouse button as the window reports it.
#[derive(Debug, Clone, Copy, PartialEq, Eq, Structural)]
pub enum MouseButton {
    Left,
    Right,
    Middle,
    Other,
}

impl MouseButton {
    /// The button with the given number as the windowing library counts
    /// them: the first is the left button, the second the right one, the
    /// third the middle one; all others are `Other`.
    pub fn from_button_number(number: i32) -> (r: MouseButton)
        ensures
            r == (if number == 0 {
                MouseButton::Left
            } else if number == 1 {
                MouseButton::Right
            } else if number == 2 {
                MouseButton::Middle
            } else {
                MouseButton::Other
            }),
    {
        if number == 0 {
            MouseButton::Left
        } else if number == 1 {
            MouseButton::Right
        } else if number == 2 {
            MouseButton::Middle
        } else {
            MouseButton::Other
        }
    }
}

} // verus!
