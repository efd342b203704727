//! Mouse button events.

use vstd::prelude::*;
use super::Event;

verus! {

/// A button of the mouse.
#[derive(Debug, Clone, Copy, PartialEq, Eq, Structural)]
pub enum MouseButton {
    Left,
    Right,
    Middle,
}

/// An event about one mouse button.
pub trait MouseButtonEvent {
    spec fn spec_mouse_button(&self) -> MouseButton;

    fn mouse_button(&self) -> (r: MouseButton)
        ensures
            r == self.spec_mouse_button(),
    ;
}

/// A mouse button went down.
#[derive(Debug, Clone, Copy, PartialEq, Eq, Structural)]
pub struct MouseButtonPressedEvent {
    handled: bool,
    mouse_button: MouseButton,
}

impl Event for MouseButtonPressedEvent {
    closed spec fn spec_handled(&self) -> bool {
        self.handled
    }

    closed spec fn marked_handled(&self) -> Self {
        MouseButtonPressedEvent { handled: true, ..*self }
    }

    closed spec fn cleared(&self) -> Self {
        MouseButtonPressedEvent { handled: false, ..*self }
    }

    proof fn lemma_marked_handled(e: Self) {
    }

    fn handled(&self) -> (r: bool) {
        self.handled
    }

    fn set_handled(&mut self)
        ensures
            final(self).spec_mouse_button() == old(self).spec_mouse_button(),
    {
        self.handled = true;
    }

    fn name() -> (r: &'static str)
        ensures
            r@ == "MouseButtonPressed"@,
    {
        "MouseButtonPressed"
    }
}

impl MouseButtonEvent for MouseButtonPressedEvent {
    closed spec fn spec_mouse_button(&self) -> MouseButton {
        self.mouse_button
    }

    fn mouse_button(&self) -> (r: MouseButton) {
        self.mouse_button
    }
}

impl MouseButtonPressedEvent {
    pub fn new(mouse_button: MouseButton) -> (r: Self)
        ensures
            !r.spec_handled(),
            r.spec_mouse_button() == mouse_button,
    {
        MouseButtonPressedEvent { handled: false, mouse_button }
    }
}

/// A mouse button went up.
#[derive(Debug, Clone, Copy, PartialEq, Eq, Structural)]
pub struct MouseButtonReleasedEvent {
    handled: bool,
    mouse_button: MouseButton,
}

impl Event for MouseButtonReleasedEvent {
    closed spec fn spec_handled(&self) -> bool {
        self.handled
    }

    closed spec fn marked_handled(&self) -> Self {
        MouseButtonReleasedEvent { handled: true, ..*self }
    }

    closed spec fn cleared(&self) -> Self {
        MouseButtonReleasedEvent { handled: false, ..*self }
    }

    proof fn lemma_marked_handled(e: Self) {
    }

    fn handled(&self) -> (r: bool) {
        self.handled
    }

    fn set_handled(&mut self)
        ensures
            final(self).spec_mouse_button() == old(self).spec_mouse_button(),
    {
        self.handled = true;
    }

    fn name() -> (r: &'static str)
        ensures
            r@ == "MouseButtonReleased"@,
    {
        "MouseButtonReleased"
    }
}

impl MouseButtonEvent for MouseButtonReleasedEvent {
    closed spec fn spec_mouse_button(&self) -> MouseButton {
        self.mouse_button
    }

    fn mouse_button(&self) -> (r: MouseButton) {
        self.mouse_button
    }
}

impl MouseButtonReleasedEvent {
    pub fn new(mouse_button: MouseButton) -> (r: Self)
        ensures
            !r.spec_handled(),
            r.spec_mouse_button() == mouse_button,
    {
        MouseButtonReleasedEvent { handled: false, mouse_button }
    }
}

} // verus!
