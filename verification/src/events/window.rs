//! Window events.

use vstd::prelude::*;
use super::Event;

verus! {

/// The user asked to close the window.
#[derive(Debug, Clone, Copy, PartialEq, Eq, Structural)]
pub struct WindowCloseEvent {
    handled: bool,
}

impl Event for WindowCloseEvent {
    closed spec fn spec_handled(&self) -> bool {
        self.handled
    }

    closed spec fn marked_handled(&self) -> Self {
        WindowCloseEvent { handled: true }
    }

    closed spec fn cleared(&self) -> Self {
        WindowCloseEvent { handled: false }
    }

    proof fn lemma_marked_handled(e: Self) {
    }

    fn handled(&self) -> (r: bool) {
        self.handled
    }

    fn set_handled(&mut self) {
        self.handled = true;
    }

    fn name() -> (r: &'static str)
        ensures
            r@ == "WindowClose"@,
    {
        "WindowClose"
    }
}

impl WindowCloseEvent {
    pub fn new() -> (r: Self)
        ensures
            !r.spec_handled(),
    {
        WindowCloseEvent { handled: false }
    }
}

/// The window got a new size.
#[derive(Debug, Clone, Copy, PartialEq, Eq, Structural)]
pub struct WindowResizeEvent {
    handled: bool,
    width: u32,
    height: u32,
}

impl Event for WindowResizeEvent {
    closed spec fn spec_handled(&self) -> bool {
        self.handled
    }

    closed spec fn marked_handled(&self) -> Self {
        WindowResizeEvent { handled: true, ..*self }
    }

    closed spec fn cleared(&self) -> Self {
        WindowResizeEvent { handled: false, ..*self }
    }

    proof fn lemma_marked_handled(e: Self) {
    }

    fn handled(&self) -> (r: bool) {
        self.handled
    }

    fn set_handled(&mut self)
        ensures
            final(self).spec_width() == old(self).spec_width(),
            final(self).spec_height() == old(self).spec_height(),
    {
        self.handled = true;
    }

    fn name() -> (r: &'static str)
        ensures
            r@ == "WindowResize"@,
    {
        "WindowResize"
    }
}

impl WindowResizeEvent {
    pub closed spec fn spec_width(&self) -> u32 {
        self.width
    }

    pub closed spec fn spec_height(&self) -> u32 {
        self.height
    }

    pub fn new(width: u32, height: u32) -> (r: Self)
        ensures
            !r.spec_handled(),
            r.spec_width() == width,
            r.spec_height() == height,
    {
        WindowResizeEvent { handled: false, width, height }
    }

    pub fn width(&self) -> (r: u32)
        ensures
            r == self.spec_width(),
    {
        self.width
    }

    pub fn height(&self) -> (r: u32)
        ensures
            r == self.spec_height(),
    {
        self.height
    }
}

} // verus!
