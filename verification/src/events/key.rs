//! Keyboard events.

use vstd::prelude::*;
use super::Event;

verus! {

/// The code of a key as the windowing system reports it.
pub type KeyCode = i32;

/// An event about one key.
pub trait KeyEvent {
    spec fn spec_key_code(&self) -> KeyCode;

    fn key_code(&self) -> (r: KeyCode)
        ensures
            r == self.spec_key_code(),
    ;
}

/// A key went down, or repeats while held.
#[derive(Debug, Clone, Copy, PartialEq, Eq, Structural)]
pub struct KeyPressedEvent {
    handled: bool,
    key_code: KeyCode,
    repeat_count: i32,
}

impl Event for KeyPressedEvent {
    closed spec fn spec_handled(&self) -> bool {
        self.handled
    }

    closed spec fn marked_handled(&self) -> Self {
        KeyPressedEvent { handled: true, ..*self }
    }

    closed spec fn cleared(&self) -> Self {
        KeyPressedEvent { handled: false, ..*self }
    }

    proof fn lemma_marked_handled(e: Self) {
    }

    fn handled(&self) -> (r: bool) {
        self.handled
    }

    fn set_handled(&mut self)
        ensures
            final(self).spec_key_code() == old(self).spec_key_code(),
            final(self).spec_repeat_count() == old(self).spec_repeat_count(),
    {
        self.handled = true;
    }

    fn name() -> (r: &'static str)
        ensures
            r@ == "KeyPressed"@,
    {
        "KeyPressed"
    }
}

impl KeyEvent for KeyPressedEvent {
    closed spec fn spec_key_code(&self) -> KeyCode {
        self.key_code
    }

    fn key_code(&self) -> (r: KeyCode) {
        self.key_code
    }
}

impl KeyPressedEvent {
    /// How often the key has repeated while held.
    pub closed spec fn spec_repeat_count(&self) -> i32 {
        self.repeat_count
    }

    pub fn new(key_code: KeyCode, repeat_count: i32) -> (r: Self)
        ensures
            !r.spec_handled(),
            r.spec_key_code() == key_code,
            r.spec_repeat_count() == repeat_count,
    {
        KeyPressedEvent { handled: false, key_code, repeat_count }
    }

    pub fn repeat_count(&self) -> (r: i32)
        ensures
            r == self.spec_repeat_count(),
    {
        self.repeat_count
    }
}

/// A key went up.
#[derive(Debug, Clone, Copy, PartialEq, Eq, Structural)]
pub struct KeyReleasedEvent {
    handled: bool,
    key_code: KeyCode,
}

impl Event for KeyReleasedEvent {
    closed spec fn spec_handled(&self) -> bool {
        self.handled
    }

    closed spec fn marked_handled(&self) -> Self {
        KeyReleasedEvent { handled: true, ..*self }
    }

    closed spec fn cleared(&self) -> Self {
        KeyReleasedEvent { handled: false, ..*self }
    }

    proof fn lemma_marked_handled(e: Self) {
    }

    fn handled(&self) -> (r: bool) {
        self.handled
    }

    fn set_handled(&mut self)
        ensures
            final(self).spec_key_code() == old(self).spec_key_code(),
    {
        self.handled = true;
    }

    fn name() -> (r: &'static str)
        ensures
            r@ == "KeyReleased"@,
    {
        "KeyReleased"
    }
}

impl KeyEvent for KeyReleasedEvent {
    closed spec fn spec_key_code(&self) -> KeyCode {
        self.key_code
    }

    fn key_code(&self) -> (r: KeyCode) {
        self.key_code
    }
}

impl KeyReleasedEvent {
    pub fn new(key_code: KeyCode) -> (r: Self)
        ensures
            !r.spec_handled(),
            r.spec_key_code() == key_code,
    {
        KeyReleasedEvent { handled: false, key_code }
    }
}

} // verus!
