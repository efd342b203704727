//! Input and window events, and the dispatcher that hands one event to a
//! handler.

pub mod key;
pub mod mouse;
pub mod window;

use vstd::prelude::*;

verus! {

/// Something that happened to the window or an input device, which a
/// handler may mark as handled.
pub trait Event: Sized {
    /// Whether a handler has taken care of the event.
    spec fn spec_handled(&self) -> bool;

    /// The same event, marked as handled.
    spec fn marked_handled(&self) -> Self;

    /// The same event, not handled.
    spec fn cleared(&self) -> Self;

    /// An event marked as handled is handled, and differs from the event in
    /// nothing else.
    proof fn lemma_marked_handled(e: Self)
        ensures
            e.marked_handled().spec_handled(),
            e.marked_handled().cleared() == e.cleared(),
    ;

    fn handled(&self) -> (r: bool)
        ensures
            r == self.spec_handled(),
    ;

    fn set_handled(&mut self)
        ensures
            *final(self) == old(self).marked_handled(),
            final(self).spec_handled(),
    ;

    /// The name of the kind of event.
    fn name() -> &'static str;
}

/// Holds one event while handlers are offered it.
pub struct Dispatcher<T> {
    event: T,
}

impl<T: Event> Dispatcher<T> {
    /// The event being dispatched.
    pub closed spec fn spec_event(&self) -> T {
        self.event
    }

    pub fn new(event: T) -> (r: Self)
        ensures
            r.spec_event() == event,
    {
        Dispatcher { event }
    }

    /// Offers the event to a handler; when the handler reports that it took
    /// care of the event, the event is marked as handled.
    pub fn dispatch<F: Fn(&T) -> bool>(&mut self, func: F)
        requires
            call_requires(func, (&old(self).spec_event(),)),
        ensures
            exists|h: bool|
                #[trigger] call_ensures(func, (&old(self).spec_event(),), h) && if h {
                    &&& final(self).spec_event() == old(self).spec_event().marked_handled()
                    &&& final(self).spec_event().spec_handled()
                    &&& final(self).spec_event().cleared() == old(self).spec_event().cleared()
                } else {
                    final(self).spec_event() == old(self).spec_event()
                },
    {
        proof {
            T::lemma_marked_handled(self.event);
        }
        let handled = func(&self.event);
        if handled {
            self.event.set_handled();
        }
    }
}

} // verus!
