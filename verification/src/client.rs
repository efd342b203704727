//! The bookkeeping of the client's main loop: the time it has run and the
//! frames drawn in the current second.

use vstd::prelude::*;

verus! {

/// Nanoseconds in a second.
pub const NANOS_PER_SEC: usize = 1_000_000_000;

/// Time and frame counts of the main loop.
pub struct FrameCounter {
    time: usize,
    frames: usize,
    last_full_sec: usize,
}

pub struct FrameCounterView {
    pub time: usize,
    pub frames: usize,
    pub last_full_sec: usize,
}

impl View for FrameCounter {
    type V = FrameCounterView;

    closed spec fn view(&self) -> FrameCounterView {
        FrameCounterView { time: self.time, frames: self.frames, last_full_sec: self.last_full_sec }
    }
}

impl FrameCounter {
    /// The last full second lies in the time run.
    pub open spec fn wf(&self) -> bool {
        self@.last_full_sec <= self@.time
    }

    pub fn new() -> (r: Self)
        ensures
            r.wf(),
            r@ == (FrameCounterView { time: 0, frames: 0, last_full_sec: 0 }),
    {
        FrameCounter { time: 0, frames: 0, last_full_sec: 0 }
    }

    /// The nanoseconds the loop has run.
    pub fn time(&self) -> (r: usize)
        ensures
            r == self@.time,
    {
        self.time
    }

    /// Counts a frame that took `delta` nanoseconds. Once a second or more
    /// has passed since the last full second, that moment becomes the last
    /// full second and the frames counted since are handed out, to be
    /// reported as the frame rate, and counting starts over.
    pub fn frame(&mut self, delta: usize) -> (r: Option<usize>)
        requires
            old(self).wf(),
            old(self)@.time + delta <= usize::MAX,
            old(self)@.frames < usize::MAX,
        ensures
            final(self).wf(),
            final(self)@.time == old(self)@.time + delta,
            ({
                let t = old(self)@.time + delta;
                let f = old(self)@.frames + 1;
                if t - old(self)@.last_full_sec >= NANOS_PER_SEC {
                    &&& r == Some(f as usize)
                    &&& final(self)@.frames == 0
                    &&& final(self)@.last_full_sec == t
                } else {
                    &&& r is None
                    &&& final(self)@.frames == f
                    &&& final(self)@.last_full_sec == old(self)@.last_full_sec
                }
            }),
    {
        self.time = self.time + delta;
        self.frames = self.frames + 1;
        if self.time - self.last_full_sec >= NANOS_PER_SEC {
            let fps = self.frames;
            self.last_full_sec = self.time;
            self.frames = 0;
            Some(fps)
        } else {
            None
        }
    }
}

} // verus!
