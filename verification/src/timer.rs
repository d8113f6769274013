use vstd::prelude::*;

verus! {

/// A repeating timer counted in milliseconds: it finishes each time the
/// time it has run reaches its duration, and goes on from what is left over.
#[derive(Clone, Copy, Debug, PartialEq, Eq, Structural)]
pub struct RepeatTimer {
    pub duration_ms: u32,
    pub elapsed_ms: u32,
}

/// The timer `t` after `delta` more milliseconds.
pub open spec fn ticked(t: RepeatTimer, delta: u32) -> RepeatTimer {
    RepeatTimer { duration_ms: t.duration_ms, elapsed_ms: ((t.elapsed_ms + delta) % (t.duration_ms as int)) as u32 }
}

/// The timer `t` finishes within the next `delta` milliseconds.
pub open spec fn finishes(t: RepeatTimer, delta: u32) -> bool {
    t.elapsed_ms + delta >= t.duration_ms
}

impl RepeatTimer {
    /// A timer of the given duration that has not run yet.
    pub fn new(duration_ms: u32) -> (t: RepeatTimer)
        ensures
            t.duration_ms == duration_ms,
            t.elapsed_ms == 0,
    {
        RepeatTimer { duration_ms, elapsed_ms: 0 }
    }

    /// Runs the timer for `delta` milliseconds; returns whether it finished
    /// meanwhile.
    pub fn tick(&mut self, delta: u32) -> (just_finished: bool)
        requires
            old(self).duration_ms > 0,
        ensures
            *final(self) == ticked(*old(self), delta),
            just_finished == finishes(*old(self), delta),
    {
        let total: u64 = self.elapsed_ms as u64 + delta as u64;
        let d: u64 = self.duration_ms as u64;
        let rest: u64 = total % d;
        assert(rest < d);
        self.elapsed_ms = rest as u32;
        total >= d
    }

    /// Starts the timer over.
    pub fn reset(&mut self)
        ensures
            final(self).duration_ms == old(self).duration_ms,
            final(self).elapsed_ms == 0,
    {
        self.elapsed_ms = 0;
    }
}

} // verus!
