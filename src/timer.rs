use vstd::prelude::*;

verus! {

/// A countdown measured in microseconds.
///
/// A timer is `ready` once its countdown has reached zero; it stays ready
/// until it is reset.
#[derive(Clone, Copy)]
pub struct Timer {
    pub duration: u64,
    pub time_left: u64,
}

impl Timer {
    pub open spec fn wf(&self) -> bool {
        self.time_left <= self.duration
    }

    pub open spec fn is_ready(&self) -> bool {
        self.time_left == 0
    }

    /// A fresh timer that will be ready after `duration` microseconds.
    pub fn from_micros(duration: u64) -> (t: Timer)
        ensures
            t.wf(),
            t.duration == duration,
            t.time_left == duration,
    {
        Timer { duration, time_left: duration }
    }

    /// Counts `delta` microseconds off the countdown, stopping at zero.
    pub fn update(&mut self, delta: u64)
        requires
            old(self).wf(),
        ensures
            final(self).wf(),
            final(self).duration == old(self).duration,
            final(self).time_left == if old(self).time_left >= delta {
                old(self).time_left - delta
            } else {
                0
            },
    {
        self.time_left = self.time_left.saturating_sub(delta);
    }

    /// Starts the countdown again from the full duration.
    pub fn reset(&mut self)
        ensures
            final(self).wf(),
            final(self).duration == old(self).duration,
            final(self).time_left == old(self).duration,
    {
        self.time_left = self.duration;
    }

    pub fn ready(&self) -> (r: bool)
        ensures
            r == self.is_ready(),
    {
        self.time_left == 0
    }
}

} // verus!
