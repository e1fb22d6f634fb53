//! Repeating and one-shot timers driven by an externally supplied elapsed time.

use vstd::prelude::*;

verus! {

/// Tracks elapsed time and finishes once `duration` is reached.
///
/// All times are in one unit of the caller's choice; the game counts
/// microseconds. A one-shot timer stops tracking once it has finished and
/// stays finished. A repeating timer is finished only on the ticks on which
/// `duration` is reached or exceeded, and then keeps the excess.
#[derive(Clone, Copy, Debug, PartialEq, Eq, Structural)]
pub struct Timer {
    /// Time accumulated so far.
    pub elapsed: u64,
    /// The interval after which the timer finishes.
    pub duration: u64,
    /// Whether the last tick reached the interval.
    pub finished: bool,
    /// Whether the last tick was the one on which the interval was reached.
    pub just_finished: bool,
    /// Whether the timer starts over after finishing.
    pub repeating: bool,
}

impl Timer {
    /// A timer with the given interval and mode and nothing accumulated.
    pub open spec fn fresh(duration: u64, repeating: bool) -> Timer {
        Timer { elapsed: 0, duration, finished: false, just_finished: false, repeating }
    }

    /// A fresh timer with nothing accumulated.
    pub fn new(duration: u64, repeating: bool) -> (t: Timer)
        ensures
            t == Timer::fresh(duration, repeating),
    {
        Timer { elapsed: 0, duration, finished: false, just_finished: false, repeating }
    }

    /// Whether the accumulator has already reached the interval.
    pub open spec fn expired(self) -> bool {
        self.elapsed >= self.duration
    }

    /// The accumulator after adding `delta`, before any wrap-around. A timer
    /// that has already expired does not accumulate.
    pub open spec fn total(self, delta: u64) -> int {
        if self.expired() {
            self.elapsed as int
        } else {
            self.elapsed + delta
        }
    }

    /// The timer after a tick of `delta`.
    ///
    /// It is finished exactly when the accumulated total reaches the
    /// interval. A repeating timer that finishes keeps the total modulo the
    /// interval (zero for a zero interval); otherwise the total is kept,
    /// capped at `u64::MAX`.
    pub open spec fn ticked(self, delta: u64) -> Timer {
        let total = self.total(delta);
        let finished = total >= self.duration;
        Timer {
            elapsed: if self.repeating && finished {
                if self.duration == 0 {
                    0
                } else {
                    (total % (self.duration as int)) as u64
                }
            } else if total > u64::MAX {
                u64::MAX
            } else {
                total as u64
            },
            duration: self.duration,
            finished,
            just_finished: !self.expired() && finished,
            repeating: self.repeating,
        }
    }

    /// Advances the timer by `delta` and reports whether it is finished.
    pub fn tick(&mut self, delta: u64) -> (fired: bool)
        ensures
            *final(self) == old(self).ticked(delta),
            fired == final(self).finished,
    {
        let prev_finished = self.elapsed >= self.duration;
        let total: u128 = if prev_finished {
            self.elapsed as u128
        } else {
            self.elapsed as u128 + delta as u128
        };
        let finished = total >= self.duration as u128;
        if self.repeating && finished {
            if self.duration == 0 {
                self.elapsed = 0;
            } else {
                self.elapsed = (total % (self.duration as u128)) as u64;
            }
        } else if total > u64::MAX as u128 {
            self.elapsed = u64::MAX;
        } else {
            self.elapsed = total as u64;
        }
        self.finished = finished;
        self.just_finished = !prev_finished && finished;
        finished
    }

    /// Puts the timer back to its fresh state, keeping interval and mode.
    pub fn reset(&mut self)
        ensures
            *final(self) == (Timer {
                elapsed: 0,
                finished: false,
                just_finished: false,
                ..*old(self)
            }),
    {
        self.finished = false;
        self.just_finished = false;
        self.elapsed = 0;
    }
}

} // verus!
