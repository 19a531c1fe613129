//! Periodic task scheduling, reduced to its decision: given the moment a
//! task last ran and its interval, is it due again now? The caller reads
//! the clock, drives the loop and runs the task; the bookkeeping is here.

use vstd::prelude::*;

verus! {

/// A task run at every interval of its timer.
pub trait TimedTask {
    /// Performs one round of the task's work.
    fn execute(&self);
}

/// The schedule of one periodic task: its name, its interval, and when it
/// last ran, all in milliseconds of the caller's monotonic clock.
pub struct Timer {
    pub identification: String,
    pub interval_ms: u64,
    pub last_update_ms: u64,
}

impl Timer {
    /// A timer whose task counts as having just run at `now_ms`.
    pub fn new(identification: String, interval_ms: u64, now_ms: u64) -> (r: Self)
        ensures
            r.identification@ == identification@,
            r.interval_ms == interval_ms,
            r.last_update_ms == now_ms,
    {
        Self { identification, last_update_ms: now_ms, interval_ms }
    }

    /// Decides whether the task is due at `now_ms`; if it is, the run is
    /// recorded and the caller executes the task. A clock reading before
    /// the last recorded run counts as not due.
    pub fn update(&mut self, now_ms: u64) -> (due: bool)
        ensures
            due == (old(self).last_update_ms <= now_ms && now_ms - old(self).last_update_ms
                >= old(self).interval_ms),
            final(self).identification@ == old(self).identification@,
            final(self).interval_ms == old(self).interval_ms,
            final(self).last_update_ms == (if due {
                now_ms
            } else {
                old(self).last_update_ms
            }),
    {
        if self.last_update_ms <= now_ms && now_ms - self.last_update_ms >= self.interval_ms {
            self.last_update_ms = now_ms;
            true
        } else {
            false
        }
    }
}

} // verus!
