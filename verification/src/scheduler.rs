//! Scheduler: the decision core of the watch thread's loop.  The thread
//! wakes on a short fixed tick; elapsed time accumulates toward the
//! caller-supplied poll interval, and only when the interval is reached is
//! a poll actually performed.  The tick is checked against the shutdown
//! signal every time, so a shutdown is observed with tick-level latency
//! without polling the filesystem that often.  The sleeping itself happens
//! outside the library; what is verified is every decision the loop takes.

use vstd::prelude::*;
use crate::watch::WatchEvent;

verus! {

/// What the watch loop does on one tick.
#[derive(Clone, Copy, Debug, PartialEq, Eq)]
pub enum TickStep {
    /// The shutdown signal was seen: leave the loop, with no partial poll.
    Stop,
    /// The poll interval has elapsed: perform one poll pass now.
    RunPoll,
    /// Keep accumulating: sleep one tick and check again.
    Wait,
}

/// The scheduler's state: tick length, poll interval, and the time
/// accumulated toward the next poll, all in milliseconds.
#[derive(Clone, Copy, Debug, PartialEq, Eq)]
pub struct Scheduler {
    pub tick_ms: u64,
    pub interval_ms: u64,
    pub elapsed_ms: u64,
}

/// The state every scheduler keeps: positive tick and interval, room for
/// one more tick of accumulation, and an accumulator that never runs away.
pub open spec fn scheduler_wf(s: Scheduler) -> bool {
    &&& 1 <= s.tick_ms
    &&& 1 <= s.interval_ms
    &&& s.interval_ms + s.tick_ms <= u64::MAX
    &&& s.elapsed_ms < s.interval_ms + s.tick_ms
}

impl Scheduler {
    /// A fresh scheduler that has not accumulated any time yet.
    pub fn new(interval_ms: u64, tick_ms: u64) -> (s: Scheduler)
        requires
            1 <= tick_ms,
            1 <= interval_ms,
            interval_ms + tick_ms <= u64::MAX,
        ensures
            scheduler_wf(s),
            s.tick_ms == tick_ms,
            s.interval_ms == interval_ms,
            s.elapsed_ms == 0,
    {
        Scheduler { tick_ms, interval_ms, elapsed_ms: 0 }
    }

    /// One tick of the watch loop.  A seen shutdown signal stops the loop at
    /// once — the current tick finishes, no new poll starts — so shutdown
    /// latency is bounded by a single tick.  Otherwise a poll runs exactly
    /// when the accumulated time has reached the interval, and the
    /// accumulator restarts.
    pub fn on_tick(&mut self, shutdown_seen: bool) -> (step: TickStep)
        requires
            scheduler_wf(*old(self)),
        ensures
            scheduler_wf(*final(self)),
            final(self).tick_ms == old(self).tick_ms,
            final(self).interval_ms == old(self).interval_ms,
            shutdown_seen ==> step == TickStep::Stop && *final(self) == *old(self),
            !shutdown_seen && old(self).elapsed_ms >= old(self).interval_ms ==> step
                == TickStep::RunPoll && final(self).elapsed_ms == old(self).tick_ms,
            !shutdown_seen && old(self).elapsed_ms < old(self).interval_ms ==> step
                == TickStep::Wait && final(self).elapsed_ms == old(self).elapsed_ms
                + old(self).tick_ms,
    {
        if shutdown_seen {
            return TickStep::Stop;
        }
        if self.elapsed_ms >= self.interval_ms {
            self.elapsed_ms = self.tick_ms;
            TickStep::RunPoll
        } else {
            self.elapsed_ms = self.elapsed_ms + self.tick_ms;
            TickStep::Wait
        }
    }
}

/// Only non-empty batches are handed downstream.
pub fn should_forward(events: &Vec<WatchEvent>) -> (r: bool)
    ensures
        r == (events@.len() != 0),
{
    events.len() != 0
}

} // verus!
