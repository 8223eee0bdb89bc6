//! Decisions of a restartable countdown. Times are milliseconds on a
//! monotonic clock that the caller reads; the caller also runs the ticker
//! and invokes the callback when `poll` says the timer fired.
use crate::config::{ELECTION_TIMEOUT_MAX_MILLIS, ELECTION_TIMEOUT_MIN_MILLIS};
use vstd::prelude::*;

verus! {

pub open spec fn saturating_sum(a: u64, b: u64) -> u64 {
    if a + b > u64::MAX { u64::MAX } else { (a + b) as u64 }
}

fn add_saturating(a: u64, b: u64) -> (r: u64)
    ensures
        r == saturating_sum(a, b),
{
    if a > u64::MAX - b { u64::MAX } else { a + b }
}

/// A named countdown: when running, it fires once the clock reaches its
/// next trigger time, and then waits one more interval.
#[derive(Debug)]
pub struct Timer {
    pub name: String,
    /// Whether the timer is running.
    pub alive: bool,
    pub trigger_interval: u64,
    pub next_trigger: u64,
    /// When the timer was last reset, if ever.
    pub last_reset_at: Option<u64>,
}

impl Timer {
    /// A stopped timer with the longest interval.
    pub fn new(name: &str) -> (r: Timer)
        ensures
            r.name@ == name@,
            !r.alive,
            r.trigger_interval == u64::MAX,
            r.last_reset_at is None,
    {
        let n = name.to_string();
        proof {
            vstd::string::to_string_from_display_ensures_for_str(name, n);
        }
        Timer { name: n, alive: false, trigger_interval: u64::MAX, next_trigger: 0, last_reset_at: None }
    }

    /// Starts the timer at `now` with `trigger_interval`.
    pub fn schedule(&mut self, trigger_interval: u64, now: u64)
        ensures
            final(self).alive,
            final(self).trigger_interval == trigger_interval,
            final(self).next_trigger == saturating_sum(now, trigger_interval),
            final(self).last_reset_at == old(self).last_reset_at,
            final(self).name == old(self).name,
    {
        self.trigger_interval = trigger_interval;
        self.next_trigger = add_saturating(now, trigger_interval);
        self.alive = true;
    }

    /// Reschedules the deadline from `now` with a new interval, and records
    /// `now` as the time of the reset.
    pub fn reset(&mut self, trigger_interval: u64, now: u64)
        ensures
            final(self).alive == old(self).alive,
            final(self).trigger_interval == trigger_interval,
            final(self).next_trigger == saturating_sum(now, trigger_interval),
            final(self).last_reset_at == Some(now),
            final(self).name == old(self).name,
    {
        self.last_reset_at = Some(now);
        self.trigger_interval = trigger_interval;
        self.next_trigger = add_saturating(now, trigger_interval);
    }

    /// Stops the timer; it no longer fires.
    pub fn stop(&mut self)
        ensures
            !final(self).alive,
            final(self).trigger_interval == old(self).trigger_interval,
            final(self).next_trigger == old(self).next_trigger,
            final(self).last_reset_at == old(self).last_reset_at,
            final(self).name == old(self).name,
    {
        self.alive = false;
    }

    /// One tick of the ticker at `now`: a running timer whose deadline has
    /// passed fires, and its next deadline is one interval from `now`.
    pub fn poll(&mut self, now: u64) -> (r: bool)
        ensures
            r == (old(self).alive && old(self).next_trigger <= now),
            final(self).next_trigger == if r { saturating_sum(now, old(self).trigger_interval) } else { old(self).next_trigger },
            final(self).alive == old(self).alive,
            final(self).trigger_interval == old(self).trigger_interval,
            final(self).last_reset_at == old(self).last_reset_at,
            final(self).name == old(self).name,
    {
        if self.alive && self.next_trigger <= now {
            self.next_trigger = add_saturating(now, self.trigger_interval);
            true
        } else {
            false
        }
    }
}

/// An election timeout within the configured range, drawn from the random
/// number `random`.
pub fn random_election_timeout(random: u64) -> (r: u64)
    ensures
        ELECTION_TIMEOUT_MIN_MILLIS <= r <= ELECTION_TIMEOUT_MAX_MILLIS,
        r == ELECTION_TIMEOUT_MIN_MILLIS + random % (ELECTION_TIMEOUT_MAX_MILLIS - ELECTION_TIMEOUT_MIN_MILLIS + 1) as u64,
{
    ELECTION_TIMEOUT_MIN_MILLIS + random % (ELECTION_TIMEOUT_MAX_MILLIS - ELECTION_TIMEOUT_MIN_MILLIS + 1)
}

} // verus!
