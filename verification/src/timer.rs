//! A small wall-clock timer for the benchmark driver: start it, run a
//! multiplication, stop it, read milliseconds.
//!
//! Readings come from the monotonic clock, so nothing can be promised about
//! their values; the contracts pin down only the bookkeeping around them.

use vstd::prelude::*;
use core::time::Duration;
use std::time::Instant;

verus! {

#[verifier::external_type_specification]
#[verifier::external_body]
pub struct ExInstant(Instant);

/// Relies on `std::time::Instant::now`: a reading of the monotonic clock.
#[verifier::external_body]
fn instant_now() -> Instant {
    Instant::now()
}

/// Relies on `std::time::Instant::elapsed`: the time since `t`, as a
/// `Duration`; `elapsed` cannot fail, the monotonic clock never runs
/// backwards.
#[verifier::external_body]
fn instant_elapsed(t: &Instant) -> Duration {
    t.elapsed()
}

/// Relies on `core::time::Duration::as_millis`: the duration in whole
/// milliseconds.
#[verifier::external_body]
fn duration_millis(d: &Duration) -> u128 {
    d.as_millis()
}

/// A stopwatch over the monotonic clock: `start` marks an instant, `stop`
/// records and returns the milliseconds elapsed since that mark.
pub struct Timer {
    t: Instant,
    millis: u128,
}

impl Timer {
    /// The last recorded duration, in milliseconds.
    pub closed spec fn spec_millis(&self) -> u128 {
        self.millis
    }

    /// The instant the timer was last marked at.
    pub closed spec fn spec_mark(&self) -> Instant {
        self.t
    }

    /// Creates a timer marked at the moment of creation, with no recorded
    /// duration.
    pub fn new() -> (r: Timer)
        ensures
            r.spec_millis() == 0,
    {
        Timer { t: instant_now(), millis: 0 }
    }

    /// Re-marks the timer at the present instant, keeping the last recorded
    /// duration.
    pub fn start(&mut self)
        ensures
            final(self).spec_millis() == old(self).spec_millis(),
    {
        self.t = instant_now();
    }

    /// Records and returns the milliseconds elapsed since the last mark.
    pub fn stop(&mut self) -> (r: u128)
        ensures
            final(self).spec_mark() == old(self).spec_mark(),
            r == final(self).spec_millis(),
    {
        let d = instant_elapsed(&self.t);
        self.millis = duration_millis(&d);
        self.millis
    }
}

} // verus!
