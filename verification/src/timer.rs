//! A stopwatch over the monotonic clock.

use std::time::Instant;
use vstd::prelude::*;

verus! {

/// A point on the monotonic clock of the standard library.
#[verifier::external_type_specification]
#[verifier::external_body]
pub struct ExInstant(Instant);

/// The present instant. Wraps `Instant::now`; nothing is claimed of it.
#[verifier::external_body]
fn now() -> Instant {
    Instant::now()
}

/// Nanoseconds that have passed since `start`. Wraps `Instant::elapsed`
/// and converts the duration with `Duration::as_nanos`; nothing is claimed
/// of the number.
#[verifier::external_body]
fn nanos_since(start: &Instant) -> u128 {
    start.elapsed().as_nanos()
}

/// The later of an earlier reading and a new measurement.
pub open spec fn reading(reported: u128, measured: u128) -> u128 {
    if measured >= reported {
        measured
    } else {
        reported
    }
}

/// The reading to report after `reported` when the clock says `measured`:
/// the measurement, unless that would step back.
pub fn next_reading(reported: u128, measured: u128) -> (r: u128)
    ensures
        r == reading(reported, measured),
{
    if measured >= reported {
        measured
    } else {
        reported
    }
}

/// A stopwatch that starts when it is made. It cannot be paused or set.
pub struct Timer {
    started: Instant,
    reported: u128,
}

impl Timer {
    /// The latest reading handed out, in nanoseconds; 0 before the first.
    pub closed spec fn last_reading(&self) -> u128 {
        self.reported
    }

    /// Starts a stopwatch.
    pub fn start() -> (timer: Timer)
        ensures
            timer.last_reading() == 0,
    {
        Timer { started: now(), reported: 0 }
    }

    /// Nanoseconds since the start. A reading is never below an earlier
    /// one of the same stopwatch.
    pub fn elapsed(&mut self) -> (nanos: u128)
        ensures
            nanos >= old(self).last_reading(),
            final(self).last_reading() == nanos,
    {
        let measured = nanos_since(&self.started);
        let r = next_reading(self.reported, measured);
        self.reported = r;
        r
    }
}

} // verus!
