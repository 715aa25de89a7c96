//! A stopwatch.

use std::time::Instant;
use vstd::prelude::*;

verus! {

/// `std::time::Instant`, a reading of the monotonic clock. The library does
/// not look inside it.
#[verifier::external_type_specification]
#[verifier::external_body]
pub struct ExInstant(Instant);

/// `std::time::Instant::now`: the reading of the monotonic clock at the
/// moment of the call. Nothing is claimed of the instant that comes back.
#[verifier::external_body]
fn clock_now() -> (now: Instant) {
    Instant::now()
}

/// A stopwatch that remembers when it was started.
pub struct EZTimer {
    start: Instant,
}

impl EZTimer {
    /// The instant at which this timer was started.
    pub closed spec fn started(&self) -> Instant {
        self.start
    }

    /// Starts a timer at the current reading of the clock.
    pub fn new() -> (timer: Self) {
        Self { start: clock_now() }
    }

    /// The instant at which this timer was started.
    pub fn start(&self) -> (at: Instant)
        ensures
            at == self.started(),
    {
        self.start
    }
}

} // verus!
