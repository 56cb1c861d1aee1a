//! A wall-clock stopwatch over the operating system's monotonic clock.
//!
//! What the clock returns depends on the machine and the moment, so nothing
//! is promised of a reading; every caller states what holds of an arbitrary
//! measurement.

use std::time::Instant;
use vstd::prelude::*;

verus! {

#[verifier::external_type_specification]
#[verifier::external_body]
pub struct ExInstant(Instant);

/// A running stopwatch.
pub struct WallClockTimer {
    start: Instant,
}

impl WallClockTimer {
    /// Relies on `std::time::Instant::now`: an opaque reading of the
    /// monotonic clock.
    #[verifier::external_body]
    pub fn start() -> WallClockTimer {
        WallClockTimer { start: Instant::now() }
    }

    /// Relies on `Instant::elapsed` and `Duration::as_micros`: the time
    /// since the stopwatch started, in whole microseconds, saturated at
    /// `u64::MAX`. Of a clock reading nothing more can be promised.
    #[verifier::external_body]
    pub fn stop(&self) -> u64 {
        let elapsed = self.start.elapsed().as_micros();
        u64::try_from(elapsed).unwrap_or(u64::MAX)
    }
}

} // verus!
