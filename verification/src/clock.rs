//! Time sources. Every decision in the library takes time as a plain number
//! of milliseconds (or seconds) so it can be stated and proved; these are the
//! few functions that read an actual clock, and nothing is promised of what
//! they return.
use vstd::prelude::*;

verus! {

#[verifier::external_type_specification]
#[verifier::external_body]
pub struct ExInstant(std::time::Instant);

/// A monotonic clock started when its owner was created. It remembers the
/// latest reading it handed out through [`Clock::tick`], and no reading is
/// ever earlier than that one.
pub struct Clock {
    origin: std::time::Instant,
    latest: u64,
}

/// `std::time::Instant::now`.
#[verifier::external_body]
fn instant_now() -> std::time::Instant {
    std::time::Instant::now()
}

/// Milliseconds elapsed since `origin` (`Instant::elapsed`), saturated to
/// `u64`. A monotonic reading: nothing more is promised.
#[verifier::external_body]
fn elapsed_ms(origin: &std::time::Instant) -> u64 {
    u64::try_from(origin.elapsed().as_millis()).unwrap_or(u64::MAX)
}

/// Milliseconds since the Unix epoch by the wall clock
/// (`SystemTime::now().duration_since(UNIX_EPOCH)`), 0 before the epoch.
#[verifier::external_body]
pub(crate) fn unix_millis() -> u64 {
    std::time::SystemTime::now()
        .duration_since(std::time::UNIX_EPOCH)
        .map(|d| u64::try_from(d.as_millis()).unwrap_or(u64::MAX))
        .unwrap_or(0)
}

impl Clock {
    /// The latest reading handed out by [`Clock::tick`] (0 before the first).
    pub closed spec fn latest(&self) -> u64 {
        self.latest
    }

    pub fn start() -> (r: Clock)
        ensures
            r.latest() == 0,
    {
        Clock { origin: instant_now(), latest: 0 }
    }

    /// Milliseconds since this clock started, never earlier than the latest
    /// reading handed out.
    pub fn now_ms(&self) -> (r: u64)
        ensures
            r >= self.latest(),
    {
        let elapsed = elapsed_ms(&self.origin);
        if elapsed < self.latest {
            self.latest
        } else {
            elapsed
        }
    }

    /// Reads the clock and records the reading: successive ticks never go
    /// backwards.
    pub fn tick(&mut self) -> (r: u64)
        ensures
            r >= old(self).latest(),
            final(self).latest() == r,
    {
        let r = self.now_ms();
        self.latest = r;
        r
    }
}

/// The wall clock in whole seconds since the Unix epoch.
pub fn epoch_seconds() -> u64 {
    unix_millis() / 1000
}

} // verus!
