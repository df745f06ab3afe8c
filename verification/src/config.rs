use vstd::prelude::*;

use std::time::Duration;

verus! {

/// Command-line settings.
#[derive(Clone, Debug)]
pub struct Cli {
    /// Refresh interval in milliseconds
    pub interval: u64,
    /// Run the system-profile analysis on startup
    pub profile: bool,
}

/// The duration that `Duration::from_millis(ms)` gives.
pub uninterp spec fn millis_duration(ms: u64) -> Duration;

/// `Duration::from_millis` of the standard library: the duration of `ms`
/// milliseconds. Its value is named, and different millisecond counts give
/// different durations (a `Duration` holds whole seconds and nanoseconds, and
/// `ms` milliseconds are `ms / 1000` seconds and `ms % 1000` million
/// nanoseconds).
#[verifier::external_body]
fn duration_from_millis(ms: u64) -> (d: Duration)
    ensures
        d == millis_duration(ms),
        forall|m: u64| #[trigger] millis_duration(m) == d ==> m == ms,
{
    Duration::from_millis(ms)
}

impl Cli {
    /// The refresh interval as a duration.
    pub fn interval_duration(&self) -> (d: Duration)
        ensures
            d == millis_duration(self.interval),
            forall|m: u64| #[trigger] millis_duration(m) == d ==> m == self.interval,
    {
        duration_from_millis(self.interval)
    }
}

} // verus!
