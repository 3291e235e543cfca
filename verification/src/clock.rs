//! Points in time, as far as the ledger reads them.

use vstd::prelude::*;

verus! {

/// Seconds per day.
pub const SECONDS_PER_DAY: i64 = 86400;

/// A point in time: whole seconds since the Unix epoch, and the nanoseconds
/// into that second.
#[derive(Clone, Copy, Debug, PartialEq, Eq, Structural)]
pub struct Timestamp {
    pub secs: i64,
    pub nanos: u32,
}

impl Timestamp {
    /// The number of the day the timestamp falls on, counted from the epoch;
    /// days before the epoch have negative numbers.
    pub open spec fn spec_day_number(self) -> int {
        self.secs as int / 86400
    }

    /// The number of the day the timestamp falls on.
    pub fn day_number(self) -> (d: i64)
        ensures
            d == self.spec_day_number(),
    {
        let q = self.secs / SECONDS_PER_DAY;
        let m = self.secs % SECONDS_PER_DAY;
        if m < 0 {
            q - 1
        } else {
            q
        }
    }
}

/// Reads the system clock (`std::time::SystemTime::now`), turns it into a
/// `chrono::DateTime<Utc>` by chrono's conversion from `SystemTime`, and
/// splits that into `timestamp()` and `timestamp_subsec_nanos()`. The
/// conversion takes a clock that stands before 1970 as a negative number of
/// seconds. Nothing is claimed of the value: it is whatever the clock says.
#[verifier::external_body]
pub(crate) fn current_time() -> (now: Timestamp) {
    let now = chrono::DateTime::<chrono::Utc>::from(std::time::SystemTime::now());
    Timestamp { secs: now.timestamp(), nanos: now.timestamp_subsec_nanos() }
}

} // verus!
