//! Points in time.

use vstd::prelude::*;

verus! {

/// A point in universal time: whole seconds since 1970, and the nanoseconds after them.
#[derive(Clone, Copy, Debug, PartialEq, Eq, Structural)]
pub struct Timestamp {
    pub secs: i64,
    pub nanos: u32,
}

/// The first second that a date of the calendar can hold, in the year -262143.
pub const FIRST_SECOND: i64 = -8_334_601_228_800;

/// The last second that a date of the calendar can hold, in the year 262142.
pub const LAST_SECOND: i64 = 8_210_266_876_799;

/// Calls `chrono::Local::now` and `to_utc`: the current time by the machine's clock. It is a date
/// that `chrono` can hold, and less than a second lies behind its whole seconds. Which time it is,
/// and that it goes on from call to call, is not claimed.
#[verifier::external_body]
fn current() -> (now: (i64, u32))
    ensures
        FIRST_SECOND <= now.0 <= LAST_SECOND,
        now.1 < 1_000_000_000,
{
    let now = chrono::Local::now().to_utc();
    (now.timestamp(), now.timestamp_subsec_nanos())
}

impl Timestamp {
    /// Whether the point in time is a date of the calendar and a fraction of a second.
    pub open spec fn in_calendar(self) -> bool {
        FIRST_SECOND <= self.secs <= LAST_SECOND && self.nanos < 1_000_000_000
    }

    /// The current time.
    pub fn now() -> (t: Timestamp)
        ensures
            t.in_calendar(),
    {
        let (secs, nanos) = current();
        Timestamp { secs, nanos }
    }
}

} // verus!
