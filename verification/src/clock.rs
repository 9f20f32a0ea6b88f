//! Points in time.

use chrono::Utc;
use vstd::prelude::*;

verus! {

/// A point in time: the seconds since the start of 1970 in UTC, and the
/// nanoseconds since the last full second. In a leap second the nanoseconds
/// go beyond a billion.
#[derive(Clone, Copy, Debug, PartialEq, Eq, Structural)]
pub struct Timestamp {
    pub seconds: i64,
    pub nanos: u32,
}

/// `Utc::now`: the current time of the system's clock, with the nanoseconds in
/// the range that `DateTime::timestamp_subsec_nanos` has. Nothing more is said
/// of it. It panics where the clock stands before 1970.
#[verifier::external_body]
pub(crate) fn now() -> (t: Timestamp)
    ensures
        t.nanos < 2_000_000_000,
{
    let at = Utc::now();
    Timestamp { seconds: at.timestamp(), nanos: at.timestamp_subsec_nanos() }
}

} // verus!
