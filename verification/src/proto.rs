//! Common protocol types shared by the control surfaces.

use vstd::prelude::*;
use crate::clock;

verus! {

/// A wall-clock timestamp: whole seconds since the Unix epoch plus the
/// fractional part in nanoseconds.
#[derive(Debug, Clone, Copy, PartialEq, Eq, Structural)]
pub struct Timestamp {
    /// Whole seconds since the epoch.
    pub seconds: i64,
    /// Nanoseconds within the second.
    pub nanos: i32,
}

impl Timestamp {
    /// A timestamp is normalized when its fractional part names a
    /// nanosecond within one second and neither part is negative.
    pub open spec fn spec_normalized(self) -> bool {
        0 <= self.seconds && 0 <= self.nanos < 1_000_000_000
    }

    /// Build a timestamp from a nanosecond count since the epoch.
    pub fn from_nanos(total_ns: u64) -> (t: Timestamp)
        ensures
            t.spec_normalized(),
            t.seconds == total_ns / 1_000_000_000,
            t.nanos == total_ns % 1_000_000_000,
    {
        Timestamp {
            seconds: (total_ns / 1_000_000_000) as i64,
            nanos: (total_ns % 1_000_000_000) as i32,
        }
    }

    /// The current wall-clock time, normalized.
    pub fn now() -> (t: Timestamp)
        ensures
            t.spec_normalized(),
    {
        let sys_now = clock::system_time_now();
        Timestamp::from_nanos(clock::nanos_since_unix_epoch(&sys_now))
    }
}

} // verus!
