//! Points in time and time-to-live spans, as plain numbers, and the clock
//! that the store reads.

use std::time::SystemTime;
use std::time::UNIX_EPOCH;
use vstd::prelude::*;

verus! {

/// Nanoseconds in one second.
pub const NANOS_PER_SEC: u128 = 1_000_000_000;

/// A point in time: seconds and nanoseconds that have passed since the Unix
/// epoch.
#[derive(Clone, Copy, Debug, PartialEq, Eq)]
pub struct Timestamp {
    pub secs: u64,
    pub nanos: u32,
}

/// How long a key lives after it was written: seconds and nanoseconds.
#[derive(Clone, Copy, Debug, PartialEq, Eq)]
pub struct Ttl {
    pub secs: u64,
    pub nanos: u32,
}

impl Timestamp {
    /// The point in time as a number of nanoseconds since the epoch.
    pub open spec fn as_nanos(self) -> nat {
        (self.secs * 1_000_000_000 + self.nanos) as nat
    }

    /// Computes `as_nanos`.
    pub fn total_nanos(&self) -> (n: u128)
        ensures
            n == self.as_nanos(),
            n <= Self::max_nanos(),
    {
        let secs: u128 = self.secs as u128;
        let nanos: u128 = self.nanos as u128;
        secs * NANOS_PER_SEC + nanos
    }

    /// Whether the nanoseconds are less than one second, so that `secs` counts
    /// every whole second of the point in time.
    pub open spec fn is_normal(self) -> bool {
        self.nanos < 1_000_000_000
    }

    /// The latest point in time that a `Timestamp` can hold, in nanoseconds.
    pub open spec fn max_nanos() -> nat {
        (u64::MAX * 1_000_000_000 + u32::MAX) as nat
    }
}

impl Ttl {
    /// The span as a number of nanoseconds.
    pub open spec fn as_nanos(self) -> nat {
        (self.secs * 1_000_000_000 + self.nanos) as nat
    }

    /// Computes `as_nanos`.
    pub fn total_nanos(&self) -> (n: u128)
        ensures
            n == self.as_nanos(),
            n <= Timestamp::max_nanos(),
    {
        let secs: u128 = self.secs as u128;
        let nanos: u128 = self.nanos as u128;
        secs * NANOS_PER_SEC + nanos
    }
}

/// The span of an optional time-to-live, in nanoseconds.
pub open spec fn span_of(ttl: Option<Ttl>) -> Option<nat> {
    match ttl {
        Some(span) => Some(span.as_nanos()),
        None => None,
    }
}

/// The moment at which a key written at `now` with the time-to-live `ttl` is
/// due to expire, in nanoseconds since the epoch. The sum always fits.
pub fn deadline(now: Timestamp, ttl: Ttl) -> (due: u128)
    ensures
        due == now.as_nanos() + ttl.as_nanos(),
{
    now.total_nanos() + ttl.total_nanos()
}

/// Reads the system clock through `std::time::SystemTime::now` and measures
/// it from the Unix epoch with `duration_since`, taking the seconds with
/// `Duration::as_secs` and the rest with `Duration::subsec_nanos`. The result
/// is `None` where the clock stands before the epoch. Of a reading only what
/// `subsec_nanos` documents is claimed: its nanoseconds are less than one
/// second. Which moment is read is not claimed.
#[verifier::external_body]
fn read_clock() -> (reading: Option<Timestamp>)
    ensures
        reading matches Some(moment) ==> moment.is_normal(),
{
    match SystemTime::now().duration_since(UNIX_EPOCH) {
        Ok(elapsed) => Some(Timestamp { secs: elapsed.as_secs(), nanos: elapsed.subsec_nanos() }),
        Err(_) => None,
    }
}

/// The moment that a reading of the clock stands for: the reading itself, or
/// the epoch where the clock stood before the epoch.
pub open spec fn moment_of(reading: Option<Timestamp>) -> Timestamp {
    match reading {
        Some(moment) => moment,
        None => Timestamp { secs: 0, nanos: 0 },
    }
}

/// Computes `moment_of`.
pub fn reading_or_epoch(reading: Option<Timestamp>) -> (moment: Timestamp)
    ensures
        moment == moment_of(reading),
{
    match reading {
        Some(moment) => moment,
        None => Timestamp { secs: 0, nanos: 0 },
    }
}

/// The current time: the moment of one reading of the system clock, with a
/// clock that stands before the epoch read as the epoch. Whatever the clock
/// shows, the result is in normal form.
pub fn now() -> (moment: Timestamp)
    ensures
        moment.is_normal(),
{
    reading_or_epoch(read_clock())
}

} // verus!
