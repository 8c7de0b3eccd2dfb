//! Instants, lifetimes and the wall clock.

use vstd::prelude::*;

verus! {

/// An instant on the UTC time line: whole seconds since the Unix epoch and the
/// nanoseconds that have passed since that second began.
#[derive(Clone, Copy, Debug, PartialEq, Eq, Structural)]
pub struct Timestamp {
    pub secs: i64,
    pub nanos: u32,
}

/// A length of time that is never negative: whole seconds and further
/// nanoseconds.
#[derive(Clone, Copy, Debug, PartialEq, Eq, Structural)]
pub struct TimeSpan {
    pub secs: u64,
    pub nanos: u32,
}

impl Timestamp {
    /// The instant as one number: nanoseconds since the Unix epoch.
    pub open spec fn as_nanos(self) -> int {
        self.secs as int * 1_000_000_000 + self.nanos as int
    }

    /// The executable counterpart of [`Timestamp::as_nanos`].
    pub fn total_nanos(&self) -> (n: i128)
        ensures
            n == self.as_nanos(),
    {
        self.secs as i128 * 1_000_000_000 + self.nanos as i128
    }
}

impl TimeSpan {
    /// A span of `secs` whole seconds.
    pub fn seconds(secs: u64) -> (span: TimeSpan)
        ensures
            span == (TimeSpan { secs, nanos: 0 }),
    {
        TimeSpan { secs, nanos: 0 }
    }

    /// The span as one number of nanoseconds.
    pub open spec fn as_nanos(self) -> int {
        self.secs as int * 1_000_000_000 + self.nanos as int
    }

    /// The executable counterpart of [`TimeSpan::as_nanos`].
    pub fn total_nanos(&self) -> (n: i128)
        ensures
            n == self.as_nanos(),
    {
        self.secs as i128 * 1_000_000_000 + self.nanos as i128
    }
}

/// The instant before which a touch is too old at time `now`, in nanoseconds
/// since the epoch.
pub open spec fn deadline(now: Timestamp, lifetime: TimeSpan) -> int {
    now.as_nanos() - lifetime.as_nanos()
}

/// Whether something last touched at `touched` has outlived `lifetime` at time
/// `now`. The comparison is strict: a touch exactly at the deadline is still
/// fresh.
pub open spec fn expired(touched: Timestamp, now: Timestamp, lifetime: TimeSpan) -> bool {
    touched.as_nanos() < deadline(now, lifetime)
}

/// Computes [`deadline`].
pub fn deadline_at(now: &Timestamp, lifetime: &TimeSpan) -> (d: i128)
    ensures
        d == deadline(*now, *lifetime),
{
    now.total_nanos() - lifetime.total_nanos()
}

/// Decides [`expired`].
pub fn is_expired(touched: &Timestamp, now: &Timestamp, lifetime: &TimeSpan) -> (gone: bool)
    ensures
        gone == expired(*touched, *now, *lifetime),
{
    touched.total_nanos() < deadline_at(now, lifetime)
}

/// Reads the system's wall clock through `chrono::Utc::now`, and takes the
/// reading apart with `DateTime::timestamp` and
/// `DateTime::timestamp_subsec_nanos`. The contract promises nothing about the
/// instant that comes back. On a machine whose clock stands before 1970,
/// `chrono` stops the program.
#[verifier::external_body]
pub(crate) fn wall_clock() -> (t: Timestamp) {
    let reading = chrono::Utc::now();
    Timestamp { secs: reading.timestamp(), nanos: reading.timestamp_subsec_nanos() }
}

} // verus!
