//! Time as the store sees it: a count of nanoseconds read from a
//! high-resolution counter, and deadlines derived from it.

use vstd::prelude::*;

verus! {

/// Nanoseconds in one second.
pub const NANOS_PER_SECOND: u64 = 1_000_000_000;

/// How long a refreshed device or interface stays in the store: 60 seconds.
pub const METRIC_TTL: u64 = 60_000_000_000;

/// How long a materialized topology stays valid: 10 seconds.
pub const TOPOLOGY_TTL: u64 = 10_000_000_000;

/// The instant `ttl` nanoseconds after `now`, held at the largest
/// representable instant when the sum would pass it.
pub open spec fn deadline(now: u64, ttl: u64) -> u64 {
    if now + ttl > u64::MAX {
        u64::MAX
    } else {
        (now + ttl) as u64
    }
}

/// A record whose expiry is `expiry` is evicted at `now` exactly when `now`
/// lies strictly after it.
pub open spec fn expired(expiry: u64, now: u64) -> bool {
    now > expiry
}

/// Computes `deadline(now, ttl)`.
pub fn deadline_after(now: u64, ttl: u64) -> (d: u64)
    ensures
        d == deadline(now, ttl),
        d >= now,
{
    now.saturating_add(ttl)
}

/// Decides `expired(expiry, now)`.
pub fn is_expired(expiry: u64, now: u64) -> (b: bool)
    ensures
        b == expired(expiry, now),
{
    now > expiry
}

/// The instant that many whole seconds after the counter's origin, held at
/// the largest representable instant when the product would pass it.
pub fn from_seconds(seconds: u64) -> (t: u64)
    ensures
        t == if seconds * NANOS_PER_SECOND > u64::MAX {
            u64::MAX
        } else {
            (seconds * NANOS_PER_SECOND) as u64
        },
{
    if seconds > 18_446_744_073 {
        u64::MAX
    } else {
        seconds * NANOS_PER_SECOND
    }
}

/// Reads `time::precise_time_ns`, the current value of a high-resolution
/// counter in nanoseconds since an unspecified origin. Nothing is claimed of
/// the value: it depends on when the call is made.
#[verifier::external_body]
pub(crate) fn now() -> (t: u64) {
    time::precise_time_ns()
}

} // verus!
