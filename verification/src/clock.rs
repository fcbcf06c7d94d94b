//! Points in time, as milliseconds since the Unix epoch.

use chrono::{DateTime, TimeDelta};
use vstd::prelude::*;

verus! {

/// The first millisecond that a point in time can have.
pub const MIN_MILLIS: i64 = -8334601228800000;

/// The last millisecond that a point in time can have.
pub const MAX_MILLIS: i64 = 8210266876799999;

/// Whether `ms` is a point in time.
pub open spec fn in_time(ms: int) -> bool {
    MIN_MILLIS <= ms <= MAX_MILLIS
}

/// The point `delta` milliseconds after `ms`, if both are points in time.
pub open spec fn later(ms: int, delta: int) -> Option<int> {
    if in_time(ms) && in_time(ms + delta) {
        Some(ms + delta)
    } else {
        None
    }
}

/// `chrono::DateTime::checked_add_signed` of a span of whole milliseconds to a
/// point of whole milliseconds: the later point, and nothing where either point
/// lies outside of chrono's range.
#[verifier::external_body]
pub(crate) fn add_millis(ms: i64, delta: u64) -> (sum: Option<i64>)
    ensures
        sum matches Some(t) ==> later(ms as int, delta as int) == Some(t as int),
        sum is None ==> later(ms as int, delta as int) is None,
{
    let span = TimeDelta::from_std(std::time::Duration::from_millis(delta)).ok()?;
    let point = DateTime::from_timestamp_millis(ms)?.checked_add_signed(span)?;
    Some(point.timestamp_millis())
}

/// How `ms` reads as an unsigned 64-bit number: a time before the epoch wraps
/// around.
pub open spec fn unsigned(ms: int) -> int {
    if ms < 0 {
        ms + 0x1_0000_0000_0000_0000
    } else {
        ms
    }
}

/// `ms` as an unsigned 64-bit number.
pub fn to_unsigned(ms: i64) -> (n: u64)
    ensures
        n == unsigned(ms as int),
{
    if ms >= 0 {
        ms as u64
    } else {
        u64::MAX - (-(ms + 1)) as u64
    }
}

} // verus!
