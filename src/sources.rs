use vstd::prelude::*;

verus! {

/// Relies on uuid::Uuid::new_v4 for a random version-4 identity, read out as
/// its 128-bit value by Uuid::as_u128. The value is drawn at random, so
/// nothing is promised of it: a clash with an existing identity is caught by
/// the store. (new_v4 panics only where the system's random source fails.)
#[verifier::external_body]
pub(crate) fn fresh_task_id() -> (r: u128) {
    uuid::Uuid::new_v4().as_u128()
}

/// Relies on chrono::Utc::now for the current time, read out by
/// DateTime::timestamp_micros as microseconds since the Unix epoch. The clock
/// may stand still or go back, so only the range is promised: `now` returns
/// only readings at or after the epoch (it panics on an earlier system time),
/// and chrono's latest representable instant lies far below `i64::MAX`
/// microseconds.
#[verifier::external_body]
pub(crate) fn current_micros() -> (r: i64)
    ensures
        0 <= r < i64::MAX,
{
    chrono::Utc::now().timestamp_micros()
}

} // verus!
