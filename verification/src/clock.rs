//! The wall clock.

use vstd::prelude::*;

verus! {

/// Milliseconds in one day.
pub const MILLIS_PER_DAY: i64 = 86_400_000;

/// The UTC calendar day of an instant, counted in whole days since the Unix
/// epoch. Instants before the epoch fall on negative days.
pub open spec fn day_of(millis: i64) -> int {
    millis as int / 86_400_000
}

/// The UTC calendar day of an instant given in milliseconds since the epoch.
pub fn day_number(millis: i64) -> (day: i64)
    ensures
        day == day_of(millis),
{
    if millis >= 0 {
        millis / MILLIS_PER_DAY
    } else {
        // Floor, not truncation: one millisecond before the epoch is day -1.
        let back: i64 = (millis + 1) / MILLIS_PER_DAY;
        back - 1
    }
}

/// `chrono::Utc::now` read through `DateTime::timestamp_millis`: the system
/// clock in milliseconds since the Unix epoch, UTC. Nothing is promised of
/// the value; two readings need not even be in order. `Utc::now` does not
/// return where the system clock stands before 1970.
#[verifier::external_body]
pub(crate) fn now_millis() -> i64 {
    chrono::Utc::now().timestamp_millis()
}

} // verus!
