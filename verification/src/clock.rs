//! The system clock.

use vstd::prelude::*;
use crate::record::Timestamp;

verus! {

/// The current time, as `OffsetDateTime::now_utc` of the `time` crate
/// (reached through `sqlx::types::time`) reads it from the system clock,
/// turned into nanoseconds since the Unix epoch by `unix_timestamp_nanos`.
///
/// Nothing is claimed of the value: it depends on the machine, two calls may
/// give different values, and where the clock is set back the later call
/// gives the smaller one. `now_utc` panics where the system clock stands
/// outside the years that `OffsetDateTime` can hold.
#[verifier::external_body]
pub(crate) fn now_utc() -> (now: Timestamp) {
    Timestamp { nanos: sqlx::types::time::OffsetDateTime::now_utc().unix_timestamp_nanos() }
}

} // verus!
