//! The local weekday, read through the `time` crate.
use vstd::prelude::*;

verus! {

#[verifier::external_type_specification]
#[verifier::external_body]
pub struct ExOffsetDateTime(time::OffsetDateTime);

/// Calls `time::OffsetDateTime::now_local`. Its result depends on the clock
/// and on the machine's time zone, so nothing is stated of it: `None` stands
/// for the error returned when the local offset cannot be determined.
#[verifier::external_body]
fn now_local() -> Option<time::OffsetDateTime> {
    time::OffsetDateTime::now_local().ok()
}

/// Calls `time::OffsetDateTime::now_utc`. Its result depends on the clock, so
/// nothing is stated of it.
#[verifier::external_body]
fn now_utc() -> time::OffsetDateTime {
    time::OffsetDateTime::now_utc()
}

/// Calls `time::OffsetDateTime::weekday` and converts the weekday with
/// `time::Weekday::number_days_from_monday`, which the crate defines as the
/// `u8` discriminant of `Monday..=Sunday`, so the result is below 7.
#[verifier::external_body]
fn days_from_monday(t: &time::OffsetDateTime) -> (d: u8)
    ensures
        d < 7,
{
    t.weekday().number_days_from_monday()
}

/// Today's row in a Monday-first week (Monday = 0 .. Sunday = 6), by local
/// time, or by UTC when the local offset cannot be determined.
pub fn today_row() -> (d: u8)
    ensures
        d < 7,
{
    let now = match now_local() {
        Some(t) => t,
        None => now_utc(),
    };
    days_from_monday(&now)
}

} // verus!
