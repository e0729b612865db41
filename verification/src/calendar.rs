//! Local calendar time of an instant, taken from the `chrono` crate.
//!
//! An instant is a number of seconds since 1970-01-01T00:00:00Z together
//! with the offset of a fixed time zone east of UTC, in seconds.  Everything
//! in this module is a thin call into `chrono`; the contracts are what the
//! rest of the library relies on without proof.

use vstd::prelude::*;
use chrono::Datelike;
use chrono::FixedOffset;
use chrono::TimeZone;
use chrono::Timelike;

verus! {

/// The first second that `chrono` can place in its calendar
/// (-262143-01-01T00:00:00Z).
pub const MIN_TIMESTAMP: i64 = -8334601228800;

/// The last second that `chrono` can place in its calendar
/// (+262142-12-31T23:59:59Z).
pub const MAX_TIMESTAMP: i64 = 8210266876799;

/// The instants that have a local calendar time: the offset is less than a
/// day either way and the time stamp lies within the calendar.
pub open spec fn representable(seconds: int, offset_seconds: int) -> bool {
    &&& -86400 < offset_seconds < 86400
    &&& MIN_TIMESTAMP <= seconds <= MAX_TIMESTAMP
}

/// The hour of the local day, from 0 to 23.
pub open spec fn hour_of_day(seconds: int, offset_seconds: int) -> int {
    ((seconds + offset_seconds) % 86400) / 3600
}

/// The local day of the week, counted from Monday as 0 to Sunday as 6.
/// Day 0 of the time stamps, 1970-01-01, was a Thursday.
pub open spec fn weekday_index(seconds: int, offset_seconds: int) -> int {
    ((seconds + offset_seconds) / 86400 + 3) % 7
}

/// The year of the local date in the proleptic Gregorian calendar, as
/// `chrono` computes it.
pub uninterp spec fn local_year(seconds: int, offset_seconds: int) -> int;

/// The local time written after a `strftime` pattern, as `chrono` writes it.
pub uninterp spec fn local_format(seconds: int, offset_seconds: int, pattern: Seq<char>) -> Seq<char>;

/// The patterns that the library hands to `chrono`: each is made of date
/// fields only.
pub open spec fn is_date_pattern(pattern: Seq<char>) -> bool {
    ||| pattern == "%Y-%m-%d"@
    ||| pattern == "%Y-%w"@
    ||| pattern == "%Y-%m"@
    ||| pattern == "%d"@
}

/// Calls `Timelike::hour` on the `DateTime<FixedOffset>` of the instant.
///
/// Trusted: `chrono` adds the offset to the second of the UTC day, reduces
/// the sum modulo a day and divides by 3600; the constructors accept every
/// representable instant.
#[verifier::external_body]
pub(crate) fn hour_at(seconds: i64, offset_seconds: i32) -> (hour: u32)
    requires
        representable(seconds as int, offset_seconds as int),
    ensures
        hour as int == hour_of_day(seconds as int, offset_seconds as int),
{
    FixedOffset::east_opt(offset_seconds).unwrap().timestamp_opt(seconds, 0).unwrap().hour()
}

/// Calls `Datelike::weekday` on the `DateTime<FixedOffset>` of the instant
/// and `Weekday::num_days_from_monday` on the result.
///
/// Trusted: the result is the day of the week of the local date, with Monday
/// as 0; the local date is the day that holds the second `seconds +
/// offset_seconds`, and weekdays repeat every seven days from the Thursday
/// of 1970-01-01.
#[verifier::external_body]
pub(crate) fn weekday_at(seconds: i64, offset_seconds: i32) -> (day: u32)
    requires
        representable(seconds as int, offset_seconds as int),
    ensures
        day as int == weekday_index(seconds as int, offset_seconds as int),
{
    FixedOffset::east_opt(offset_seconds).unwrap().timestamp_opt(seconds, 0).unwrap().weekday()
        .num_days_from_monday()
}

/// Calls `Datelike::year` on the `DateTime<FixedOffset>` of the instant.
///
/// Trusted: the result depends on the instant alone; nothing more is
/// claimed of it.
#[verifier::external_body]
pub(crate) fn year_at(seconds: i64, offset_seconds: i32) -> (year: i32)
    requires
        representable(seconds as int, offset_seconds as int),
    ensures
        year as int == local_year(seconds as int, offset_seconds as int),
{
    FixedOffset::east_opt(offset_seconds).unwrap().timestamp_opt(seconds, 0).unwrap().year()
}

/// Calls `DateTime::format` on the `DateTime<FixedOffset>` of the instant
/// and writes the result to a string.
///
/// Trusted: the text depends on the instant and the pattern alone, and
/// writing it does not fail for a pattern made of date fields.
#[verifier::external_body]
pub(crate) fn format_at(seconds: i64, offset_seconds: i32, pattern: &str) -> (text: String)
    requires
        representable(seconds as int, offset_seconds as int),
        is_date_pattern(pattern@),
    ensures
        text@ == local_format(seconds as int, offset_seconds as int, pattern@),
{
    FixedOffset::east_opt(offset_seconds).unwrap().timestamp_opt(seconds, 0).unwrap().format(pattern)
        .to_string()
}

} // verus!
