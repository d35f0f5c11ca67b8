//! Calendar facts, from chrono, over plain values: instants are seconds since
//! the Unix epoch, dates are day numbers (0 is 1970-01-01), and offsets are
//! seconds east of UTC.

use chrono::{DateTime, Datelike, FixedOffset, Local, NaiveDate};
use vstd::prelude::*;

verus! {

/// Largest magnitude of an instant that the library takes (about 544 years
/// either side of 1970).
pub const TIME_LIMIT: i64 = 17_179_869_184;

/// Largest magnitude of a day number that the library takes.
pub const DAY_LIMIT: i64 = 200_000;

/// Largest magnitude of a day number that the calendar functions take.
pub const CALENDAR_LIMIT: i64 = 1_000_000;

pub const SECONDS_PER_DAY: i64 = 86_400;

pub open spec fn in_time_range(t: int) -> bool {
    -TIME_LIMIT <= t <= TIME_LIMIT
}

pub open spec fn valid_offset(offset: int) -> bool {
    -SECONDS_PER_DAY < offset < SECONDS_PER_DAY
}

pub open spec fn in_day_range(day: int) -> bool {
    -DAY_LIMIT <= day <= DAY_LIMIT
}

pub open spec fn in_calendar_range(day: int) -> bool {
    -CALENDAR_LIMIT <= day <= CALENDAR_LIMIT
}

/// The day number of a local time given in seconds since the epoch.
#[verifier::opaque]
pub open spec fn day_of_local(local_seconds: int) -> int {
    local_seconds / (SECONDS_PER_DAY as int)
}

/// A local day of an instant in range is a day number in range.
pub proof fn lemma_local_day_in_range(t: int, offset: int)
    requires
        in_time_range(t),
        valid_offset(offset),
    ensures
        in_day_range(day_of_local(t + offset)),
{
    reveal(day_of_local);
    assert(-200000 <= (t + offset) / 86400 <= 200000) by {
        vstd::arithmetic::div_mod::lemma_fundamental_div_mod(t + offset, 86400);
    }
}

/// Days since the Monday that starts the week of `day` (1970-01-01 was a Thursday).
pub open spec fn days_from_monday(day: int) -> int {
    (day + 3) % 7
}

/// The ISO week number of a day.
pub uninterp spec fn iso_week_of(day: int) -> int;

/// A day written as `YYYY-MM-DD`.
pub uninterp spec fn date_text_of(day: int) -> Seq<char>;

/// An instant written in the local time of the given offset, with that offset.
pub uninterp spec fn time_text_of(t: int, offset: int) -> Seq<char>;

/// The local day number of an instant, at the given offset.
pub fn local_day(t: i64, offset: i32) -> (r: i64)
    requires
        in_time_range(t as int),
        valid_offset(offset as int),
    ensures
        r as int == day_of_local(t + offset),
        in_day_range(r as int),
{
    let shifted: i64 = t + offset as i64 + SECONDS_PER_DAY * DAY_LIMIT;
    let q: i64 = shifted / SECONDS_PER_DAY;
    let r: i64 = q - DAY_LIMIT;
    proof {
        reveal(day_of_local);
        let x = t + offset;
        assert(shifted as int == x + 200000 * 86400);
        vstd::arithmetic::div_mod::lemma_hoist_over_denominator(x, 200000, 86400);
        assert(-200000 <= x / 86400 <= 200000) by {
            vstd::arithmetic::div_mod::lemma_fundamental_div_mod(x, 86400);
        }
    }
    r
}

/// Relies on chrono's `NaiveDate::from_epoch_days` and `IsoWeek::week`: the ISO
/// week number of the day, from 1 to 53.
#[verifier::external_body]
pub(crate) fn iso_week(day: i64) -> (r: u32)
    requires
        in_calendar_range(day as int),
    ensures
        r as int == iso_week_of(day as int),
        1 <= r <= 53,
{
    NaiveDate::from_epoch_days(day as i32).unwrap().iso_week().week()
}

/// Relies on chrono's `NaiveDate::from_epoch_days` and `Weekday::num_days_from_monday`.
#[verifier::external_body]
pub(crate) fn weekday_from_monday(day: i64) -> (r: u32)
    requires
        in_calendar_range(day as int),
    ensures
        r as int == days_from_monday(day as int),
        r <= 6,
{
    NaiveDate::from_epoch_days(day as i32).unwrap().weekday().num_days_from_monday()
}

/// Relies on chrono's `Display` for `NaiveDate` (`%Y-%m-%d`).
#[verifier::external_body]
pub(crate) fn date_text(day: i64) -> (r: String)
    requires
        in_calendar_range(day as int),
    ensures
        r@ == date_text_of(day as int),
{
    NaiveDate::from_epoch_days(day as i32).unwrap().to_string()
}

/// Relies on chrono's `DateTime::from_timestamp`, `FixedOffset::east_opt` and
/// `Display` for `DateTime<FixedOffset>`.
#[verifier::external_body]
pub(crate) fn time_text(t: i64, offset: i32) -> (r: String)
    requires
        in_time_range(t as int),
        valid_offset(offset as int),
    ensures
        r@ == time_text_of(t as int, offset as int),
{
    DateTime::from_timestamp(t, 0).unwrap().with_timezone(&FixedOffset::east_opt(offset).unwrap()).to_string()
}

/// Relies on chrono's `Local` time zone: the offset from UTC of local time at
/// the instant `t`. It depends on the machine's zone; a chrono `FixedOffset`
/// is always less than a day.
#[verifier::external_body]
pub(crate) fn local_offset(t: i64) -> (r: i32)
    requires
        in_time_range(t as int),
    ensures
        valid_offset(r as int),
{
    DateTime::from_timestamp(t, 0).unwrap().with_timezone(&Local).offset().local_minus_utc()
}

/// Relies on chrono's `Local::now` and `IsoWeek::week`: the ISO week number
/// of today, from 1 to 53.
#[verifier::external_body]
pub(crate) fn current_iso_week() -> (r: u32)
    ensures
        1 <= r <= 53,
{
    Local::now().iso_week().week()
}

} // verus!
