//! Calendar facts about Unix timestamps, obtained from chrono. The calendar
//! computations themselves (ISO week rules, leap years) stay outside the
//! verified code; each result is named here and every contract above speaks
//! of those names.
use chrono::Datelike;
use vstd::prelude::*;

verus! {

/// The largest timestamp the calendar wrappers accept: the last second of
/// year 9999, comfortably inside chrono's supported range, so the
/// conversions below cannot fail.
pub const MAX_CALENDAR_TS: u64 = 253_402_300_799;

/// The ISO 8601 week number of the UTC day holding second `t` of the Unix
/// epoch.
pub uninterp spec fn iso_week_of(t: int) -> int;

/// The month, 1 to 12, of the UTC day holding second `t`.
pub uninterp spec fn month_of(t: int) -> int;

/// The day of month, 1 to 31, of the UTC day holding second `t`.
pub uninterp spec fn day_of_month_of(t: int) -> int;

/// The debug rendering of the UTC datetime at second `t`.
pub uninterp spec fn utc_debug_of(t: int) -> Seq<char>;

/// Relies on chrono's `DateTime::from_timestamp` (total on the admitted
/// range), `Datelike::iso_week` and `IsoWeek::week`: the ISO week number of
/// a timestamp, between 1 and 53, a function of the timestamp alone.
#[verifier::external_body]
pub(crate) fn week_of_timestamp(t: u64) -> (w: u32)
    requires
        t <= MAX_CALENDAR_TS,
    ensures
        w as int == iso_week_of(t as int),
        1 <= w <= 53,
{
    chrono::DateTime::from_timestamp(t as i64, 0).unwrap().iso_week().week()
}

/// Relies on chrono's `DateTime::from_timestamp` and `Datelike::month`: the
/// month of a timestamp, between 1 and 12, a function of the timestamp
/// alone.
#[verifier::external_body]
pub(crate) fn month_of_timestamp(t: u64) -> (m: u32)
    requires
        t <= MAX_CALENDAR_TS,
    ensures
        m as int == month_of(t as int),
        1 <= m <= 12,
{
    chrono::DateTime::from_timestamp(t as i64, 0).unwrap().month()
}

/// Relies on chrono's `DateTime::from_timestamp` and `Datelike::day`: the
/// day of month of a timestamp, between 1 and 31, a function of the
/// timestamp alone.
#[verifier::external_body]
pub(crate) fn day_of_timestamp(t: u64) -> (d: u32)
    requires
        t <= MAX_CALENDAR_TS,
    ensures
        d as int == day_of_month_of(t as int),
        1 <= d <= 31,
{
    chrono::DateTime::from_timestamp(t as i64, 0).unwrap().day()
}

/// Relies on chrono's `DateTime::from_timestamp` and the `Debug` rendering
/// of `DateTime<Utc>`: deterministic text, a function of the timestamp
/// alone.
#[verifier::external_body]
pub(crate) fn utc_debug_text(t: u64) -> (r: String)
    requires
        t <= MAX_CALENDAR_TS,
    ensures
        r@ == utc_debug_of(t as int),
{
    format!("{:?}", chrono::DateTime::from_timestamp(t as i64, 0).unwrap())
}

/// The calendar facts a status report carries: the ISO week number, month
/// and day of month of the given moment.
pub fn calendar_status(now: u64) -> (r: (u32, u32, u32))
    requires
        now <= MAX_CALENDAR_TS,
    ensures
        r.0 as int == iso_week_of(now as int),
        r.1 as int == month_of(now as int),
        r.2 as int == day_of_month_of(now as int),
        1 <= r.0 <= 53,
        1 <= r.1 <= 12,
        1 <= r.2 <= 31,
{
    (week_of_timestamp(now), month_of_timestamp(now), day_of_timestamp(now))
}

} // verus!
