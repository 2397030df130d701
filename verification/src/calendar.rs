//! Calendar computations, parsing and formatting done by the `chrono` crate.
use vstd::prelude::*;

use chrono::{Datelike, NaiveDate, NaiveDateTime, Timelike};

use crate::time::{Date, Timestamp, MIN_DAYS};

verus! {

/// Smallest year of a supported date.
pub const MIN_YEAR: i32 = -262143;

/// Largest year of a supported date.
pub const MAX_YEAR: i32 = 262142;

/// The year of the date with day number `days`, as `chrono` computes it.
pub uninterp spec fn chrono_year(days: i32) -> i32;

/// The month (1 to 12) of the date with day number `days`.
pub uninterp spec fn chrono_month(days: i32) -> u32;

/// The date `chrono` gives for `with_day(day)` on the date `days`.
pub uninterp spec fn chrono_with_day(days: i32, day: u32) -> Option<Date>;

/// The date `chrono` builds from a year, month and day.
pub uninterp spec fn chrono_from_ymd(year: i32, month: u32, day: u32) -> Option<Date>;

/// The text of a date in the `%Y-%m-%d` format.
pub uninterp spec fn chrono_format_ymd(days: i32) -> Seq<char>;

/// The text of a date-time in the `%Y-%m-%dT%H:%M` format.
pub uninterp spec fn chrono_format_ymd_hm(ts: Timestamp) -> Seq<char>;

/// The text of a date-time in the `%Y-%m-%dT%H:%M:%S%.f` format.
pub uninterp spec fn chrono_format_full(ts: Timestamp) -> Seq<char>;

/// The date-time `chrono` reads from `text` with the format `fmt`.
pub uninterp spec fn chrono_parse_datetime(text: Seq<char>, fmt: Seq<char>) -> Option<Timestamp>;

/// The date `chrono` reads from `text` with the format `fmt`.
pub uninterp spec fn chrono_parse_date(text: Seq<char>, fmt: Seq<char>) -> Option<Date>;

/// The year of a date (`Datelike::year` on `NaiveDate`). Claimed: the
/// named result, inside the supported range of years.
#[verifier::external_body]
pub(crate) fn date_year(d: Date) -> (r: i32)
    requires
        d.wf(),
    ensures
        r == chrono_year(d.days),
        MIN_YEAR <= r <= MAX_YEAR,
{
    NaiveDate::from_num_days_from_ce_opt(d.days).expect("date in range").year()
}

/// The month of a date (`Datelike::month` on `NaiveDate`). Claimed: the
/// named result, between 1 and 12.
#[verifier::external_body]
pub(crate) fn date_month(d: Date) -> (r: u32)
    requires
        d.wf(),
    ensures
        r == chrono_month(d.days),
        1 <= r <= 12,
{
    NaiveDate::from_num_days_from_ce_opt(d.days).expect("date in range").month()
}

/// `NaiveDate::with_day`. Claimed: the named result; a result is a
/// supported date, and the first day of a month always exists.
#[verifier::external_body]
pub(crate) fn date_with_day(d: Date, day: u32) -> (r: Option<Date>)
    requires
        d.wf(),
    ensures
        r == chrono_with_day(d.days, day),
        r matches Some(x) ==> x.wf(),
        day == 1 ==> r is Some,
{
    NaiveDate::from_num_days_from_ce_opt(d.days)
        .expect("date in range")
        .with_day(day)
        .map(|x| Date { days: x.num_days_from_ce() })
}

/// `NaiveDate::from_ymd_opt`. Claimed: the named result; a result is a
/// supported date, later than the earliest one unless it is January 1 of
/// the earliest year; and the first day of a month of a supported year
/// always exists.
#[verifier::external_body]
pub(crate) fn date_from_ymd(year: i32, month: u32, day: u32) -> (r: Option<Date>)
    ensures
        r == chrono_from_ymd(year, month, day),
        r matches Some(x) ==> x.wf(),
        r matches Some(x) ==> (year > MIN_YEAR || month > 1 || day > 1 ==> x.days > MIN_DAYS),
        (MIN_YEAR <= year <= MAX_YEAR && 1 <= month <= 12 && day == 1) ==> r is Some,
{
    NaiveDate::from_ymd_opt(year, month, day).map(|x| Date { days: x.num_days_from_ce() })
}

/// Formats a date with `NaiveDate::format("%Y-%m-%d")`.
#[verifier::external_body]
pub(crate) fn format_ymd(d: Date) -> (r: String)
    requires
        d.wf(),
    ensures
        r@ == chrono_format_ymd(d.days),
{
    NaiveDate::from_num_days_from_ce_opt(d.days).expect("date in range").format("%Y-%m-%d").to_string()
}

/// Formats a date-time with `NaiveDateTime::format("%Y-%m-%dT%H:%M")`.
#[verifier::external_body]
pub(crate) fn format_ymd_hm(ts: Timestamp) -> (r: String)
    requires
        ts.wf(),
    ensures
        r@ == chrono_format_ymd_hm(ts),
{
    NaiveDate::from_num_days_from_ce_opt(ts.date.days)
        .expect("date in range")
        .and_time(
            chrono::NaiveTime::from_num_seconds_from_midnight_opt(ts.secs, ts.nanos).expect(
                "time in range",
            ),
        )
        .format("%Y-%m-%dT%H:%M")
        .to_string()
}

/// Formats a date-time with `NaiveDateTime::format("%Y-%m-%dT%H:%M:%S%.f")`
/// (seconds, then the fraction of a second when it is not zero; a leap
/// second shows as second 60). Claimed: the named result.
#[verifier::external_body]
pub(crate) fn format_full(ts: Timestamp) -> (r: String)
    requires
        ts.wf(),
    ensures
        r@ == chrono_format_full(ts),
{
    NaiveDate::from_num_days_from_ce_opt(ts.date.days)
        .expect("date in range")
        .and_time(
            chrono::NaiveTime::from_num_seconds_from_midnight_opt(ts.secs, ts.nanos).expect(
                "time in range",
            ),
        )
        .format("%Y-%m-%dT%H:%M:%S%.f")
        .to_string()
}

/// `NaiveDateTime::parse_from_str`. Claimed: the named result, which is a
/// valid date-time when present.
#[verifier::external_body]
pub(crate) fn parse_datetime_with(text: &str, fmt: &str) -> (r: Option<Timestamp>)
    ensures
        r == chrono_parse_datetime(text@, fmt@),
        r matches Some(x) ==> x.wf(),
{
    match NaiveDateTime::parse_from_str(text, fmt) {
        Ok(dt) => Some(Timestamp {
            date: Date { days: dt.date().num_days_from_ce() },
            secs: dt.time().num_seconds_from_midnight(),
            nanos: dt.time().nanosecond(),
        }),
        Err(_) => None,
    }
}

/// `NaiveDate::parse_from_str`. Claimed: the named result, which is a
/// supported date when present.
#[verifier::external_body]
pub(crate) fn parse_date_with(text: &str, fmt: &str) -> (r: Option<Date>)
    ensures
        r == chrono_parse_date(text@, fmt@),
        r matches Some(x) ==> x.wf(),
{
    match NaiveDate::parse_from_str(text, fmt) {
        Ok(d) => Some(Date { days: d.num_days_from_ce() }),
        Err(_) => None,
    }
}

} // verus!
