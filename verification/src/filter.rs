//! Reading date-times typed by a user and resolving date-range options.
use vstd::prelude::*;

use crate::calendar::{
    MAX_YEAR, MIN_YEAR, chrono_from_ymd, chrono_month, chrono_parse_date, chrono_parse_datetime,
    chrono_with_day, chrono_year, date_from_ymd, date_month, date_with_day, date_year,
    parse_date_with, parse_datetime_with,
};
use crate::clock::local_now;
use crate::journal::WeekStart;
use crate::text::{push_str, string_from_chars};
use crate::time::{Date, MAX_DAYS, MIN_DAYS, Timestamp, UNIX_EPOCH_DAYS};

verus! {

pub open spec fn fmt_full() -> Seq<char> {
    "%Y-%m-%dT%H:%M:%S"@
}

pub open spec fn fmt_minutes() -> Seq<char> {
    "%Y-%m-%dT%H:%M"@
}

pub open spec fn fmt_date() -> Seq<char> {
    "%Y-%m-%d"@
}

/// The message for input that is not a date or date-time.
pub open spec fn invalid_datetime_message(s: Seq<char>) -> Seq<char> {
    "`"@ + s + "` is not a valid date/datetime — expected YYYY-MM-DD or YYYY-MM-DDTHH:MM"@
}

/// How input is read as a date-time: with seconds, else to the minute,
/// else as a date at the time of day `time_of_day` (in seconds).
pub open spec fn spec_parse_datetime(s: Seq<char>, time_of_day: u32) -> Result<Timestamp, Seq<char>> {
    match chrono_parse_datetime(s, fmt_full()) {
        Some(t) => Ok(t),
        None => match chrono_parse_datetime(s, fmt_minutes()) {
            Some(t) => Ok(t),
            None => match chrono_parse_date(s, fmt_date()) {
                Some(d) => Ok(Timestamp { date: d, secs: time_of_day, nanos: 0 }),
                None => Err(invalid_datetime_message(s)),
            },
        },
    }
}

fn parse_datetime_at(s: &str, end_of_day: bool) -> (r: Result<Timestamp, String>)
    ensures
        match (r, spec_parse_datetime(s@, if end_of_day { 86399u32 } else { 0u32 })) {
            (Ok(a), Ok(b)) => a == b,
            (Err(a), Err(b)) => a@ == b,
            _ => false,
        },
        r matches Ok(t) ==> t.wf(),
{
    if let Some(dt) = parse_datetime_with(s, "%Y-%m-%dT%H:%M:%S") {
        return Ok(dt);
    }
    if let Some(dt) = parse_datetime_with(s, "%Y-%m-%dT%H:%M") {
        return Ok(dt);
    }
    if let Some(d) = parse_date_with(s, "%Y-%m-%d") {
        return Ok(if end_of_day {
            d.end_of_day()
        } else {
            d.start_of_day()
        });
    }
    let mut msg: Vec<char> = Vec::new();
    push_str(&mut msg, "`");
    push_str(&mut msg, s);
    push_str(&mut msg, "` is not a valid date/datetime — expected YYYY-MM-DD or YYYY-MM-DDTHH:MM");
    Err(string_from_chars(&msg))
}

/// Parses a date-time from `YYYY-MM-DD`, `YYYY-MM-DDTHH:MM` or
/// `YYYY-MM-DDTHH:MM:SS`. Date-only input is taken as midnight.
pub fn parse_datetime(s: &str) -> (r: Result<Timestamp, String>)
    ensures
        match (r, spec_parse_datetime(s@, 0)) {
            (Ok(a), Ok(b)) => a == b,
            (Err(a), Err(b)) => a@ == b,
            _ => false,
        },
        r matches Ok(t) ==> t.wf(),
{
    parse_datetime_at(s, false)
}

/// Like [`parse_datetime`], but date-only input is taken as the end of the
/// day (23:59:59).
pub fn parse_datetime_end(s: &str) -> (r: Result<Timestamp, String>)
    ensures
        match (r, spec_parse_datetime(s@, 86399)) {
            (Ok(a), Ok(b)) => a == b,
            (Err(a), Err(b)) => a@ == b,
            _ => false,
        },
        r matches Ok(t) ==> t.wf(),
{
    parse_datetime_at(s, true)
}

/// Input that `chrono` reads as a full date-time, or as one to the minute,
/// is taken as that date-time whatever time of day date-only input would
/// get; so the plain and the end-of-day readings agree on every input
/// except a bare date, where they give the same day at midnight and at
/// 23:59:59. Both accept exactly the same inputs.
pub proof fn lemma_parse_datetime_variants(s: Seq<char>, time_of_day: u32)
    ensures
        chrono_parse_datetime(s, fmt_full()) matches Some(t) ==> spec_parse_datetime(s, time_of_day) == Ok::<
            Timestamp,
            Seq<char>,
        >(t),
        chrono_parse_datetime(s, fmt_full()) is None ==> (chrono_parse_datetime(s, fmt_minutes()) matches Some(t)
            ==> spec_parse_datetime(s, time_of_day) == Ok::<Timestamp, Seq<char>>(t)),
        spec_parse_datetime(s, 0) is Ok <==> spec_parse_datetime(s, 86399) is Ok,
        forall|a: Timestamp, b: Timestamp|
            spec_parse_datetime(s, 0) == Ok::<Timestamp, Seq<char>>(a) && spec_parse_datetime(s, 86399) == Ok::<
                Timestamp,
                Seq<char>,
            >(b) && a != b ==> a.date == b.date && a.secs == 0 && b.secs == 86399 && a.nanos == 0 && b.nanos
                == 0,
{
}

/// The month after the one of `today`, as a year and month.
pub open spec fn next_month(today: Date) -> (i32, u32) {
    if chrono_month(today.days) == 12 {
        ((chrono_year(today.days) + 1) as i32, 1u32)
    } else {
        (chrono_year(today.days), (chrono_month(today.days) + 1) as u32)
    }
}

/// The range selected by the date options, in order of precedence: a single
/// date; today; the current week (starting on `week_start`); the current
/// month; otherwise the explicit bounds.
pub open spec fn spec_date_filter(
    date: Option<Date>,
    date_start: Option<Date>,
    date_end: Option<Date>,
    today_flag: bool,
    this_week: bool,
    this_month: bool,
    week_start: WeekStart,
    today: Date,
) -> (Option<Date>, Option<Date>) {
    if date is Some {
        (date, date)
    } else if today_flag {
        (Some(today), Some(today))
    } else if this_week {
        let back = match week_start {
            WeekStart::Monday => today.weekday_from_monday(),
            WeekStart::Sunday => today.weekday_from_sunday(),
        };
        (Some(Date { days: (today.days - back) as i32 }), Some(Date { days: (today.days - back + 6) as i32 }))
    } else if this_month {
        let (y, m) = next_month(today);
        (
            chrono_with_day(today.days, 1),
            match chrono_from_ymd(y, m, 1) {
                Some(first) => Some(Date { days: (first.days - 1) as i32 }),
                None => None,
            },
        )
    } else {
        (date_start, date_end)
    }
}

/// The options select a range that exists in the supported calendar.
pub open spec fn date_filter_defined(
    date: Option<Date>,
    today_flag: bool,
    this_week: bool,
    this_month: bool,
    today: Date,
) -> bool {
    date is None && !today_flag && this_week ==> MIN_DAYS + 6 <= today.days <= MAX_DAYS - 6
}

/// Resolves the date options against the given day.
pub fn resolve_date_filter(
    date: Option<Date>,
    date_start: Option<Date>,
    date_end: Option<Date>,
    today_flag: bool,
    this_week: bool,
    this_month: bool,
    week_start: WeekStart,
    today: Date,
) -> (r: (Option<Date>, Option<Date>))
    requires
        today.wf(),
        date_filter_defined(date, today_flag, this_week, this_month, today),
        date is None && !today_flag && !this_week && this_month && chrono_month(today.days) == 12
            ==> chrono_year(today.days) < MAX_YEAR,
    ensures
        r == spec_date_filter(date, date_start, date_end, today_flag, this_week, this_month, week_start, today),
{
    if let Some(d) = date {
        return (Some(d), Some(d));
    }
    if today_flag {
        return (Some(today), Some(today));
    }
    if this_week {
        let back = match week_start {
            WeekStart::Monday => today.num_days_from_monday(),
            WeekStart::Sunday => today.num_days_from_sunday(),
        };
        let start = today.add_days(-(back as i32));
        let end = start.add_days(6);
        return (Some(start), Some(end));
    }
    if this_month {
        let start = date_with_day(today, 1);
        let year = date_year(today);
        let month = date_month(today);
        let (ny, nm) = if month == 12 {
            (year + 1, 1u32)
        } else {
            (year, month + 1)
        };
        let first = date_from_ymd(ny, nm, 1);
        let end = match first {
            Some(f) => Some(f.add_days(-1)),
            None => None,
        };
        return (start, end);
    }
    (date_start, date_end)
}

/// The week selected for `today` holds `today`, spans seven days, and
/// starts on the configured first day of the week.
pub proof fn lemma_week_range(today: Date, week_start: WeekStart)
    requires
        MIN_DAYS + 6 <= today.days <= MAX_DAYS - 6,
    ensures
        ({
            let (s, e) = spec_date_filter(None, None, None, false, true, false, week_start, today);
            &&& s matches Some(start)
            &&& e matches Some(end)
            &&& start.days <= today.days <= end.days
            &&& end.days - start.days == 6
            &&& match week_start {
                WeekStart::Monday => start.weekday_from_monday() == 0,
                WeekStart::Sunday => start.weekday_from_sunday() == 0,
            }
        }),
{
}

/// Resolves the date options against the current local day; `None` when the
/// selected week or month would leave the supported calendar. A single date,
/// today, or explicit bounds always resolve.
pub fn resolve_date_filter_today(
    date: Option<Date>,
    date_start: Option<Date>,
    date_end: Option<Date>,
    today_flag: bool,
    this_week: bool,
    this_month: bool,
    week_start: WeekStart,
) -> (r: Option<(Option<Date>, Option<Date>)>)
    ensures
        exists|today: Date|
            #![trigger today.wf()]
            today.wf() && today.days >= UNIX_EPOCH_DAYS - 1 && match r {
                Some(x) => x == spec_date_filter(
                    date,
                    date_start,
                    date_end,
                    today_flag,
                    this_week,
                    this_month,
                    week_start,
                    today,
                ),
                None => date is None && !today_flag && ((this_week && today.days > MAX_DAYS - 6) || (
                !this_week && this_month && chrono_month(today.days) == 12 && chrono_year(today.days)
                    >= MAX_YEAR)),
            },
        (date is Some || today_flag || (!this_week && !this_month)) ==> r is Some,
{
    let today = local_now().date;
    assert(MIN_DAYS + 6 <= UNIX_EPOCH_DAYS - 1);
    if date.is_none() && !today_flag && this_week && !(MIN_DAYS + 6 <= today.days && today.days <= MAX_DAYS - 6) {
        return None;
    }
    if date.is_none() && !today_flag && !this_week && this_month && date_month(today) == 12
        && date_year(today) >= MAX_YEAR {
        return None;
    }
    Some(resolve_date_filter(date, date_start, date_end, today_flag, this_week, this_month, week_start, today))
}

} // verus!
