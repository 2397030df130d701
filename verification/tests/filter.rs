use archelon::filter::{parse_datetime, parse_datetime_end, resolve_date_filter, resolve_date_filter_today};
use archelon::journal::WeekStart;
use archelon::time::{Date, Timestamp};
use chrono::{Datelike, NaiveDate};

fn day(y: i32, m: u32, d: u32) -> Date {
    Date { days: NaiveDate::from_ymd_opt(y, m, d).unwrap().num_days_from_ce() }
}

#[test]
fn parse_datetime_forms() {
    let d = day(2026, 3, 4);
    assert_eq!(parse_datetime("2026-03-04T10:30:15").unwrap(), Timestamp { date: d, secs: 10 * 3600 + 30 * 60 + 15, nanos: 0 });
    assert_eq!(parse_datetime("2026-03-04T10:30").unwrap(), Timestamp { date: d, secs: 10 * 3600 + 30 * 60, nanos: 0 });
    assert_eq!(parse_datetime("2026-03-04").unwrap(), Timestamp { date: d, secs: 0, nanos: 0 });
    assert_eq!(parse_datetime_end("2026-03-04").unwrap(), Timestamp { date: d, secs: 86399, nanos: 0 });
    assert_eq!(parse_datetime_end("2026-03-04T08:00").unwrap(), Timestamp { date: d, secs: 8 * 3600, nanos: 0 });
}

#[test]
fn parse_datetime_rejects_other_text() {
    assert_eq!(
        parse_datetime("tomorrow").unwrap_err(),
        "`tomorrow` is not a valid date/datetime — expected YYYY-MM-DD or YYYY-MM-DDTHH:MM"
    );
    assert!(parse_datetime_end("2026-13-01").is_err());
}

#[test]
fn date_filter_precedence() {
    let today = day(2026, 3, 5); // a Thursday
    let d = day(2026, 1, 2);
    assert_eq!(resolve_date_filter(Some(d), None, None, true, true, true, WeekStart::Monday, today), (Some(d), Some(d)));
    assert_eq!(resolve_date_filter(None, None, None, true, true, false, WeekStart::Monday, today), (Some(today), Some(today)));
    assert_eq!(
        resolve_date_filter(None, None, None, false, true, false, WeekStart::Monday, today),
        (Some(day(2026, 3, 2)), Some(day(2026, 3, 8)))
    );
    assert_eq!(
        resolve_date_filter(None, None, None, false, true, false, WeekStart::Sunday, today),
        (Some(day(2026, 3, 1)), Some(day(2026, 3, 7)))
    );
    assert_eq!(
        resolve_date_filter(None, None, None, false, false, true, WeekStart::Monday, today),
        (Some(day(2026, 3, 1)), Some(day(2026, 3, 31)))
    );
    assert_eq!(
        resolve_date_filter(None, None, None, false, false, true, WeekStart::Monday, day(2026, 12, 31)),
        (Some(day(2026, 12, 1)), Some(day(2026, 12, 31)))
    );
    assert_eq!(
        resolve_date_filter(None, None, None, false, false, true, WeekStart::Monday, day(2028, 2, 10)),
        (Some(day(2028, 2, 1)), Some(day(2028, 2, 29)))
    );
    let s = Some(day(2026, 1, 1));
    assert_eq!(resolve_date_filter(None, s, None, false, false, false, WeekStart::Monday, today), (s, None));
}

#[test]
fn date_filter_today_uses_clock() {
    let (s, e) = resolve_date_filter_today(None, None, None, true, false, false, WeekStart::Monday).unwrap();
    assert_eq!(s, e);
    assert!(s.is_some());
    let (s, e) = resolve_date_filter_today(None, None, None, false, true, false, WeekStart::Monday).unwrap();
    assert_eq!(e.unwrap().days - s.unwrap().days, 6);
}

#[test]
fn week_range_holds_today_and_starts_on_week_start() {
    for offset in 0..14 {
        let today = Date { days: day(2026, 2, 20).days + offset };
        for (ws, first) in [(WeekStart::Monday, chrono::Weekday::Mon), (WeekStart::Sunday, chrono::Weekday::Sun)] {
            let (s, e) = resolve_date_filter(None, None, None, false, true, false, ws, today);
            let (s, e) = (s.unwrap(), e.unwrap());
            assert!(s.days <= today.days && today.days <= e.days);
            assert_eq!(e.days - s.days, 6);
            let start = NaiveDate::from_num_days_from_ce_opt(s.days).unwrap();
            assert_eq!(start.weekday(), first);
        }
    }
}

#[test]
fn date_filter_today_resolves_fixed_options() {
    let d = day(2026, 1, 2);
    let e = day(2026, 2, 3);
    assert_eq!(
        resolve_date_filter_today(Some(d), None, None, false, true, true, WeekStart::Monday),
        Some((Some(d), Some(d)))
    );
    assert_eq!(
        resolve_date_filter_today(None, Some(d), Some(e), false, false, false, WeekStart::Sunday),
        Some((Some(d), Some(e)))
    );
    assert_eq!(resolve_date_filter_today(None, None, None, false, false, false, WeekStart::Monday), Some((None, None)));
}
