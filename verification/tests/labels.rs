use archelon::entry::{EventMetaView, TaskMetaView};
use archelon::labels::{
    entry_flags, entry_flags_at, is_stale, is_stale_at, task_status_label, EntryFlag,
};
use archelon::time::{Date, Span, Timestamp};
use chrono::{Datelike, Duration, Local, NaiveDateTime, Timelike};

fn to_ts(dt: NaiveDateTime) -> Timestamp {
    Timestamp {
        date: Date { days: dt.date().num_days_from_ce() },
        secs: dt.time().num_seconds_from_midnight(),
        nanos: dt.time().nanosecond(),
    }
}

fn now() -> NaiveDateTime {
    Local::now().naive_local()
}

fn days(n: i64) -> Span {
    Span::days(n)
}

/// An incomplete task (`closed_at` absent).
fn open_task() -> TaskMetaView {
    TaskMetaView { due: None, status: "open".into(), started_at: None, closed_at: None }
}

/// A closed task (`closed_at` present).
fn closed_task(closed_at: NaiveDateTime) -> TaskMetaView {
    TaskMetaView { due: None, status: "done".into(), started_at: None, closed_at: Some(to_ts(closed_at)) }
}

fn event(start: NaiveDateTime, end: NaiveDateTime) -> EventMetaView {
    EventMetaView { start: to_ts(start), end: to_ts(end) }
}

#[test]
fn incomplete_task_exactly_at_threshold_is_stale() {
    let stale_after = Duration::days(30);
    let updated_at = now() - stale_after;
    assert!(is_stale(Some(&open_task()), to_ts(updated_at), days(30)));
}

#[test]
fn incomplete_task_one_day_before_threshold_is_not_stale() {
    let updated_at = now() - Duration::days(29);
    assert!(!is_stale(Some(&open_task()), to_ts(updated_at), days(30)));
}

#[test]
fn incomplete_task_beyond_threshold_is_stale() {
    let updated_at = now() - Duration::days(60);
    assert!(is_stale(Some(&open_task()), to_ts(updated_at), days(30)));
}

#[test]
fn closed_task_is_never_stale_regardless_of_age() {
    let updated_at = now() - Duration::days(365);
    assert!(!is_stale(Some(&closed_task(updated_at)), to_ts(updated_at), days(30)));
}

#[test]
fn event_and_note_are_never_stale() {
    let old = now() - Duration::days(365);
    assert!(!is_stale(None, to_ts(old), days(30)));
    assert!(!is_stale(None, to_ts(now() - Duration::days(1)), days(30)));
    let _ = event(old, old);
}

#[test]
fn entry_flags_appends_stale_for_old_incomplete_task() {
    let updated_at = to_ts(now() - Duration::days(40));
    let flags = entry_flags(Some(&open_task()), None, false, updated_at, updated_at, days(30));
    assert!(flags.contains(&EntryFlag::Stale));
    assert!(flags.contains(&EntryFlag::Open));
}

#[test]
fn entry_flags_marks_hidden_true_as_hidden() {
    let now_dt = now();
    let ev = event(now_dt, now_dt);
    let flags = entry_flags(None, Some(&ev), true, to_ts(now_dt), to_ts(now_dt), days(30));
    assert!(flags.contains(&EntryFlag::Hidden));
}

#[test]
fn entry_flags_does_not_mark_hidden_false_or_absent_as_hidden() {
    let now_dt = to_ts(now());
    let flags = entry_flags(None, None, false, now_dt, now_dt, days(30));
    assert!(!flags.contains(&EntryFlag::Hidden));
    assert!(flags.contains(&EntryFlag::Note));
}

#[test]
fn entry_flags_stale_and_hidden_are_both_appended_for_a_stale_hidden_task() {
    let updated_at = to_ts(now() - Duration::days(40));
    let flags = entry_flags(Some(&open_task()), None, true, updated_at, updated_at, days(30));
    assert!(flags.contains(&EntryFlag::Stale));
    assert!(flags.contains(&EntryFlag::Hidden));
}

fn at(y: i32, m: u32, d: u32, h: u32, mi: u32) -> Timestamp {
    to_ts(chrono::NaiveDate::from_ymd_opt(y, m, d).unwrap().and_hms_opt(h, mi, 0).unwrap())
}

#[test]
fn entry_flags_at_fixed_time_exact_order() {
    let now = at(2026, 3, 10, 12, 0);
    let mut task = open_task();
    task.due = Some(at(2026, 3, 9, 0, 0));
    // overdue task, stale and hidden: slot 1, slot 2, then the orthogonal flags
    let flags = entry_flags_at(Some(&task), None, true, at(2026, 1, 1, 0, 0), at(2026, 1, 1, 0, 0), days(30), now);
    assert_eq!(flags, vec![EntryFlag::Overdue, EntryFlag::Open, EntryFlag::Stale, EntryFlag::Hidden]);
    // created within 24 hours
    let flags = entry_flags_at(None, None, false, at(2026, 3, 9, 13, 0), at(2026, 3, 9, 13, 0), days(30), now);
    assert_eq!(flags, vec![EntryFlag::New, EntryFlag::Note]);
    // created exactly 24 hours ago is no longer new
    let flags = entry_flags_at(None, None, false, at(2026, 3, 9, 12, 0), at(2026, 3, 9, 12, 0), days(30), now);
    assert_eq!(flags, vec![EntryFlag::Note]);
    // one nanosecond short of 24 hours is new; updated exactly 24 hours ago is not updated
    let mut just = at(2026, 3, 9, 12, 0);
    just.nanos = 1;
    let flags = entry_flags_at(None, None, false, just, just, days(30), now);
    assert_eq!(flags, vec![EntryFlag::New, EntryFlag::Note]);
    let flags = entry_flags_at(None, None, false, at(2026, 1, 1, 0, 0), at(2026, 3, 9, 12, 0), days(30), now);
    assert_eq!(flags, vec![EntryFlag::Note]);
    // updated within 24 hours
    let flags = entry_flags_at(None, None, false, at(2026, 1, 1, 0, 0), at(2026, 3, 10, 11, 0), days(30), now);
    assert_eq!(flags, vec![EntryFlag::Updated, EntryFlag::Note]);
    // past event
    let ev = EventMetaView { start: at(2026, 3, 1, 0, 0), end: at(2026, 3, 2, 0, 0) };
    let flags = entry_flags_at(None, Some(&ev), false, at(2026, 1, 1, 0, 0), at(2026, 1, 1, 0, 0), days(30), now);
    assert_eq!(flags, vec![EntryFlag::EventClosed]);
    // future event
    let ev = EventMetaView { start: at(2026, 3, 1, 0, 0), end: at(2026, 4, 2, 0, 0) };
    let flags = entry_flags_at(None, Some(&ev), false, at(2026, 1, 1, 0, 0), at(2026, 1, 1, 0, 0), days(30), now);
    assert_eq!(flags, vec![EntryFlag::Event]);
    // a closed task that was due is not overdue
    let mut done = closed_task(chrono::NaiveDate::from_ymd_opt(2026, 3, 9).unwrap().and_hms_opt(0, 0, 0).unwrap());
    done.due = Some(at(2026, 3, 8, 0, 0));
    let flags = entry_flags_at(Some(&done), None, false, at(2026, 1, 1, 0, 0), at(2026, 1, 1, 0, 0), days(30), now);
    assert_eq!(flags, vec![EntryFlag::Done]);
}

#[test]
fn is_stale_at_boundaries() {
    let now = at(2026, 3, 31, 0, 0);
    assert!(is_stale_at(Some(&open_task()), at(2026, 3, 1, 0, 0), days(30), now));
    assert!(!is_stale_at(Some(&open_task()), at(2026, 3, 1, 0, 1), days(30), now));
    assert!(!is_stale_at(None, at(2020, 3, 1, 0, 0), days(30), now));
}

#[test]
fn task_status_labels() {
    assert_eq!(task_status_label("done"), "done");
    assert_eq!(task_status_label("completed"), "done");
    assert_eq!(task_status_label("canceled"), "cancelled");
    assert_eq!(task_status_label("cancelled"), "cancelled");
    assert_eq!(task_status_label("wip"), "in_progress");
    assert_eq!(task_status_label("in_progress"), "in_progress");
    assert_eq!(task_status_label("archived"), "archived");
    assert_eq!(task_status_label("whatever"), "open");
    assert_eq!(task_status_label(""), "open");
    let mut task = open_task();
    task.status = "completed".into();
    let now = at(2026, 3, 31, 0, 0);
    let flags = entry_flags_at(Some(&task), None, false, at(2026, 1, 1, 0, 0), at(2026, 1, 1, 0, 0), days(30), now);
    assert_eq!(flags, vec![EntryFlag::Done, EntryFlag::Stale]);
}

#[test]
fn flag_strings() {
    assert_eq!(EntryFlag::Overdue.as_str(), "overdue");
    assert_eq!(EntryFlag::EventClosed.as_str(), "event_closed");
    assert_eq!(EntryFlag::InProgress.as_str(), "in_progress");
    assert_eq!(EntryFlag::Hidden.as_str(), "hidden");
    assert_eq!(EntryFlag::Stale.to_emoji(), "🕰️");
    assert_eq!(EntryFlag::Note.to_emoji(), "📝");
    assert_eq!(EntryFlag::Done.to_nerd(), "󰄲");
    assert_eq!(EntryFlag::Overdue.to_initial(), '!');
    assert_eq!(EntryFlag::EventClosed.to_initial(), 'e');
    assert_eq!(EntryFlag::Hidden.to_initial(), 'H');
}

#[test]
fn elapsed_time_across_a_leap_second_follows_chrono() {
    let d = 739_000;
    let updated = Timestamp { date: Date { days: d }, secs: 59, nanos: 1_500_000_000 };
    let now = Timestamp { date: Date { days: d }, secs: 86_399, nanos: 500_000_000 };
    let later = Timestamp { date: Date { days: d + 1 }, secs: 0, nanos: 0 };
    let after = Span { secs: 86_340, nanos: 0 };
    let task = open_task();
    assert!(is_stale_at(Some(&task), updated, after, now));
    assert!(!is_stale_at(Some(&task), updated, after, later));
    let no_leap = Timestamp { date: Date { days: d }, secs: 59, nanos: 500_000_000 };
    let after = Span { secs: 86_339, nanos: 0 };
    assert!(is_stale_at(Some(&task), no_leap, after, now));
    assert!(is_stale_at(Some(&task), no_leap, after, later));
}
