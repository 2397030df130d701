use archelon::entry::{Entry, EventMeta, Frontmatter, TaskMeta};
use archelon::listing::{
    compute_labels, date_in_range, format_table, select_entries, table_row, utf8_length, MatchLabel,
    TableRow,
};
use archelon::time::{Date, Timestamp};
use chrono::{Datelike, NaiveDate};

fn day(y: i32, m: u32, d: u32) -> Date {
    Date { days: NaiveDate::from_ymd_opt(y, m, d).unwrap().num_days_from_ce() }
}

fn ts(y: i32, m: u32, d: u32) -> Timestamp {
    Timestamp { date: day(y, m, d), secs: 3600, nanos: 0 }
}

fn entry_with(fm: Frontmatter) -> Entry {
    Entry { path: "/j/2026/012abcd_x.md".to_string(), frontmatter: fm, body: String::new() }
}

fn task(status: Option<&str>, due: Option<Timestamp>, closed: Option<Timestamp>) -> TaskMeta {
    TaskMeta { due, status: status.map(|s| s.to_string()), closed_at: closed }
}

#[test]
fn labels_for_tasks() {
    let start = Some(day(2026, 3, 1));
    let end = Some(day(2026, 3, 31));
    let mut fm = Frontmatter::default();
    fm.task = Some(task(None, None, None));
    assert_eq!(compute_labels(&entry_with(fm), start, end), vec![MatchLabel::Todo]);
    let mut fm = Frontmatter::default();
    fm.task = Some(task(Some("done"), Some(ts(2026, 3, 5)), Some(ts(2026, 3, 6))));
    assert_eq!(compute_labels(&entry_with(fm), start, end), vec![MatchLabel::Todo, MatchLabel::Closed]);
    let mut fm = Frontmatter::default();
    fm.task = Some(task(Some("archived"), Some(ts(2026, 2, 5)), Some(ts(2026, 4, 6))));
    assert_eq!(compute_labels(&entry_with(fm), start, end), Vec::<MatchLabel>::new());
    let mut fm = Frontmatter::default();
    fm.task = Some(task(Some("in_progress"), None, None));
    assert_eq!(compute_labels(&entry_with(fm), start, end), vec![MatchLabel::Todo]);
}

#[test]
fn labels_for_events_and_timestamps() {
    let start = Some(day(2026, 3, 1));
    let end = Some(day(2026, 3, 31));
    let mut fm = Frontmatter::default();
    fm.event = Some(EventMeta { start: Some(ts(2026, 2, 20)), end: Some(ts(2026, 3, 1)) });
    fm.created_at = Some(ts(2026, 3, 31));
    fm.updated_at = Some(ts(2026, 4, 1));
    assert_eq!(compute_labels(&entry_with(fm), start, end), vec![MatchLabel::Event, MatchLabel::Created]);
    let mut fm = Frontmatter::default();
    fm.event = Some(EventMeta { start: Some(ts(2026, 4, 1)), end: None });
    assert_eq!(compute_labels(&entry_with(fm), start, end), Vec::<MatchLabel>::new());
    let mut fm = Frontmatter::default();
    fm.event = Some(EventMeta { start: None, end: None });
    fm.updated_at = Some(ts(2026, 3, 2));
    assert_eq!(compute_labels(&entry_with(fm), start, end), vec![MatchLabel::Event, MatchLabel::Updated]);
    // open-ended range
    let mut fm = Frontmatter::default();
    fm.created_at = Some(ts(1999, 1, 1));
    assert_eq!(compute_labels(&entry_with(fm), None, end), vec![MatchLabel::Created]);
}

#[test]
fn date_range_checks() {
    assert!(date_in_range(day(2026, 3, 1), Some(day(2026, 3, 1)), Some(day(2026, 3, 1))));
    assert!(!date_in_range(day(2026, 3, 2), Some(day(2026, 3, 1)), Some(day(2026, 3, 1))));
    assert!(date_in_range(day(2026, 3, 2), None, None));
    assert_eq!(MatchLabel::Todo.as_str(), "TODO");
    assert_eq!(MatchLabel::Closed.as_str(), "CLOSED");
    assert_eq!(MatchLabel::Updated.as_str(), "UPDATED");
}

#[test]
fn selection_with_and_without_range() {
    let mut a = Frontmatter::default();
    a.created_at = Some(ts(2026, 3, 5));
    let mut b = Frontmatter::default();
    b.created_at = Some(ts(2025, 3, 5));
    let entries = vec![entry_with(a), entry_with(b)];
    let all = select_entries(&entries, None, None);
    assert_eq!(all.len(), 2);
    assert_eq!(all[1].index, 1);
    assert!(all[0].labels.is_empty());
    let some = select_entries(&entries, Some(day(2026, 1, 1)), None);
    assert_eq!(some.len(), 1);
    assert_eq!(some[0].index, 0);
    assert_eq!(some[0].labels, vec![MatchLabel::Created]);
}

#[test]
fn table_rows_and_layout() {
    let mut fm = Frontmatter::default();
    fm.id = Some(35990925);
    fm.title = Some("First".to_string());
    fm.task = Some(task(Some("in_progress"), None, None));
    let e = entry_with(fm);
    let row = table_row(&e, &vec![], false);
    assert_eq!(row.id, "012abcd");
    assert_eq!(row.status, "in_progress");
    assert_eq!(row.title, "First");
    let row2 = table_row(&e, &vec![MatchLabel::Todo, MatchLabel::Created], true);
    assert_eq!(row2.status, "TODO,CREATED");
    let e2 = entry_with(Frontmatter::default());
    let row3 = table_row(&e2, &vec![], false);
    assert_eq!(row3.id, "");
    assert_eq!(row3.status, "");
    assert_eq!(row3.title, "012abcd_x");
    let lines = format_table(&vec![row, row3]);
    assert_eq!(lines, vec![
        "012abcd  in_progress  First".to_string(),
        "                      012abcd_x".to_string(),
    ]);
}

#[test]
fn table_width_counts_bytes_and_pads_chars() {
    let rows = vec![
        TableRow { id: "a".to_string(), status: "é".to_string(), title: "t1".to_string() },
        TableRow { id: "bb".to_string(), status: "x".to_string(), title: "t2".to_string() },
    ];
    // "é" is two bytes wide for the column but one character when padded
    assert_eq!(format_table(&rows), vec!["a   é   t1".to_string(), "bb  x   t2".to_string()]);
    assert_eq!(utf8_length(&"aé€😀".chars().collect()), 1 + 2 + 3 + 4);
    assert!(format_table(&vec![]).is_empty());
}
