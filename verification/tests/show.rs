use archelon::entry::{Entry, EventMeta, Frontmatter, TaskMeta};
use archelon::show::show_text;
use archelon::time::{Date, Timestamp};
use chrono::{Datelike, NaiveDate};

fn ts(y: i32, m: u32, d: u32, h: u32, mi: u32) -> Timestamp {
    Timestamp {
        date: Date { days: NaiveDate::from_ymd_opt(y, m, d).unwrap().num_days_from_ce() },
        secs: h * 3600 + mi * 60 + 7,
        nanos: 0,
    }
}

#[test]
fn show_full_entry() {
    let mut fm = Frontmatter::default();
    fm.title = Some("Plan".to_string());
    fm.created_at = Some(ts(2026, 3, 4, 9, 5));
    fm.updated_at = Some(ts(2026, 3, 5, 10, 6));
    fm.tags = vec!["work".to_string(), "q1".to_string()];
    fm.task = Some(TaskMeta { due: Some(ts(2026, 3, 9, 23, 59)), status: None, closed_at: Some(ts(2026, 3, 8, 1, 2)) });
    fm.event = Some(EventMeta { start: Some(ts(2026, 3, 10, 0, 0)), end: Some(ts(2026, 3, 12, 0, 0)) });
    let e = Entry { path: "x.md".to_string(), frontmatter: fm, body: "body\n".to_string() };
    assert_eq!(
        show_text(&e),
        "# Plan\n\
         created:  2026-03-04T09:05\n\
         updated:  2026-03-05T10:06\n\
         tags:     work, q1\n\
         task:     open (due 2026-03-09)\n\
         closed:   2026-03-08T01:02\n\
         event:    2026-03-10 – 2026-03-12\n\
         \n\
         body\n"
    );
}

#[test]
fn show_partial_events_and_minimal_entry() {
    let mut fm = Frontmatter::default();
    fm.task = Some(TaskMeta { due: None, status: Some("done".to_string()), closed_at: None });
    fm.event = Some(EventMeta { start: None, end: Some(ts(2026, 1, 2, 0, 0)) });
    let e = Entry { path: "dir/my-note.md".to_string(), frontmatter: fm, body: String::new() };
    assert_eq!(show_text(&e), "# my-note\ntask:     done\nevent:    until 2026-01-02\n\n");
    let mut fm = Frontmatter::default();
    fm.event = Some(EventMeta { start: Some(ts(2026, 1, 2, 0, 0)), end: None });
    let e = Entry { path: "a.md".to_string(), frontmatter: fm, body: "b".to_string() };
    assert_eq!(show_text(&e), "# a\nevent:    from 2026-01-02\n\nb");
    let mut fm = Frontmatter::default();
    fm.event = Some(EventMeta { start: None, end: None });
    let e = Entry { path: "a.md".to_string(), frontmatter: fm, body: String::new() };
    assert_eq!(show_text(&e), "# a\nevent:    (no dates)\n\n");
}
