use archelon::edit::{apply_fields, apply_fields_at, new_frontmatter, new_frontmatter_at, EditError, EntryFields};
use archelon::entry::{EventMeta, Frontmatter, TaskMeta};
use archelon::time::{Date, Timestamp};

fn ts(d: i32, s: u32) -> Timestamp {
    Timestamp { date: Date { days: d }, secs: s, nanos: 0 }
}

fn no_fields() -> EntryFields {
    EntryFields {
        title: None,
        slug: None,
        tags: None,
        task_due: None,
        task_status: None,
        task_closed_at: None,
        event_start: None,
        event_end: None,
    }
}

#[test]
fn set_with_nothing_is_refused() {
    assert!(matches!(apply_fields_at(Frontmatter::default(), no_fields(), ts(700000, 0)), Err(EditError::NothingToUpdate)));
    assert!(matches!(apply_fields(Frontmatter::default(), no_fields()), Err(EditError::NothingToUpdate)));
    assert!(no_fields().is_empty());
    let mut f = no_fields();
    f.tags = Some(vec![]);
    assert!(!f.is_empty());
    let mut f = no_fields();
    f.event_end = Some(ts(700000, 0));
    assert!(!f.is_empty());
}

#[test]
fn set_replaces_given_fields_only() {
    let mut fm = Frontmatter::default();
    fm.title = Some("Old".to_string());
    fm.slug = Some("old".to_string());
    fm.tags = vec!["a".to_string()];
    let mut f = no_fields();
    f.title = Some("New".to_string());
    f.tags = Some(vec![]);
    let out = apply_fields_at(fm, f, ts(700000, 0)).unwrap();
    assert_eq!(out.title.as_deref(), Some("New"));
    assert_eq!(out.slug.as_deref(), Some("old"));
    assert!(out.tags.is_empty());
    assert!(out.task.is_none());
    assert!(out.event.is_none());
}

#[test]
fn set_closing_status_sets_closed_at() {
    let now = ts(739000, 100);
    let mut f = no_fields();
    f.task_status = Some("done".to_string());
    let out = apply_fields_at(Frontmatter::default(), f, now).unwrap();
    let t = out.task.unwrap();
    assert_eq!(t.status.as_deref(), Some("done"));
    assert_eq!(t.closed_at, Some(now));
    // an existing close time is kept
    let mut fm = Frontmatter::default();
    fm.task = Some(TaskMeta { due: None, status: Some("open".to_string()), closed_at: Some(ts(1, 1)) });
    let mut f = no_fields();
    f.task_status = Some("cancelled".to_string());
    let t = apply_fields_at(fm, f, now).unwrap().task.unwrap();
    assert_eq!(t.closed_at, Some(ts(1, 1)));
    // a given close time wins
    let mut f = no_fields();
    f.task_status = Some("archived".to_string());
    f.task_closed_at = Some(ts(5, 5));
    let t = apply_fields_at(Frontmatter::default(), f, now).unwrap().task.unwrap();
    assert_eq!(t.closed_at, Some(ts(5, 5)));
    // an open status does not close
    let mut f = no_fields();
    f.task_status = Some("in_progress".to_string());
    let t = apply_fields_at(Frontmatter::default(), f, now).unwrap().task.unwrap();
    assert_eq!(t.closed_at, None);
}

#[test]
fn set_event_fields_merge() {
    let mut fm = Frontmatter::default();
    fm.event = Some(EventMeta { start: Some(ts(10, 0)), end: Some(ts(11, 0)) });
    let mut f = no_fields();
    f.event_end = Some(ts(12, 0));
    let e = apply_fields_at(fm, f, ts(700000, 0)).unwrap().event.unwrap();
    assert_eq!(e.start, Some(ts(10, 0)));
    assert_eq!(e.end, Some(ts(12, 0)));
}

#[test]
fn set_twice_is_same_as_once() {
    let make = || {
        let mut f = no_fields();
        f.task_status = Some("done".to_string());
        f.title = Some("T".to_string());
        f
    };
    let once = apply_fields_at(Frontmatter::default(), make(), ts(700000, 5)).unwrap();
    let twice = apply_fields_at(apply_fields_at(Frontmatter::default(), make(), ts(700000, 5)).unwrap(), make(), ts(800000, 9)).unwrap();
    assert_eq!(once.title, twice.title);
    assert_eq!(once.task.as_ref().unwrap().closed_at, twice.task.as_ref().unwrap().closed_at);
}

#[test]
fn new_frontmatter_defaults() {
    let now = ts(739000, 42);
    let fm = new_frontmatter_at("My Name", no_fields(), now);
    assert_eq!(fm.title.as_deref(), Some("My Name"));
    assert_eq!(fm.created_at, Some(now));
    assert_eq!(fm.updated_at, Some(now));
    assert!(fm.tags.is_empty());
    assert!(fm.task.is_none());
    assert!(fm.event.is_none());
    assert!(fm.id.is_none());
    let mut f = no_fields();
    f.title = Some("Other".to_string());
    f.tags = Some(vec!["x".to_string()]);
    f.task_status = Some("done".to_string());
    f.event_start = Some(ts(5, 0));
    let fm = new_frontmatter_at("My Name", f, now);
    assert_eq!(fm.title.as_deref(), Some("Other"));
    assert_eq!(fm.tags, vec!["x".to_string()]);
    assert_eq!(fm.task.as_ref().unwrap().closed_at, Some(now));
    assert_eq!(fm.event.as_ref().unwrap().start, Some(ts(5, 0)));
    assert_eq!(fm.event.as_ref().unwrap().end, None);
    let fm = new_frontmatter("n", no_fields());
    assert!(fm.created_at.is_some());
}

#[test]
fn writing_stamps_updated_at() {
    let mut fm = Frontmatter::default();
    fm.title = Some("t".to_string());
    fm.created_at = Some(ts(700000, 5));
    archelon::edit::stamp_written_at(&mut fm, ts(700001, 9));
    assert_eq!(fm.updated_at, Some(ts(700001, 9)));
    assert_eq!(fm.created_at, Some(ts(700000, 5)));
    assert_eq!(fm.title.as_deref(), Some("t"));
    archelon::edit::stamp_written(&mut fm);
    assert!(fm.updated_at.unwrap().date.days > 700001);
}
