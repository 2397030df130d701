use archelon::cache::{cache_row, id_input_decidable, parse_full_id, plan_sync, select_by_id_prefix, FileStamp};
use archelon::entry::{Entry, Frontmatter, TaskMeta};
use archelon::error::Error;
use archelon::time::{Date, Timestamp};

fn stamp(p: &str, m: i64) -> FileStamp {
    FileStamp { path: p.to_string(), mtime: m }
}

#[test]
fn sync_plan_reads_new_and_changed_and_drops_gone() {
    let disk = vec![stamp("/j/a.md", 1), stamp("/j/b.md", 2), stamp("/j/c.md", 3)];
    let db = vec![stamp("/j/b.md", 2), stamp("/j/c.md", 9), stamp("/j/old.md", 4)];
    let plan = plan_sync(&disk, &db);
    assert_eq!(plan.upsert, vec![0, 2]);
    assert_eq!(plan.delete, vec![2]);
    let plan = plan_sync(&vec![], &vec![]);
    assert!(plan.upsert.is_empty() && plan.delete.is_empty());
}

#[test]
fn id_lookup_by_prefix() {
    // 35990925 is "012abcd", 0 is "0000000"
    let ids = vec![35990925u64, 0, 35990926];
    assert_eq!(select_by_id_prefix(&ids, "000").unwrap(), 1);
    match select_by_id_prefix(&ids, "012abc") {
        Err(Error::AmbiguousId(p, n)) => {
            assert_eq!(p, "012abc");
            assert_eq!(n, 2);
        }
        other => panic!("unexpected {other:?}"),
    }
    assert!(matches!(select_by_id_prefix(&ids, "zz"), Err(Error::EntryNotFound(_))));
}

#[test]
fn full_id_parsing() {
    assert_eq!(parse_full_id("012abcd"), Some(35990925));
    assert_eq!(parse_full_id("012ABCD"), Some(35990925));
    assert_eq!(parse_full_id("012abc"), None);
    assert_eq!(parse_full_id("012abc!"), None);
    // decoding-table aliases: o reads as 0, i and l as 1, u as v
    assert_eq!(parse_full_id("o1labcd"), Some(35990925 - 32_u64.pow(4)));
    assert_eq!(parse_full_id("0000i0L"), Some(32 * 32 + 1));
    assert_eq!(parse_full_id("000000u"), parse_full_id("000000v"));
    assert_eq!(parse_full_id("zzzzzzz"), Some(34_359_738_367));
    assert_eq!(parse_full_id("0000\u{e9}00"), None);
    assert!(id_input_decidable("012abcd"));
    assert!(id_input_decidable("\u{e9}"));
    assert!(!id_input_decidable("\u{e9}abcde"));
}

#[test]
fn cache_row_values() {
    let t = Timestamp { date: Date { days: 739000 }, secs: 3600 + 60, nanos: 0 };
    let mut fm = Frontmatter::default();
    fm.id = Some(35990925);
    fm.title = Some("T".to_string());
    fm.task = Some(TaskMeta { due: Some(t), status: Some("open".to_string()), closed_at: None });
    fm.tags = vec!["x".to_string()];
    let e = Entry { path: "/j/a.md".to_string(), frontmatter: fm, body: "b".to_string() };
    let row = cache_row(&e, 77);
    assert_eq!(row.id, Some(35990925));
    assert_eq!(row.file_mtime, 77);
    assert_eq!(row.is_task, 1);
    assert_eq!(row.is_event, 0);
    assert_eq!(row.task_status.as_deref(), Some("open"));
    assert_eq!(row.task_due.as_deref(), Some("2024-04-24T01:01"));
    assert_eq!(row.created_at, None);
    assert_eq!(row.tags, vec!["x".to_string()]);
    assert_eq!(row.body, "b");
    assert_eq!(row.path, "/j/a.md");
}

#[test]
fn sync_converges_after_one_plan() {
    let disk = vec![stamp("a.md", 1), stamp("b.md", 5), stamp("c.md", 7)];
    let db = vec![stamp("a.md", 1), stamp("b.md", 4), stamp("gone.md", 2)];
    let plan = plan_sync(&disk, &db);
    assert_eq!(plan.upsert, vec![1, 2]);
    assert_eq!(plan.delete, vec![2]);
    // apply the plan: drop the gone rows, re-read the changed files
    let mut after: Vec<FileStamp> =
        db.iter().enumerate().filter(|(j, _)| !plan.delete.contains(j)).map(|(_, s)| stamp(&s.path, s.mtime)).collect();
    for &i in &plan.upsert {
        after.retain(|s| s.path != disk[i].path);
        after.push(stamp(&disk[i].path, disk[i].mtime));
    }
    let mut got: Vec<(String, i64)> = after.iter().map(|s| (s.path.clone(), s.mtime)).collect();
    got.sort();
    let want: Vec<(String, i64)> = disk.iter().map(|s| (s.path.clone(), s.mtime)).collect();
    assert_eq!(got, want);
    let again = plan_sync(&disk, &after);
    assert!(again.upsert.is_empty() && again.delete.is_empty());
}
