use archelon::error::Error;
use archelon::journal::{
    entry_filename, is_managed_filename, is_year_dir_name, managed_filename_decidable,
    new_entry_path, new_entry_path_at, sorted_md_paths, Journal, JournalConfig, WeekStart,
};
use archelon::slug::slugify;

fn strings(v: &[&str]) -> Vec<String> {
    v.iter().map(|s| s.to_string()).collect()
}

#[test]
fn slugify_basic() {
    assert_eq!(slugify("My Example Entry"), "my_example_entry");
}

#[test]
fn slugify_strips_special_chars() {
    assert_eq!(slugify("Hello, World!"), "hello_world");
}

#[test]
fn slugify_trims_underscores() {
    assert_eq!(slugify("  leading"), "leading");
}

#[test]
fn slugify_doc_example() {
    assert_eq!(slugify("My Example Entry!"), "my_example_entry");
}

#[test]
fn slugify_unicode_whitespace_and_letters() {
    assert_eq!(slugify("a\u{3000}b"), "a_b");
    assert_eq!(slugify("Café Noir"), "caf_noir");
    assert_eq!(slugify("___"), "");
    assert_eq!(slugify(""), "");
    assert_eq!(slugify("\tTab\nLine  "), "tab_line");
}

#[test]
fn slugify_is_idempotent_on_examples() {
    for t in ["My Example Entry!", "  __x__  ", "Hello, World!", "a\u{3000}b"] {
        let once = slugify(t);
        assert_eq!(slugify(&once), once);
    }
}

#[test]
fn entry_filename_uses_id_text_and_slug() {
    // 35990925 is the identifier written "012abcd".
    assert_eq!(entry_filename(35990925, "My Note"), "012abcd_my_note.md");
    assert_eq!(entry_filename(35990925, "!!!"), "012abcd.md");
    assert_eq!(entry_filename(0, "x"), "0000000_x.md");
}

#[test]
fn new_entry_path_layout() {
    assert_eq!(new_entry_path_at(35990925, 2026, "My Note"), "2026/012abcd_my_note.md");
    assert_eq!(new_entry_path_at(35990925, -5, ""), "-5/012abcd.md");
    let p = new_entry_path("Hello There");
    let (year, name) = p.split_once('/').unwrap();
    assert!(year.chars().all(|c| c.is_ascii_digit()));
    assert_eq!(name.len(), "0000000_hello_there.md".len());
    assert!(name.ends_with("_hello_there.md"));
}

#[test]
fn new_entry_is_found_by_its_id() {
    let j = Journal::from_root("/j".to_string(), true).unwrap();
    let made = new_entry_path_at(35990925, 2026, "Weekly Plan");
    assert!(is_managed_filename(&made));
    let full = format!("/j/{made}");
    let files = strings(&["/j/2026/0000001_other.md", &full, "/j/2026/notes.md"]);
    assert_eq!(j.find_entry_by_id("012abcd", &files).unwrap(), full);
    let now = new_entry_path("Daily");
    assert!(is_managed_filename(&now));
    let id = &now.split_once('/').unwrap().1[..7];
    let files = strings(&[&now, "2026/zzzzzzz_x.md"]);
    assert_eq!(j.find_entry_by_id(id, &files).unwrap(), now);
}

#[test]
fn managed_filenames() {
    assert!(is_managed_filename("2026/012abcd_note.md"));
    assert!(is_managed_filename("012abcd.md"));
    assert!(is_managed_filename("/j/2026/0123456_a.md"));
    assert!(!is_managed_filename("notes.md"));
    assert!(!is_managed_filename("012abcdx.md"));
    assert!(!is_managed_filename("01!abcd_x.md"));
    assert!(!is_managed_filename("2026/012abcd_x.txt"));
    assert!(!is_managed_filename("2026/012abcd"));
    assert!(!is_managed_filename("012abcd_x.MD"));
    assert!(managed_filename_decidable("notes.md"));
    assert!(!managed_filename_decidable("\u{e9}\u{e9}\u{e9}a_x.md"));
}

#[test]
fn year_dir_names() {
    assert!(is_year_dir_name("2026"));
    assert!(!is_year_dir_name(".2026"));
    assert!(!is_year_dir_name("20a6"));
    assert!(is_year_dir_name(""));
}

#[test]
fn journal_from_root_and_dirs() {
    let j = Journal::from_root("/j".to_string(), true).unwrap();
    assert_eq!(j.archelon_dir(), "/j/.archelon");
    assert_eq!(j.config_path(), "/j/.archelon/config.toml");
    let j2 = Journal::from_root("/j/".to_string(), true).unwrap();
    assert_eq!(j2.archelon_dir(), "/j/.archelon");
    assert!(matches!(Journal::from_root("/j".to_string(), false), Err(Error::JournalNotFound)));
}

#[test]
fn journal_find_from_picks_nearest_marked() {
    let cands = strings(&["/a/b/c", "/a/b", "/a", "/"]);
    let j = Journal::find_from(&cands, &vec![false, true, true, false]).unwrap();
    assert_eq!(j.root, "/a/b");
    assert!(matches!(
        Journal::find_from(&cands, &vec![false, false, false, false]),
        Err(Error::JournalNotFound)
    ));
}

#[test]
fn journal_year_subdirs() {
    let j = Journal { root: "/j".to_string() };
    let children = strings(&["/j/2026", "/j/.git", "/j/notes", "/j/2025", "/j/2024"]);
    let dirs = j.year_subdirs(&children, &vec![true, true, true, false, true]);
    assert_eq!(dirs, strings(&["/j/2026", "/j/2024"]));
}

#[test]
fn journal_collect_entries_sorted_md() {
    let j = Journal { root: "/j".to_string() };
    let files = strings(&["/j/b.md", "/j/2026/a.md", "/j/notes.txt", "/j/a.md", "/j/.md"]);
    assert_eq!(j.collect_entries(&files), strings(&["/j/2026/a.md", "/j/a.md", "/j/b.md"]));
    assert_eq!(sorted_md_paths(&strings(&["z.md", "y.MD"])), strings(&["z.md"]));
}

#[test]
fn journal_find_entry_by_id_prefix() {
    let j = Journal { root: "/j".to_string() };
    let files = strings(&["/j/2026/012abcd_a.md", "/j/2026/012abce_b.md", "/j/012abcd.txt"]);
    assert_eq!(j.find_entry_by_id("012abcd", &files).unwrap(), "/j/2026/012abcd_a.md");
    match j.find_entry_by_id("012abc", &files) {
        Err(Error::AmbiguousId(p, n)) => {
            assert_eq!(p, "012abc");
            assert_eq!(n, 2);
        }
        other => panic!("unexpected {other:?}"),
    }
    match j.find_entry_by_id("zzz", &files) {
        Err(Error::EntryNotFound(p)) => assert_eq!(p, "zzz"),
        other => panic!("unexpected {other:?}"),
    }
}

#[test]
fn journal_config_defaults() {
    let c = JournalConfig::default();
    assert_eq!(c.journal.timezone, "UTC");
    assert_eq!(c.journal.week_start, WeekStart::Monday);
    assert_eq!(WeekStart::default(), WeekStart::Monday);
}

#[test]
fn entry_paths_sort_by_identifier() {
    let ids: [u64; 6] = [0, 31, 32, 1023, 35990925, 34_359_738_367];
    for (i, &a) in ids.iter().enumerate() {
        for &b in &ids[i + 1..] {
            assert!(entry_filename(a, "Zebra notes") < entry_filename(b, "aardvark"));
            assert!(new_entry_path_at(a, 2026, "~") < new_entry_path_at(b, 2026, "A B"));
        }
    }
}
