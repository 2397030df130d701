use archelon::entry::{Entry, EventMeta, Frontmatter, TaskMeta};
use archelon::time::{Date, Timestamp};
use archelon::error::Error;
use archelon::parser::{render_entry, split_frontmatter};

fn dummy_path() -> String {
    "test.md".to_string()
}

#[test]
fn parses_entry_with_frontmatter() {
    let src = "---\ntitle: Hello\ntags: [rust, cli]\n---\nsome body\n";
    let split = split_frontmatter(src).unwrap();
    let yaml = split.yaml.unwrap();
    assert_eq!(yaml, "title: Hello\ntags: [rust, cli]");
    let doc: serde_yaml::Value = serde_yaml::from_str(&yaml).unwrap();
    assert_eq!(doc["title"].as_str(), Some("Hello"));
    let tags: Vec<&str> = doc["tags"].as_sequence().unwrap().iter().map(|v| v.as_str().unwrap()).collect();
    assert_eq!(tags, vec!["rust", "cli"]);
    assert_eq!(split.body, "some body\n");
}

#[test]
fn parses_entry_without_frontmatter() {
    let src = "just a body\n";
    let split = split_frontmatter(src).unwrap();
    assert!(split.yaml.is_none());
    assert_eq!(split.body, "just a body\n");
    let entry = Entry { path: dummy_path(), frontmatter: Frontmatter::default(), body: split.body };
    assert!(entry.frontmatter.title.is_none());
}

#[test]
fn title_falls_back_to_file_stem() {
    let src = "body\n";
    let split = split_frontmatter(src).unwrap();
    let entry = Entry { path: "my-note.md".to_string(), frontmatter: Frontmatter::default(), body: split.body };
    assert_eq!(entry.title(), "my-note");
}

#[test]
fn title_prefers_frontmatter_then_untitled() {
    let mut fm = Frontmatter::default();
    fm.title = Some("Given".to_string());
    let entry = Entry { path: "x/my-note.md".to_string(), frontmatter: fm, body: String::new() };
    assert_eq!(entry.title(), "Given");
    let entry = Entry { path: "/".to_string(), frontmatter: Frontmatter::default(), body: String::new() };
    assert_eq!(entry.title(), "(untitled)");
    assert!(!Frontmatter::default().is_empty());
}

#[test]
fn split_edge_cases() {
    // an opening fence not followed by a newline is body text
    let s = split_frontmatter("---x\nbody").unwrap();
    assert!(s.yaml.is_none());
    assert_eq!(s.body, "---x\nbody");
    // an unclosed block is an error
    match split_frontmatter("---\ntitle: a\nno end") {
        Err(Error::InvalidEntry(m)) => assert_eq!(m, "frontmatter block is not closed"),
        _ => panic!("expected an error"),
    }
    // empty frontmatter needs the newline before the closing fence
    let s = split_frontmatter("---\n\n---\nb").unwrap();
    assert_eq!(s.yaml.as_deref(), Some(""));
    assert_eq!(s.body, "b");
    // only one newline after the closing fence is dropped
    let s = split_frontmatter("---\na: 1\n---\n\nbody").unwrap();
    assert_eq!(s.body, "\nbody");
    // closing fence at the very end
    let s = split_frontmatter("---\na: 1\n---").unwrap();
    assert_eq!(s.yaml.as_deref(), Some("a: 1"));
    assert_eq!(s.body, "");
}

#[test]
fn render_entry_writes_title_and_tags() {
    let mut fm = Frontmatter::default();
    fm.title = Some("Hello".to_string());
    fm.tags = vec!["rust".to_string(), "cli".to_string()];
    let entry = Entry { path: dummy_path(), frontmatter: fm, body: "some body\n".to_string() };
    let out = render_entry(&entry);
    assert_eq!(out, "---\ntitle: \"Hello\"\ntags: [\"rust\", \"cli\"]\n---\nsome body\n");
    // reading it back gives the frontmatter text and the body unchanged
    let s = split_frontmatter(&out).unwrap();
    assert_eq!(s.yaml.as_deref(), Some("title: \"Hello\"\ntags: [\"rust\", \"cli\"]"));
    assert_eq!(s.body, "some body\n");
}

#[test]
fn render_entry_without_frontmatter_is_body() {
    let entry = Entry { path: dummy_path(), frontmatter: Frontmatter::default(), body: "plain\n".to_string() };
    assert_eq!(render_entry(&entry), "plain\n");
    let mut fm = Frontmatter::default();
    fm.tags = vec!["a".to_string()];
    let entry = Entry { path: dummy_path(), frontmatter: fm, body: String::new() };
    assert_eq!(render_entry(&entry), "---\ntags: [\"a\"]\n---\n");
}

fn ts(d: i32, secs: u32, nanos: u32) -> Timestamp {
    Timestamp { date: Date { days: d }, secs, nanos }
}

fn chrono_of(t: Timestamp) -> chrono::NaiveDateTime {
    chrono::NaiveDate::from_num_days_from_ce_opt(t.date.days)
        .unwrap()
        .and_time(chrono::NaiveTime::from_num_seconds_from_midnight_opt(t.secs, t.nanos).unwrap())
}

fn yaml_time(v: &serde_yaml::Value) -> chrono::NaiveDateTime {
    v.as_str().unwrap().parse().unwrap()
}

#[test]
fn render_then_parse_keeps_every_field() {
    let tricky = "a: b \"q\" \\ \n\t\r é \u{2028} \u{7f} - # [x] {y} end ".to_string();
    let fm = Frontmatter {
        id: Some(35990925),
        title: Some(tricky.clone()),
        slug: Some("my_slug".to_string()),
        created_at: Some(ts(739000, 3600, 0)),
        updated_at: Some(ts(739001, 59, 1_250_000_000)),
        tags: vec!["x".to_string(), "y, z".to_string(), tricky.clone()],
        task: Some(TaskMeta { due: Some(ts(739002, 86399, 0)), status: Some("done".to_string()), closed_at: Some(ts(739003, 1, 5)) }),
        event: Some(EventMeta { start: Some(ts(739004, 0, 0)), end: None }),
    };
    let body = "\n---\nbody with a fence\n".to_string();
    let entry = Entry { path: dummy_path(), frontmatter: fm, body: body.clone() };
    let out = render_entry(&entry);
    let s = split_frontmatter(&out).unwrap();
    assert_eq!(s.body, body);
    let doc: serde_yaml::Value = serde_yaml::from_str(&s.yaml.unwrap()).unwrap();
    assert_eq!(doc["id"].as_str(), Some("012abcd"));
    assert_eq!(doc["title"].as_str(), Some(tricky.as_str()));
    assert_eq!(doc["slug"].as_str(), Some("my_slug"));
    assert_eq!(yaml_time(&doc["created_at"]), chrono_of(ts(739000, 3600, 0)));
    assert_eq!(yaml_time(&doc["updated_at"]), chrono_of(ts(739001, 59, 1_250_000_000)));
    let tags: Vec<&str> = doc["tags"].as_sequence().unwrap().iter().map(|v| v.as_str().unwrap()).collect();
    assert_eq!(tags, vec!["x", "y, z", tricky.as_str()]);
    assert_eq!(yaml_time(&doc["task"]["due"]), chrono_of(ts(739002, 86399, 0)));
    assert_eq!(doc["task"]["status"].as_str(), Some("done"));
    assert_eq!(yaml_time(&doc["task"]["closed_at"]), chrono_of(ts(739003, 1, 5)));
    assert_eq!(yaml_time(&doc["event"]["start"]), chrono_of(ts(739004, 0, 0)));
    assert!(doc["event"].get("end").is_none());
    // a task or event without fields is still present
    let mut fm = Frontmatter::default();
    fm.task = Some(TaskMeta { due: None, status: None, closed_at: None });
    fm.event = Some(EventMeta { start: None, end: None });
    let out = render_entry(&Entry { path: dummy_path(), frontmatter: fm, body: String::new() });
    assert_eq!(out, "---\ntask: {}\nevent: {}\n---\n");
    let doc: serde_yaml::Value = serde_yaml::from_str(&split_frontmatter(&out).unwrap().yaml.unwrap()).unwrap();
    assert!(doc["task"].is_mapping() && doc["event"].is_mapping());
}

#[test]
fn split_reassembles_the_source() {
    for src in [
        "---\ntitle: A\n---\nbody\n",
        "---\ntitle: A\n---body",
        "---\n\n---\n\n\nx",
        "---\na: 1\n---\n---\nrest",
        "plain text\n---\n",
        "",
    ] {
        let s = split_frontmatter(src).unwrap();
        match s.yaml {
            None => assert_eq!(s.body, src),
            Some(y) => {
                assert!(!y.contains("\n---"));
                let tight = format!("---\n{y}\n---{}", s.body);
                let loose = format!("---\n{y}\n---\n{}", s.body);
                assert!(src == tight || src == loose);
            }
        }
    }
    assert!(split_frontmatter("---\nnever closed\n").is_err());
}
