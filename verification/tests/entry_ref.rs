use archelon::entry_ref::EntryRef;

fn kind(r: &EntryRef) -> (&'static str, &str) {
    match r {
        EntryRef::Path(p) => ("path", p.as_str()),
        EntryRef::Id(i) => ("id", i.as_str()),
        EntryRef::Title(t) => ("title", t.as_str()),
    }
}

#[test]
fn entry_ref_classification_table() {
    assert_eq!(kind(&EntryRef::parse("@abc1234")), ("id", "abc1234"));
    assert_eq!(kind(&EntryRef::parse("path/to/file.md")), ("path", "path/to/file.md"));
    assert_eq!(kind(&EntryRef::parse("./relative.md")), ("path", "./relative.md"));
    assert_eq!(kind(&EntryRef::parse("~/absolute.md")), ("path", "~/absolute.md"));
    assert_eq!(kind(&EntryRef::parse("anything_else")), ("title", "anything_else"));
}

#[test]
fn entry_ref_edge_cases() {
    assert_eq!(kind(&EntryRef::parse("@")), ("id", ""));
    assert_eq!(kind(&EntryRef::parse("@a/b")), ("id", "a/b"));
    assert_eq!(kind(&EntryRef::parse("note.md")), ("path", "note.md"));
    assert_eq!(kind(&EntryRef::parse(".hidden")), ("path", ".hidden"));
    assert_eq!(kind(&EntryRef::parse("abc1234")), ("title", "abc1234"));
    assert_eq!(kind(&EntryRef::parse("")), ("title", ""));
    assert_eq!(kind(&EntryRef::parse("a.mdx")), ("title", "a.mdx"));
    assert_eq!(kind(&EntryRef::parse("dir\\note")), ("path", "dir\\note"));
    assert_eq!(kind(&EntryRef::from("@abc")), ("id", "abc"));
    assert_eq!(kind(&EntryRef::from("notes/a.md".to_string())), ("path", "notes/a.md"));
    assert_eq!(kind(&EntryRef::from("Plain")), ("title", "Plain"));
    let r = EntryRef::parse("@zz");
    assert_eq!(kind(&r.clone()), kind(&r));
}
