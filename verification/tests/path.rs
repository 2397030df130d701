use archelon::path::{extension, file_name, file_stem, has_md_extension, join};
use std::path::Path;

const SAMPLES: &[&str] = &[
    "", "/", ".", "..", "a", "a/b.md", "a/b.md/", "a//b.tar.gz", "foo.txt/.", "foo.txt/.//", "./x",
    "a/..", ".hidden", ".hidden.md", "x.", "/abs/y.md", "a/./b", "..md", "a/.",
];

#[test]
fn path_parts_follow_std() {
    for s in SAMPLES {
        let p = Path::new(s);
        assert_eq!(file_name(s).as_deref(), p.file_name().map(|x| x.to_str().unwrap()), "file_name {s:?}");
        assert_eq!(file_stem(s).as_deref(), p.file_stem().map(|x| x.to_str().unwrap()), "file_stem {s:?}");
        assert_eq!(extension(s).as_deref(), p.extension().map(|x| x.to_str().unwrap()), "extension {s:?}");
        assert_eq!(has_md_extension(s), p.extension().and_then(|x| x.to_str()) == Some("md"));
    }
}

#[test]
fn join_follows_std() {
    for (a, b) in [("/j", ".archelon"), ("/j/", "x"), ("", "x"), ("a", "/abs"), ("2026", "012abcd.md")] {
        assert_eq!(join(a, b), Path::new(a).join(b).to_str().unwrap());
    }
}
