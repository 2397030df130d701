use archelon::editor::{editor_body, editor_template, lines_of, EditorError};

#[test]
fn template_lists_title_and_tags() {
    let t = editor_template(Some("My Note"), &vec!["a".to_string(), "b".to_string()]);
    assert_eq!(
        t,
        "# archelon: Write your entry below. Lines starting with '# archelon:' are ignored.\n\
         # archelon: title = My Note\n\
         # archelon: tags  = a, b\n\n"
    );
    let t = editor_template(None, &vec![]);
    assert_eq!(t, "# archelon: Write your entry below. Lines starting with '# archelon:' are ignored.\n\n");
}

#[test]
fn body_drops_instruction_lines() {
    let content = "# archelon: Write your entry below.\n# archelon: title = X\n\nHello\r\nWorld\n";
    assert_eq!(editor_body(content).unwrap(), "Hello\nWorld");
    assert_eq!(editor_body("# archelon: only\n\n\n"), Err(EditorError::EmptyEntry));
    assert_eq!(editor_body(""), Err(EditorError::EmptyEntry));
    assert_eq!(editor_body("\n\nx\n\ny").unwrap(), "x\n\ny");
}

#[test]
fn lines_follow_std() {
    for s in ["", "a", "a\n", "a\r\nb", "a\rb\n", "\n\n", "x\r"] {
        let expected: Vec<String> = s.lines().map(|l| l.to_string()).collect();
        assert_eq!(lines_of(s), expected, "input {s:?}");
    }
}

#[test]
fn template_adds_nothing_to_the_body() {
    let tags = vec!["x".to_string(), "y z".to_string()];
    for title in [None, Some("Plan\r")] {
        let t = editor_template(title, &tags);
        assert_eq!(editor_body(&t), Err(EditorError::EmptyEntry));
        for text in ["hello\nworld\n", "\n\nbody", "# archelon: note\nkept", "a\r\nb"] {
            assert_eq!(editor_body(&format!("{t}{text}")), editor_body(text));
        }
    }
}
