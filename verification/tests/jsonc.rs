use g2mirror::jsonc::strip_comments;

#[test]
fn line_and_block_comments_are_stripped() {
    let input = r#"{
  // a line comment
  "a": 1, // trailing
  /* block */ "b": /* mid */ 2,
  "c": /* multi
         line */ 3
}"#;
    let stripped = strip_comments(input);
    assert_eq!(stripped.len(), input.len(), "length must be preserved");
    assert_eq!(
        stripped.lines().count(),
        input.lines().count(),
        "line structure must be preserved"
    );
    let value: serde_json::Value = serde_json::from_str(&stripped).unwrap();
    let expected: serde_json::Value =
        serde_json::from_str(r#"{"a": 1, "b": 2, "c": 3}"#).unwrap();
    assert_eq!(value, expected);
}

#[test]
fn strings_are_untouched() {
    let input = r#"{"url": "http://x/*y*/z", "re": ".*//.*", "q": "a\"//b"}"#;
    assert_eq!(strip_comments(input), input);
    // A comment after a string containing escapes is still found.
    let input = r#"{"a": "\\" // c
}"#;
    let value: serde_json::Value =
        serde_json::from_str(&strip_comments(input)).unwrap();
    assert_eq!(value["a"], "\\");
}

#[test]
fn multibyte_and_edge_cases() {
    // Multi-byte characters inside comments become one space per byte;
    // the result stays valid UTF-8 and parses.
    let input = "{\n  // héllo — comment\n  \"a\": \"é\"\n}";
    let stripped = strip_comments(input);
    assert_eq!(stripped.len(), input.len());
    let value: serde_json::Value = serde_json::from_str(&stripped).unwrap();
    assert_eq!(value["a"], "é");

    // A lone slash is not a comment.
    assert_eq!(strip_comments(r#"{"a": "b/c"}"#), r#"{"a": "b/c"}"#);

    // Unterminated block comment: stripped to the end.
    let stripped = strip_comments("{} /* dangling");
    assert_eq!(stripped.trim_end(), "{}");
    assert!(serde_json::from_str::<serde_json::Value>(&stripped).is_ok());
}

#[test]
fn stripping_keeps_layout_and_is_idempotent() {
    for input in [
        "",
        "/",
        "//",
        "/*",
        "/*/",
        "/**/",
        "a/*b\nc*/d",
        "\"\\",
        "\"a\\\"//b\" // c\n\"d\"",
        "{ /* h\u{e9}llo\n */ \"\u{e9}\": 1 } // \u{1f600}",
    ] {
        let stripped = strip_comments(input);
        assert_eq!(stripped.len(), input.len());
        for (a, b) in input.bytes().zip(stripped.bytes()) {
            assert_eq!(a == b'\n', b == b'\n');
            assert!(a == b || b == b' ');
        }
        assert_eq!(strip_comments(&stripped), stripped);
    }
    assert_eq!(strip_comments("a/*b\nc*/d"), "a   \n   d");
    assert_eq!(strip_comments("1 // x\n2"), "1     \n2");
}
