use sieve_language_server::datastructures::{SieveDocument, TextChange};
use sieve_language_server::diagnostic::{Position, Range};

fn range(start_line: u32, start_character: u32, end_line: u32, end_character: u32) -> Range {
    Range {
        start: Position { line: start_line, character: start_character },
        end: Position { line: end_line, character: end_character },
    }
}

fn edit(range: Range, text: &str) -> TextChange {
    TextChange { range: Some(range), text: text.to_string() }
}

#[test]
fn test_document_operations() {
    let uri = "file:///test.sieve".to_string();
    let doc = SieveDocument::new(uri, "test content".to_string(), 1);

    // Test basic operations
    assert_eq!(doc.get_text(), "test content");
    assert_eq!(doc.version, 1);

    // Test getting lines
    let uri2 = "file:///test2.sieve".to_string();
    let doc2 = SieveDocument::new(uri2, "line1\nline2\nline3".to_string(), 1);
    assert_eq!(doc2.get_line(0), Some("line1\n".to_string()));
    assert_eq!(doc2.get_line(1), Some("line2\n".to_string()));
    assert_eq!(doc2.get_line(10), None);
}

#[test]
fn new_document_keeps_what_it_is_given() {
    let doc = SieveDocument::new("file:///a.sieve".to_string(), "keep;\n".to_string(), 7);
    assert_eq!(doc.uri, "file:///a.sieve");
    assert_eq!(doc.get_uri(), "file:///a.sieve");
    assert_eq!(doc.get_version(), 7);
    assert_eq!(doc.get_text(), "keep;\n");
    let copy = doc.clone();
    assert_eq!(copy.uri, "file:///a.sieve");
    assert_eq!(copy.get_version(), 7);
    assert_eq!(copy.get_text(), "keep;\n");
}

#[test]
fn replaced_range_reads_back_as_the_new_text() {
    let mut doc = SieveDocument::new("u".to_string(), "hello world".to_string(), 1);
    doc.apply_change(&edit(range(0, 6, 0, 11), "there"));
    let text = doc.get_text();
    assert_eq!(text, "hello there");
    assert_eq!(&text[6..6 + "there".len()], "there");
}

#[test]
fn replaced_range_on_a_later_line() {
    let mut doc = SieveDocument::new("u".to_string(), "one\ntwo\nthree".to_string(), 1);
    doc.apply_change(&edit(range(1, 0, 1, 3), "2"));
    assert_eq!(doc.get_text(), "one\n2\nthree");
    doc.apply_change(&edit(range(0, 3, 1, 0), " "));
    assert_eq!(doc.get_text(), "one 2\nthree");
}

#[test]
fn insertion_is_a_replacement_of_nothing() {
    let mut doc = SieveDocument::new("u".to_string(), "keep".to_string(), 1);
    doc.apply_change(&edit(range(0, 4, 0, 4), ";"));
    assert_eq!(doc.get_text(), "keep;");
    doc.apply_change(&edit(range(0, 0, 0, 0), "# note\n"));
    assert_eq!(doc.get_text(), "# note\nkeep;");
}

#[test]
fn columns_of_an_edit_count_characters() {
    let mut doc = SieveDocument::new("u".to_string(), "h\u{e9}llo \u{1F600} x".to_string(), 1);
    doc.apply_change(&edit(range(0, 6, 0, 7), "smile"));
    assert_eq!(doc.get_text(), "h\u{e9}llo smile x");
}

#[test]
fn edit_at_the_line_past_the_last() {
    let mut doc = SieveDocument::new("u".to_string(), "a\nb".to_string(), 1);
    // Two lines: line 2 is one past the last and starts at the end.
    doc.apply_change(&edit(range(2, 0, 2, 0), "!"));
    assert_eq!(doc.get_text(), "a\nb!");
}

#[test]
fn full_replacement_discards_the_old_text() {
    let mut doc = SieveDocument::new("u".to_string(), "a\nb\nc\nd".to_string(), 1);
    assert_eq!(doc.get_line(3), Some("d".to_string()));
    doc.apply_change(&TextChange { range: None, text: "x\ny".to_string() });
    assert_eq!(doc.get_text(), "x\ny");
    assert_eq!(doc.get_line(0), Some("x\n".to_string()));
    assert_eq!(doc.get_line(1), Some("y".to_string()));
    assert_eq!(doc.get_line(2), None);
    assert_eq!(doc.get_line(3), None);
}

#[test]
fn get_line_has_no_line_beyond_the_count() {
    let texts = ["", "one", "one\n", "one\ntwo", "a\r\nb\rc\n", "\n\n\n"];
    let counts = [1usize, 1, 2, 2, 4, 4];
    for (text, count) in texts.iter().zip(counts.iter()) {
        let doc = SieveDocument::new("u".to_string(), text.to_string(), 1);
        for line in 0..*count {
            assert!(doc.get_line(line).is_some(), "{:?} line {}", text, line);
        }
        for line in *count..*count + 3 {
            assert_eq!(doc.get_line(line), None, "{:?} line {}", text, line);
        }
        assert_eq!(doc.get_line(usize::MAX), None);
    }
}

#[test]
fn lines_keep_their_breaks_and_join_to_the_text() {
    let text = "a\r\nb\rc\nd\u{2028}e\u{0085}f\u{000B}g\u{000C}h\u{2029}";
    let doc = SieveDocument::new("u".to_string(), text.to_string(), 1);
    let expected = [
        "a\r\n", "b\r", "c\n", "d\u{2028}", "e\u{0085}", "f\u{000B}", "g\u{000C}", "h\u{2029}", "",
    ];
    let mut joined = String::new();
    for (i, line) in expected.iter().enumerate() {
        assert_eq!(doc.get_line(i), Some(line.to_string()));
        joined.push_str(line);
    }
    assert_eq!(doc.get_line(expected.len()), None);
    assert_eq!(joined, text);
}

#[test]
fn try_apply_change_makes_what_fits() {
    let mut doc = SieveDocument::new("u".to_string(), "one\ntwo".to_string(), 3);
    assert!(doc.try_apply_change(&edit(range(1, 0, 1, 3), "2")));
    assert_eq!(doc.get_text(), "one\n2");
    assert_eq!(doc.get_version(), 3);
    assert!(doc.try_apply_change(&TextChange { range: None, text: "all new".to_string() }));
    assert_eq!(doc.get_text(), "all new");
}

#[test]
fn try_apply_change_leaves_alone_what_does_not_fit() {
    let mut doc = SieveDocument::new("u".to_string(), "one\ntwo".to_string(), 3);
    // A line that does not exist.
    assert!(!doc.try_apply_change(&edit(range(5, 0, 5, 1), "x")));
    // An end beyond the text.
    assert!(!doc.try_apply_change(&edit(range(1, 0, 1, 4), "x")));
    // A start behind the end.
    assert!(!doc.try_apply_change(&edit(range(1, 2, 0, 1), "x")));
    // Columns that no text can have.
    assert!(!doc.try_apply_change(&edit(range(0, u32::MAX, 0, u32::MAX), "x")));
    assert!(!doc.try_apply_change(&edit(range(u32::MAX, 0, u32::MAX, 0), "x")));
    assert_eq!(doc.get_text(), "one\ntwo");
    assert_eq!(doc.get_version(), 3);
}

#[test]
fn a_column_may_run_into_the_next_line() {
    let mut doc = SieveDocument::new("u".to_string(), "ab\ncd".to_string(), 1);
    // Column 4 of line 0 is the fifth character of the text.
    assert!(doc.try_apply_change(&edit(range(0, 1, 0, 4), "-")));
    assert_eq!(doc.get_text(), "a-d");
}

#[test]
fn set_version_changes_the_version_only() {
    let mut doc = SieveDocument::new("u".to_string(), "keep;".to_string(), 1);
    doc.set_version(9);
    assert_eq!(doc.get_version(), 9);
    assert_eq!(doc.version, 9);
    assert_eq!(doc.get_text(), "keep;");
    assert_eq!(doc.uri, "u");
}
