use sieve_language_server::analysis::{
    analyze_extensions, check_extension_consistency, holds_one_of, line_uses_extension,
    usage_patterns_of, validate_text, UsageTable,
};
use sieve_language_server::datastructures::SieveSettings;
use sieve_language_server::diagnostic::{Diagnostic, DiagnosticSeverity, Position, Range};
use sieve_language_server::rules::{
    char_continues_word, check_line_syntax, has_leading_word, has_leading_word_of, is_action_line,
    is_valid_sieve_statement, skips_line, Vocabulary,
};

fn chars(s: &str) -> Vec<char> {
    s.chars().collect()
}

fn range(start_line: u32, start_character: u32, end_line: u32, end_character: u32) -> Range {
    Range {
        start: Position { line: start_line, character: start_character },
        end: Position { line: end_line, character: end_character },
    }
}

fn codes(found: &[Diagnostic]) -> Vec<&str> {
    found.iter().map(|d| d.code.as_str()).collect()
}

fn extended_off() -> SieveSettings {
    SieveSettings::new(false, false, 100, true)
}

fn missing_semicolon(range: Range) -> Diagnostic {
    Diagnostic {
        range,
        severity: DiagnosticSeverity::Error,
        code: "missing-semicolon".to_string(),
        code_description: Some(
            "https://datatracker.ietf.org/doc/html/rfc5228#section-2.1".to_string(),
        ),
        source: "sieve-lsp".to_string(),
        message: "Missing semicolon after action statement".to_string(),
    }
}

fn invalid_syntax(range: Range) -> Diagnostic {
    Diagnostic {
        range,
        severity: DiagnosticSeverity::Error,
        code: "invalid-syntax".to_string(),
        code_description: Some(
            "https://datatracker.ietf.org/doc/html/rfc5228#section-8".to_string(),
        ),
        source: "sieve-lsp".to_string(),
        message: "Invalid Sieve statement syntax".to_string(),
    }
}

fn extension_disabled(range: Range, keyword: &str) -> Diagnostic {
    Diagnostic {
        range,
        severity: DiagnosticSeverity::Warning,
        code: "extension-disabled".to_string(),
        code_description: Some(
            "https://proton.me/support/sieve-advanced-custom-filters".to_string(),
        ),
        source: "sieve-lsp".to_string(),
        message: format!("Proton extension '{}' is disabled in settings", keyword),
    }
}

fn missing_require(name: &str) -> Diagnostic {
    Diagnostic {
        range: range(0, 0, 0, 0),
        severity: DiagnosticSeverity::Warning,
        code: "missing-require".to_string(),
        code_description: Some(
            "https://datatracker.ietf.org/doc/html/rfc5228#section-3.2".to_string(),
        ),
        source: "sieve-lsp".to_string(),
        message: format!("Extension '{}' is used but not required", name),
    }
}

#[test]
fn a_new_diagnostic_carries_the_name_of_the_analysis() {
    let d = Diagnostic::new(
        range(1, 2, 3, 4),
        DiagnosticSeverity::Warning,
        "some-code",
        "https://example.org/rule",
        "Some message".to_string(),
    );
    assert_eq!(d.range, range(1, 2, 3, 4));
    assert_eq!(d.severity, DiagnosticSeverity::Warning);
    assert_eq!(d.code, "some-code");
    assert_eq!(d.code_description, Some("https://example.org/rule".to_string()));
    assert_eq!(d.source, "sieve-lsp");
    assert_eq!(d.message, "Some message");
}

// --- scenarios ------------------------------------------------------------

#[test]
fn fileinto_without_semicolon_and_require() {
    let found = validate_text("fileinto \"Archive\"", &SieveSettings::default());
    assert!(codes(&found).contains(&"missing-semicolon"));
    assert_eq!(
        found,
        vec![missing_semicolon(range(0, 17, 0, 18)), missing_require("fileinto")]
    );

    let mended = validate_text(
        "require \"fileinto\";\nfileinto \"Archive\";",
        &SieveSettings::default(),
    );
    assert_eq!(mended, Vec::<Diagnostic>::new());
}

#[test]
fn expire_with_the_extended_dialect_off() {
    let line = "if header :contains \"from\" \"x\" { expire :days 5; }";
    let found = validate_text(line, &extended_off());
    let at = line.find("expire").unwrap() as u32;
    assert_eq!(at, 33);
    assert_eq!(found, vec![extension_disabled(range(0, at, 0, at + 6), "expire")]);
    assert_eq!(found[0].severity, DiagnosticSeverity::Warning);
    assert_eq!(found[0].code, "extension-disabled");

    assert_eq!(validate_text(line, &SieveSettings::default()), Vec::<Diagnostic>::new());
}

#[test]
fn five_violations_and_room_for_two() {
    let settings = SieveSettings::with_defaults(None, None, Some(2), None);
    let found = validate_text("keep\nkeep\nkeep\nkeep\nkeep", &settings);
    assert_eq!(
        found,
        vec![missing_semicolon(range(0, 3, 0, 4)), missing_semicolon(range(1, 3, 1, 4))]
    );
    let all = validate_text("keep\nkeep\nkeep\nkeep\nkeep", &SieveSettings::default());
    assert_eq!(all.len(), 5);
    assert_eq!(&all[..2], &found[..]);
}

// --- the termination rule -------------------------------------------------

#[test]
fn action_without_semicolon_is_reported_at_the_last_character() {
    let found = validate_text("keep", &SieveSettings::default());
    assert_eq!(found, vec![missing_semicolon(range(0, 3, 0, 4))]);
    // The last character of the line, not of the statement.
    let found = validate_text("  keep  ", &SieveSettings::default());
    assert_eq!(found, vec![missing_semicolon(range(0, 7, 0, 8))]);
    let found = validate_text("stop\n", &SieveSettings::default());
    assert_eq!(found, vec![missing_semicolon(range(0, 3, 0, 4))]);
}

#[test]
fn action_with_semicolon_is_not_reported() {
    for line in ["keep;", "  keep;  ", "discard ;", "redirect \"a@b.example\";", "stop;"] {
        let found = validate_text(line, &SieveSettings::default());
        assert!(!codes(&found).contains(&"missing-semicolon"), "{:?}", line);
        assert_eq!(found, Vec::<Diagnostic>::new(), "{:?}", line);
    }
}

#[test]
fn every_action_is_held_to_the_semicolon() {
    for action in sieve_language_server::sieve::sieve_actions() {
        let with = format!("{} \"x\";", action);
        let without = format!("{} \"x\"", action);
        let found = validate_text(&with, &SieveSettings::new(true, false, 100, false));
        assert!(!codes(&found).contains(&"missing-semicolon"), "{:?}", with);
        let found = validate_text(&without, &SieveSettings::new(true, false, 100, false));
        let n = without.len() as u32;
        assert_eq!(found, vec![missing_semicolon(range(0, n - 1, 0, n))], "{:?}", without);
    }
}

#[test]
fn a_line_that_only_begins_like_an_action_is_no_action_line() {
    // The leading token is `keeper`, which is no action.
    for line in ["keeper", "keep_all", "keep2", "stopped now", "Keep", "fileintox \"a\""] {
        let found = validate_text(line, &SieveSettings::default());
        assert!(!codes(&found).contains(&"missing-semicolon"), "{:?}", line);
    }
    assert_eq!(validate_text("keeper", &SieveSettings::default()), Vec::<Diagnostic>::new());

    let vocabulary = Vocabulary::new();
    let mut found = Vec::new();
    check_line_syntax(&mut found, 0, &chars("keeper"), &SieveSettings::default(), &vocabulary);
    assert_eq!(found, Vec::<Diagnostic>::new());
}

#[test]
fn the_leading_token_ends_where_no_word_character_follows() {
    // White space, punctuation and characters outside ASCII end the token.
    let lines = ["keep", "keep x", "keep\t", "keep\"x\"", "keep:x", "keep-x", "keep\u{e9}", "keep#"];
    for line in lines {
        let found = validate_text(line, &SieveSettings::default());
        let n = line.encode_utf16().count() as u32;
        assert_eq!(found, vec![missing_semicolon(range(0, n - 1, 0, n))], "{:?}", line);
    }
}

#[test]
fn has_leading_word_goes_by_the_token() {
    assert!(has_leading_word(&chars("keep"), &chars("keep")));
    assert!(has_leading_word(&chars("keep;"), &chars("keep")));
    assert!(has_leading_word(&chars("keep it"), &chars("keep")));
    assert!(!has_leading_word(&chars("keeper"), &chars("keep")));
    assert!(!has_leading_word(&chars("keep_"), &chars("keep")));
    assert!(!has_leading_word(&chars("keepA"), &chars("keep")));
    assert!(!has_leading_word(&chars("keepz"), &chars("keep")));
    assert!(!has_leading_word(&chars("keep0"), &chars("keep")));
    assert!(!has_leading_word(&chars("kee"), &chars("keep")));
    assert!(!has_leading_word(&chars(" keep"), &chars("keep")));
    assert!(has_leading_word(&chars(""), &chars("")));
    assert!(has_leading_word(&chars(";"), &chars("")));
    assert!(!has_leading_word(&chars("a"), &chars("")));
    let words = vec![chars("stop"), chars("keep")];
    assert!(has_leading_word_of(&chars("keep;"), &words));
    assert!(!has_leading_word_of(&chars("keeper;"), &words));
    assert!(!has_leading_word_of(&chars("keep;"), &Vec::new()));
}

#[test]
fn word_characters_are_ascii_letters_digits_and_the_underscore() {
    for code in 0u32..=0x10FFFF {
        if let Some(c) = char::from_u32(code) {
            let expected = c.is_ascii_alphanumeric() || c == '_';
            assert_eq!(char_continues_word(c), expected, "U+{:04X}", code);
        }
    }
}

// --- the validity rule ----------------------------------------------------

#[test]
fn unknown_statement_is_reported_over_the_whole_line() {
    let found = validate_text("foo;", &SieveSettings::default());
    assert_eq!(found, vec![invalid_syntax(range(0, 0, 0, 4))]);
    let found = validate_text("  foo bar;  ", &SieveSettings::default());
    assert_eq!(found, vec![invalid_syntax(range(0, 0, 0, 12))]);
}

#[test]
fn statement_without_semicolon_is_not_held_to_the_validity_rule() {
    assert_eq!(validate_text("foo", &SieveSettings::default()), Vec::<Diagnostic>::new());
    assert_eq!(validate_text("}", &SieveSettings::default()), Vec::<Diagnostic>::new());
}

#[test]
fn known_forms_are_valid() {
    let lines = [
        "require \"fileinto\";",
        "if true { keep; } else { discard; };",
        "elsif x;",
        "else;",
        "stop;",
        "{ ;",
        "} ;",
        "x header y;",
        "nothing;",
        "keep;",
    ];
    for line in lines {
        let found = validate_text(line, &SieveSettings::new(true, false, 100, false));
        assert_eq!(found, Vec::<Diagnostic>::new(), "{:?}", line);
    }
}

#[test]
fn extended_keywords_do_not_make_a_statement_valid_when_off() {
    let on = SieveSettings::new(true, false, 100, false);
    let off = SieveSettings::new(false, false, 100, false);
    assert_eq!(validate_text("expire \"x\";", &on), Vec::<Diagnostic>::new());
    assert_eq!(
        validate_text("expire \"x\";", &off),
        vec![
            invalid_syntax(range(0, 0, 0, 11)),
            extension_disabled(range(0, 0, 0, 6), "expire"),
        ]
    );
    assert_eq!(validate_text("x currentdate y;", &on), Vec::<Diagnostic>::new());
    // `currentdate` holds `date`, which is a test of its own.
    assert_eq!(
        validate_text("x currentdate y;", &off),
        vec![extension_disabled(range(0, 2, 0, 13), "currentdate")]
    );
}

#[test]
fn is_valid_sieve_statement_trims_and_accepts_comments() {
    let vocabulary = Vocabulary::new();
    let settings = SieveSettings::default();
    assert!(is_valid_sieve_statement(&chars(""), &settings, &vocabulary));
    assert!(is_valid_sieve_statement(&chars("   "), &settings, &vocabulary));
    assert!(is_valid_sieve_statement(&chars("  # anything"), &settings, &vocabulary));
    assert!(is_valid_sieve_statement(&chars("  if x"), &settings, &vocabulary));
    assert!(is_valid_sieve_statement(&chars("x size y"), &settings, &vocabulary));
    assert!(is_valid_sieve_statement(&chars("keep"), &settings, &vocabulary));
    assert!(!is_valid_sieve_statement(&chars("foo"), &settings, &vocabulary));
    assert!(!is_valid_sieve_statement(&chars("x keep"), &settings, &vocabulary));
    assert!(is_valid_sieve_statement(&chars("expire"), &settings, &vocabulary));
    assert!(!is_valid_sieve_statement(&chars("expire"), &extended_off(), &vocabulary));
}

#[test]
fn is_action_line_goes_by_the_leading_token() {
    let vocabulary = Vocabulary::new();
    assert!(is_action_line(&chars("keep"), &vocabulary));
    assert!(is_action_line(&chars("fileinto \"x\";"), &vocabulary));
    assert!(is_action_line(&chars("expire"), &vocabulary));
    assert!(is_action_line(&chars(" \t keep"), &vocabulary));
    assert!(is_action_line(&chars("keep;"), &vocabulary));
    assert!(!is_action_line(&chars("keeper"), &vocabulary));
    assert!(!is_action_line(&chars("expired"), &vocabulary));
    assert!(!is_action_line(&chars("   "), &vocabulary));
    assert!(!is_action_line(&chars("if keep"), &vocabulary));
    assert!(!is_action_line(&chars(""), &vocabulary));
    assert!(!is_action_line(&chars("kee"), &vocabulary));
}

// --- the dialect rule -----------------------------------------------------

#[test]
fn every_place_of_a_disabled_keyword_is_reported() {
    let found = validate_text("expire expire;", &SieveSettings::new(false, false, 100, false));
    assert_eq!(
        found,
        vec![
            invalid_syntax(range(0, 0, 0, 14)),
            extension_disabled(range(0, 0, 0, 6), "expire"),
            extension_disabled(range(0, 7, 0, 13), "expire"),
        ]
    );
}

#[test]
fn places_of_a_keyword_may_overlap() {
    let found = validate_text("x expirexpire", &SieveSettings::new(false, false, 100, false));
    assert_eq!(
        found,
        vec![
            extension_disabled(range(0, 2, 0, 8), "expire"),
            extension_disabled(range(0, 7, 0, 13), "expire"),
        ]
    );
}

#[test]
fn keywords_are_reported_keyword_by_keyword() {
    let found = validate_text(
        "x currentdate expire",
        &SieveSettings::new(false, false, 100, false),
    );
    assert_eq!(
        found,
        vec![
            extension_disabled(range(0, 14, 0, 20), "expire"),
            extension_disabled(range(0, 2, 0, 13), "currentdate"),
        ]
    );
}

#[test]
fn the_range_of_a_keyword_is_its_place_in_the_line() {
    let found = validate_text("    x expire", &SieveSettings::new(false, false, 100, false));
    assert_eq!(found, vec![extension_disabled(range(0, 6, 0, 12), "expire")]);
}

#[test]
fn columns_are_in_utf16_code_units() {
    let line = "\u{1F600} \u{e9} expire";
    let found = validate_text(line, &SieveSettings::new(false, false, 100, false));
    let before: String = line.chars().take(4).collect();
    let start = before.encode_utf16().count() as u32;
    assert_eq!(start, 5);
    assert_eq!(found, vec![extension_disabled(range(0, start, 0, start + 6), "expire")]);

    let found = validate_text("keep \u{1F600}", &SieveSettings::default());
    assert_eq!(found, vec![missing_semicolon(range(0, 5, 0, 7))]);
    let found = validate_text("x\u{1F600};", &SieveSettings::default());
    assert_eq!(found, vec![invalid_syntax(range(0, 0, 0, 4))]);
}

// --- lines ----------------------------------------------------------------

#[test]
fn blank_lines_and_comments_are_passed_over() {
    let script = "\n# expire keep\n   \n\t# fileinto\nkeep";
    let found = validate_text(script, &extended_off());
    assert_eq!(found, vec![missing_semicolon(range(4, 3, 4, 4))]);
    assert_eq!(validate_text("", &SieveSettings::default()), Vec::<Diagnostic>::new());
    assert_eq!(validate_text("\n\n", &SieveSettings::default()), Vec::<Diagnostic>::new());
}

#[test]
fn skips_line_is_for_blank_lines_and_comments() {
    assert!(skips_line(&chars("")));
    assert!(skips_line(&chars(" \t ")));
    assert!(skips_line(&chars("# note")));
    assert!(skips_line(&chars("   # note")));
    assert!(!skips_line(&chars("keep # note")));
    assert!(!skips_line(&chars("}")));
}

#[test]
fn carriage_return_before_line_feed_is_no_part_of_the_line() {
    let found = validate_text("keep\r\nstop\r\n", &SieveSettings::default());
    assert_eq!(
        found,
        vec![missing_semicolon(range(0, 3, 0, 4)), missing_semicolon(range(1, 3, 1, 4))]
    );
}

#[test]
fn findings_come_in_the_order_of_the_lines() {
    let found = validate_text("foo;\nkeep\nbar;", &SieveSettings::default());
    assert_eq!(
        found,
        vec![
            invalid_syntax(range(0, 0, 0, 4)),
            missing_semicolon(range(1, 3, 1, 4)),
            invalid_syntax(range(2, 0, 2, 4)),
        ]
    );
}

// --- the consistency rule -------------------------------------------------

#[test]
fn body_without_require_is_reported_once() {
    let script = "if body :contains \"x\" {\n    keep;\n}\nif body :is \"y\" {\n    stop;\n}";
    let found = validate_text(script, &SieveSettings::default());
    assert_eq!(found, vec![missing_require("body")]);
    assert!(found[0].message.contains("body"));

    let declared = format!("require \"body\";\n{}", script);
    assert_eq!(validate_text(&declared, &SieveSettings::default()), Vec::<Diagnostic>::new());
    let listed = format!("require [\"fileinto\", \"body\"];\n{}", script);
    assert_eq!(validate_text(&listed, &SieveSettings::default()), Vec::<Diagnostic>::new());
    // The require may stand anywhere.
    let late = format!("{}\nrequire \"body\";", script);
    assert_eq!(validate_text(&late, &SieveSettings::default()), Vec::<Diagnostic>::new());
}

#[test]
fn consistency_is_checked_only_where_asked() {
    let settings = SieveSettings::new(true, false, 100, false);
    assert_eq!(
        validate_text("if body :contains \"x\" {", &settings),
        Vec::<Diagnostic>::new()
    );
}

#[test]
fn consistency_findings_come_last_in_the_order_of_first_use() {
    let script = "vacation \"away\";\nif body :regex \"x\" {\nfoo;";
    let found = validate_text(script, &SieveSettings::default());
    assert_eq!(
        found,
        vec![
            invalid_syntax(range(2, 0, 2, 4)),
            missing_require("vacation"),
            missing_require("body"),
            missing_require("regex"),
        ]
    );
}

#[test]
fn a_require_of_another_extension_does_not_help() {
    let found = validate_text(
        "require \"fileinto\";\nif body :contains \"x\" {",
        &SieveSettings::default(),
    );
    assert_eq!(found, vec![missing_require("body")]);
}

#[test]
fn a_comment_uses_nothing_and_declares_nothing() {
    let found = validate_text(
        "# require \"body\";\nif body :contains \"x\" {\n# vacation",
        &SieveSettings::default(),
    );
    assert_eq!(found, vec![missing_require("body")]);
}

#[test]
fn line_uses_extension_by_its_patterns() {
    let cases = [
        ("body", "if body :contains", true),
        ("body", "nobody", false),
        ("body", "body", false),
        ("regex", "x :regex y", true),
        ("regex", "regex", false),
        ("fileinto", "fileinto \"x\";", true),
        ("vacation", "vacation", true),
        ("copy", "redirect :copy", true),
        ("copy", "copy", false),
        ("date", "date :zone", true),
        ("date", "currentdate", true),
        ("date", "date", false),
        ("relational", ":value \"gt\"", true),
        ("relational", ":count \"gt\"", true),
        ("relational", "relational", false),
        ("imap4flags", "addflag \"x\";", true),
        ("imap4flags", "setflag \"x\";", true),
        ("imap4flags", "removeflag \"x\";", true),
        ("imap4flags", "imap4flags", false),
        ("envelope", "envelope", false),
        ("unknown", "unknown", false),
        ("", "", false),
    ];
    for (extension, line, expected) in cases {
        assert_eq!(
            line_uses_extension(&chars(line), extension),
            expected,
            "{:?} in {:?}",
            extension,
            line
        );
    }
}

#[test]
fn usage_patterns_of_known_and_unknown_extensions() {
    assert_eq!(usage_patterns_of(&chars("body")), vec![chars("body ")]);
    assert_eq!(usage_patterns_of(&chars("date")), vec![chars("date "), chars("currentdate")]);
    assert_eq!(
        usage_patterns_of(&chars("imap4flags")),
        vec![chars("addflag"), chars("setflag"), chars("removeflag")]
    );
    assert_eq!(usage_patterns_of(&chars("mime")), Vec::<Vec<char>>::new());
    assert!(holds_one_of(&chars("x setflag"), &usage_patterns_of(&chars("imap4flags"))));
    assert!(!holds_one_of(&chars("x"), &usage_patterns_of(&chars("imap4flags"))));
    assert!(!holds_one_of(&chars("x"), &Vec::new()));
}

#[test]
fn analyze_extensions_collects_in_order_and_once() {
    let table = UsageTable::new();
    let mut required = Vec::new();
    let mut used = Vec::new();
    analyze_extensions(&chars("  vacation :copy body x"), &mut required, &mut used, &table);
    assert_eq!(required, Vec::<String>::new());
    assert_eq!(used, vec!["body", "copy", "vacation"]);
    analyze_extensions(&chars("require [\"body\", \"body\"];"), &mut required, &mut used, &table);
    assert_eq!(required, vec!["body", "body"]);
    assert_eq!(used, vec!["body", "copy", "vacation"]);
    analyze_extensions(&chars("fileinto :copy \"x\";"), &mut required, &mut used, &table);
    assert_eq!(used, vec!["body", "copy", "vacation", "fileinto"]);
    // A line that only holds the keyword somewhere declares nothing.
    analyze_extensions(&chars("x require \"regex\";"), &mut required, &mut used, &table);
    assert_eq!(required, vec!["body", "body"]);
}

#[test]
fn check_extension_consistency_reports_what_is_not_declared() {
    let mut found = vec![missing_semicolon(range(0, 3, 0, 4))];
    let required = vec!["body".to_string()];
    let used = vec!["regex".to_string(), "body".to_string(), "copy".to_string()];
    check_extension_consistency(&mut found, &required, &used);
    assert_eq!(
        found,
        vec![
            missing_semicolon(range(0, 3, 0, 4)),
            missing_require("regex"),
            missing_require("copy"),
        ]
    );
    let mut none = Vec::new();
    check_extension_consistency(&mut none, &required, &Vec::new());
    assert_eq!(none, Vec::<Diagnostic>::new());
}

#[test]
fn check_line_syntax_appends_to_what_is_there() {
    let vocabulary = Vocabulary::new();
    let mut found = vec![missing_require("body")];
    check_line_syntax(&mut found, 3, &chars("keep"), &SieveSettings::default(), &vocabulary);
    assert_eq!(found, vec![missing_require("body"), missing_semicolon(range(3, 3, 3, 4))]);
    check_line_syntax(&mut found, 4, &chars("keep;"), &SieveSettings::default(), &vocabulary);
    assert_eq!(found.len(), 2);
}

// --- the limit ------------------------------------------------------------

#[test]
fn the_report_never_exceeds_the_limit() {
    let script = "expire expire expire\nfoo;\nfileinto \"x\"\nif body :regex \"x\" {\nkeep";
    let all = validate_text(script, &SieveSettings::new(false, false, 100, true));
    assert_eq!(all.len(), 10);
    for limit in 0..=12usize {
        let settings = SieveSettings::new(false, false, limit, true);
        let found = validate_text(script, &settings);
        assert!(found.len() <= limit);
        assert_eq!(found.len(), limit.min(all.len()));
        assert_eq!(&found[..], &all[..found.len()]);
    }
}

#[test]
fn the_limit_holds_within_a_line_and_for_the_consistency_rule() {
    let one = SieveSettings::new(false, false, 1, true);
    assert_eq!(
        validate_text("expire expire", &one),
        vec![missing_semicolon(range(0, 12, 0, 13))]
    );
    let two = SieveSettings::new(true, false, 2, true);
    assert_eq!(
        validate_text("if body :regex :copy \"x\" {", &two),
        vec![missing_require("body"), missing_require("copy")]
    );
    let none = SieveSettings::new(true, false, 0, true);
    assert_eq!(validate_text("keep\nfoo;", &none), Vec::<Diagnostic>::new());
}

#[test]
fn every_range_ends_at_or_after_its_start() {
    let script = "expire expire expire\nfoo;\n  fileinto \"\u{1F600}\"\nif body :regex {\nkeep";
    for extended in [true, false] {
        let found = validate_text(script, &SieveSettings::new(extended, false, 100, true));
        for d in &found {
            let (s, e) = (d.range.start, d.range.end);
            assert!(s.line < e.line || (s.line == e.line && s.character <= e.character));
            assert_eq!(d.source, "sieve-lsp");
        }
    }
}

#[test]
fn strict_mode_changes_nothing() {
    let script = "expire expire\nfoo;\nfileinto \"x\"\nif body :regex \"x\" {";
    for extended in [true, false] {
        for semantic in [true, false] {
            let lax = validate_text(script, &SieveSettings::new(extended, false, 100, semantic));
            let strict = validate_text(script, &SieveSettings::new(extended, true, 100, semantic));
            assert_eq!(lax, strict);
        }
    }
}
