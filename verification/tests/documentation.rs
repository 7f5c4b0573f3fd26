use sieve_language_server::datastructures::{SieveLanguageServer, SieveSettings};
use sieve_language_server::diagnostic::Position;
use sieve_language_server::documentation::{CompletionItem, CompletionItemKind};

fn item(
    label: &str,
    kind: CompletionItemKind,
    detail: &str,
    documentation: &str,
    insert_text: &str,
) -> CompletionItem {
    CompletionItem {
        label: label.to_string(),
        kind,
        detail: detail.to_string(),
        documentation: documentation.to_string(),
        insert_text: insert_text.to_string(),
    }
}

#[test]
fn test_documentation_by_name() {
    let server = SieveLanguageServer::new();
    assert_eq!(
        server.get_test_documentation("address"),
        "Tests email addresses in headers like From, To, Cc, Bcc"
    );
    assert_eq!(
        server.get_test_documentation("allof"),
        "Logical AND operator - all contained tests must be true"
    );
    assert_eq!(
        server.get_test_documentation("anyof"),
        "Logical OR operator - any contained test can be true"
    );
    assert_eq!(
        server.get_test_documentation("envelope"),
        "Tests SMTP envelope information (MAIL FROM, RCPT TO)"
    );
    assert_eq!(
        server.get_test_documentation("exists"),
        "Tests whether specified header fields exist in the message"
    );
    assert_eq!(
        server.get_test_documentation("header"),
        "Tests the contents of specified header fields"
    );
    assert_eq!(server.get_test_documentation("size"), "Tests the size of the message in bytes");
    assert_eq!(
        server.get_test_documentation("body"),
        "Tests the body content of the message (requires 'body' extension)"
    );
    assert_eq!(
        server.get_test_documentation("currentdate"),
        "Tests the current date/time on the server (Proton extension)"
    );
    assert_eq!(
        server.get_test_documentation("regex"),
        "Provides regular expression matching (requires 'regex' extension)"
    );
    assert_eq!(server.get_test_documentation("not"), "Sieve test command: not");
    assert_eq!(server.get_test_documentation(""), "Sieve test command: ");
    assert_eq!(server.get_test_documentation("Header"), "Sieve test command: Header");
}

#[test]
fn action_documentation_by_name() {
    let server = SieveLanguageServer::new();
    assert_eq!(
        server.get_action_documentation("fileinto"),
        "Files the message into the specified mailbox/folder"
    );
    assert_eq!(
        server.get_action_documentation("redirect"),
        "Redirects the message to the specified email address"
    );
    assert_eq!(
        server.get_action_documentation("reject"),
        "Rejects the message with an error sent back to sender"
    );
    assert_eq!(
        server.get_action_documentation("discard"),
        "Silently discards the message (no error sent)"
    );
    assert_eq!(
        server.get_action_documentation("keep"),
        "Keeps the message in the default location (usually INBOX)"
    );
    assert_eq!(server.get_action_documentation("stop"), "Stops processing the current script");
    assert_eq!(
        server.get_action_documentation("vacation"),
        "Sends an auto-reply message (requires 'vacation' extension)"
    );
    assert_eq!(
        server.get_action_documentation("expire"),
        "Sets message expiration time (Proton extension)"
    );
    assert_eq!(server.get_action_documentation("notify"), "Sieve action command: notify");
}

#[test]
fn tag_documentation_by_name() {
    let server = SieveLanguageServer::new();
    assert_eq!(
        server.get_tag_documentation(":is"),
        "Exact string match (case-insensitive by default)"
    );
    assert_eq!(
        server.get_tag_documentation(":contains"),
        "Substring match - tests if the string contains the specified text"
    );
    assert_eq!(
        server.get_tag_documentation(":matches"),
        "Wildcard pattern match using * and ? characters"
    );
    assert_eq!(
        server.get_tag_documentation(":regex"),
        "Regular expression match (requires 'regex' extension)"
    );
    assert_eq!(
        server.get_tag_documentation(":over"),
        "Size comparison - tests if size is greater than specified value"
    );
    assert_eq!(
        server.get_tag_documentation(":under"),
        "Size comparison - tests if size is less than specified value"
    );
    assert_eq!(
        server.get_tag_documentation(":copy"),
        "Copy the message instead of moving it (preserves original)"
    );
    assert_eq!(server.get_tag_documentation(":zone"), "Specifies timezone for date operations");
    assert_eq!(server.get_tag_documentation(":count"), "Sieve tag parameter: :count");
    assert_eq!(server.get_tag_documentation("is"), "Sieve tag parameter: is");
}

#[test]
fn word_documentation_looks_in_the_tables_in_order() {
    let server = SieveLanguageServer::new();
    // `envelope`, `regex` and `body` are tests and extensions: the test wins.
    assert_eq!(
        server.get_word_documentation("envelope"),
        Some("Tests SMTP envelope information (MAIL FROM, RCPT TO)".to_string())
    );
    assert_eq!(
        server.get_word_documentation("mailbox"),
        Some("Sieve test command: mailbox".to_string())
    );
    // `stop` is an action; `reject` is an action and an extension.
    assert_eq!(
        server.get_word_documentation("reject"),
        Some("Rejects the message with an error sent back to sender".to_string())
    );
    assert_eq!(
        server.get_word_documentation(":flags"),
        Some("Sieve tag parameter: :flags".to_string())
    );
    assert_eq!(
        server.get_word_documentation("copy"),
        Some("Copy messages instead of moving (RFC 3894)".to_string())
    );
    assert_eq!(
        server.get_word_documentation("variables"),
        Some("Variable support (RFC 5229)".to_string())
    );
    assert_eq!(server.get_word_documentation("if"), None);
    assert_eq!(server.get_word_documentation(""), None);
    assert_eq!(server.get_word_documentation("contains"), None);
}

#[test]
fn completions_with_the_extended_dialect() {
    let server = SieveLanguageServer::new();
    let items = server.get_completions("a", Position { line: 0, character: 0 });
    assert_eq!(items.len(), 19 + 13 + 24 + 25);
    assert_eq!(
        items[0],
        item(
            "address",
            CompletionItemKind::Function,
            "Sieve test: address",
            "Tests email addresses in headers like From, To, Cc, Bcc",
            "address",
        )
    );
    assert_eq!(
        items[11],
        item(
            "currentdate",
            CompletionItemKind::Function,
            "Sieve test: currentdate",
            "Tests the current date/time on the server (Proton extension)",
            "currentdate",
        )
    );
    assert_eq!(
        items[19],
        item(
            "discard",
            CompletionItemKind::Method,
            "Sieve action: discard",
            "Silently discards the message (no error sent)",
            "discard;",
        )
    );
    assert_eq!(
        items[31],
        item(
            "expire",
            CompletionItemKind::Method,
            "Sieve action: expire",
            "Sets message expiration time (Proton extension)",
            "expire;",
        )
    );
    assert_eq!(
        items[32],
        item(
            ":is",
            CompletionItemKind::Property,
            "Sieve tag: :is",
            "Exact string match (case-insensitive by default)",
            ":is",
        )
    );
    assert_eq!(
        items[55],
        item(
            ":param",
            CompletionItemKind::Property,
            "Sieve tag: :param",
            "Sieve tag parameter: :param",
            ":param",
        )
    );
    assert_eq!(
        items[56],
        item(
            "\"body\"",
            CompletionItemKind::Module,
            "Sieve extension: body",
            "Message body testing (RFC 5173)",
            "\"body\"",
        )
    );
    assert_eq!(
        items[80],
        item(
            "\"virustest\"",
            CompletionItemKind::Module,
            "Sieve extension: virustest",
            "Virus testing interface (RFC 5235)",
            "\"virustest\"",
        )
    );
}

#[test]
fn completions_without_the_extended_dialect() {
    let mut server = SieveLanguageServer::new();
    let with = server.get_completions("a", Position { line: 0, character: 0 });
    server.set_settings(SieveSettings::new(false, false, 100, true));
    let without = server.get_completions("b", Position { line: 3, character: 9 });
    assert_eq!(without.len(), with.len() - 2);
    assert!(without.iter().all(|item| item.label != "currentdate" && item.label != "expire"));
    let kept: Vec<CompletionItem> = with
        .into_iter()
        .filter(|item| item.label != "currentdate" && item.label != "expire")
        .collect();
    assert_eq!(without, kept);
    server.set_settings(SieveSettings::new(false, true, 1, false));
    assert_eq!(server.get_completions("a", Position { line: 0, character: 0 }), without);
}
