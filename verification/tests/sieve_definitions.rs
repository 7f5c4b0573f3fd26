use sieve_language_server::sieve::{sieve_actions, sieve_extensions, sieve_tags, sieve_tests};

#[test]
fn test_sieve_definitions() {
    // Test that our Sieve definitions are not empty
    assert!(!sieve_tests().is_empty());
    assert!(!sieve_actions().is_empty());
    assert!(!sieve_tags().is_empty());
    assert!(!sieve_extensions().is_empty());

    // Test that specific commands exist
    assert!(sieve_tests().contains(&"header"));
    assert!(sieve_actions().contains(&"fileinto"));
    assert!(sieve_tags().contains(&":contains"));
}

#[test]
fn tables_have_their_sizes_and_order() {
    let tests = sieve_tests();
    assert_eq!(tests.len(), 19);
    assert_eq!(tests[0], "address");
    assert_eq!(tests[11], "currentdate");
    assert_eq!(tests[18], "virustest");

    let actions = sieve_actions();
    assert_eq!(actions.len(), 13);
    assert_eq!(actions[0], "discard");
    assert_eq!(actions[12], "expire");

    let tags = sieve_tags();
    assert_eq!(tags.len(), 24);
    assert_eq!(tags[0], ":is");
    assert_eq!(tags[23], ":param");

    let extensions = sieve_extensions();
    assert_eq!(extensions.len(), 25);
    assert_eq!(extensions[0], ("body", "Message body testing (RFC 5173)"));
    assert_eq!(extensions[24], ("virustest", "Virus testing interface (RFC 5235)"));
}

#[test]
fn no_name_stands_twice_in_a_table() {
    let mut tests = sieve_tests();
    tests.sort();
    tests.dedup();
    assert_eq!(tests.len(), 19);
    let mut actions = sieve_actions();
    actions.sort();
    actions.dedup();
    assert_eq!(actions.len(), 13);
    let mut tags = sieve_tags();
    tags.sort();
    tags.dedup();
    assert_eq!(tags.len(), 24);
    let mut names: Vec<&str> = sieve_extensions().iter().map(|entry| entry.0).collect();
    names.sort();
    names.dedup();
    assert_eq!(names.len(), 25);
}
