//! The vocabulary of the Sieve language: the tests, actions, tagged
//! arguments and extensions that the analysis knows.
//!
//! Each table is a fixed list. The spec function gives its content; the
//! executable function returns the same names in the same order.

use vstd::prelude::*;

verus! {

/// The views of a list of names.
pub open spec fn name_views(names: Seq<&'static str>) -> Seq<Seq<char>> {
    names.map_values(|s: &'static str| s@)
}

/// The test commands, base language first.
pub open spec fn test_names() -> Seq<Seq<char>> {
    seq![
        "address"@,
        "allof"@,
        "anyof"@,
        "envelope"@,
        "exists"@,
        "false"@,
        "header"@,
        "not"@,
        "size"@,
        "true"@,
        "body"@,
        "currentdate"@,
        "date"@,
        "environment"@,
        "mailbox"@,
        "mailboxexists"@,
        "regex"@,
        "spamtest"@,
        "virustest"@,
    ]
}

/// The action commands, base language first.
pub open spec fn action_names() -> Seq<Seq<char>> {
    seq![
        "discard"@,
        "fileinto"@,
        "keep"@,
        "redirect"@,
        "reject"@,
        "stop"@,
        "addflag"@,
        "removeflag"@,
        "setflag"@,
        "vacation"@,
        "notify"@,
        "denotify"@,
        "expire"@,
    ]
}

/// The tagged arguments.
pub open spec fn tag_names() -> Seq<Seq<char>> {
    seq![
        ":is"@,
        ":contains"@,
        ":matches"@,
        ":regex"@,
        ":count"@,
        ":value"@,
        ":comparator"@,
        ":localpart"@,
        ":domain"@,
        ":all"@,
        ":over"@,
        ":under"@,
        ":copy"@,
        ":create"@,
        ":zone"@,
        ":originalzone"@,
        ":flags"@,
        ":importance"@,
        ":mime"@,
        ":anychild"@,
        ":type"@,
        ":subtype"@,
        ":contenttype"@,
        ":param"@,
    ]
}

/// The extensions that a `require` statement can name, by name.
pub open spec fn extension_names() -> Seq<Seq<char>> {
    seq![
        "body"@,
        "copy"@,
        "date"@,
        "editheader"@,
        "encoded-character"@,
        "envelope"@,
        "environment"@,
        "ereject"@,
        "fileinto"@,
        "foreverypart"@,
        "imap4flags"@,
        "include"@,
        "index"@,
        "mailbox"@,
        "mboxmetadata"@,
        "mime"@,
        "regex"@,
        "reject"@,
        "relational"@,
        "servermetadata"@,
        "spamtest"@,
        "subaddress"@,
        "vacation"@,
        "variables"@,
        "virustest"@,
    ]
}

/// What each extension adds, in the order of `extension_names`.
pub open spec fn extension_descriptions() -> Seq<Seq<char>> {
    seq![
        "Message body testing (RFC 5173)"@,
        "Copy messages instead of moving (RFC 3894)"@,
        "Date/time operations (RFC 5260)"@,
        "Modify message headers (RFC 5293)"@,
        "Encoded character support (RFC 5228)"@,
        "SMTP envelope testing (RFC 5228)"@,
        "Access to server environment (RFC 5183)"@,
        "Enhanced reject with reason (RFC 5429)"@,
        "File messages into folders (RFC 5228)"@,
        "Iterate over MIME parts (RFC 5703)"@,
        "IMAP flag manipulation (RFC 5232)"@,
        "Include other scripts (RFC 6609)"@,
        "Positional testing of headers (RFC 5260)"@,
        "Mailbox metadata access (RFC 5490)"@,
        "Mailbox metadata operations (RFC 5490)"@,
        "MIME structure operations (RFC 5703)"@,
        "Regular expression support (draft)"@,
        "Reject messages with errors (RFC 5228)"@,
        "Numeric comparisons (RFC 5231)"@,
        "Server metadata access (RFC 5490)"@,
        "Spam testing interface (RFC 5235)"@,
        "Sub-addressing support (RFC 5233)"@,
        "Auto-reply functionality (RFC 5230)"@,
        "Variable support (RFC 5229)"@,
        "Virus testing interface (RFC 5235)"@,
    ]
}

/// The test that belongs to the extended dialect only.
pub open spec fn extended_test() -> Seq<char> {
    "currentdate"@
}

/// The action that belongs to the extended dialect only.
pub open spec fn extended_action() -> Seq<char> {
    "expire"@
}

/// The keywords of the extended dialect, in the order in which a line is
/// searched for them.
pub open spec fn extended_keywords() -> Seq<Seq<char>> {
    seq![extended_action(), extended_test()]
}

/// The test commands.
pub fn sieve_tests() -> (names: Vec<&'static str>)
    ensures
        name_views(names@) == test_names(),
{
    let names = vec![
        "address",
        "allof",
        "anyof",
        "envelope",
        "exists",
        "false",
        "header",
        "not",
        "size",
        "true",
        "body",
        "currentdate",
        "date",
        "environment",
        "mailbox",
        "mailboxexists",
        "regex",
        "spamtest",
        "virustest",
    ];
    assert(name_views(names@) =~= test_names());
    names
}

/// The action commands.
pub fn sieve_actions() -> (names: Vec<&'static str>)
    ensures
        name_views(names@) == action_names(),
{
    let names = vec![
        "discard",
        "fileinto",
        "keep",
        "redirect",
        "reject",
        "stop",
        "addflag",
        "removeflag",
        "setflag",
        "vacation",
        "notify",
        "denotify",
        "expire",
    ];
    assert(name_views(names@) =~= action_names());
    names
}

/// The tagged arguments.
pub fn sieve_tags() -> (names: Vec<&'static str>)
    ensures
        name_views(names@) == tag_names(),
{
    let names = vec![
        ":is",
        ":contains",
        ":matches",
        ":regex",
        ":count",
        ":value",
        ":comparator",
        ":localpart",
        ":domain",
        ":all",
        ":over",
        ":under",
        ":copy",
        ":create",
        ":zone",
        ":originalzone",
        ":flags",
        ":importance",
        ":mime",
        ":anychild",
        ":type",
        ":subtype",
        ":contenttype",
        ":param",
    ];
    assert(name_views(names@) =~= tag_names());
    names
}

/// The extensions: each name with its description.
pub fn sieve_extensions() -> (table: Vec<(&'static str, &'static str)>)
    ensures
        table@.len() == extension_names().len(),
        forall|i: int|
            0 <= i < table@.len() ==> (#[trigger] table@[i]).0@ == extension_names()[i]
                && table@[i].1@ == extension_descriptions()[i],
{
    vec![
        ("body", "Message body testing (RFC 5173)"),
        ("copy", "Copy messages instead of moving (RFC 3894)"),
        ("date", "Date/time operations (RFC 5260)"),
        ("editheader", "Modify message headers (RFC 5293)"),
        ("encoded-character", "Encoded character support (RFC 5228)"),
        ("envelope", "SMTP envelope testing (RFC 5228)"),
        ("environment", "Access to server environment (RFC 5183)"),
        ("ereject", "Enhanced reject with reason (RFC 5429)"),
        ("fileinto", "File messages into folders (RFC 5228)"),
        ("foreverypart", "Iterate over MIME parts (RFC 5703)"),
        ("imap4flags", "IMAP flag manipulation (RFC 5232)"),
        ("include", "Include other scripts (RFC 6609)"),
        ("index", "Positional testing of headers (RFC 5260)"),
        ("mailbox", "Mailbox metadata access (RFC 5490)"),
        ("mboxmetadata", "Mailbox metadata operations (RFC 5490)"),
        ("mime", "MIME structure operations (RFC 5703)"),
        ("regex", "Regular expression support (draft)"),
        ("reject", "Reject messages with errors (RFC 5228)"),
        ("relational", "Numeric comparisons (RFC 5231)"),
        ("servermetadata", "Server metadata access (RFC 5490)"),
        ("spamtest", "Spam testing interface (RFC 5235)"),
        ("subaddress", "Sub-addressing support (RFC 5233)"),
        ("vacation", "Auto-reply functionality (RFC 5230)"),
        ("variables", "Variable support (RFC 5229)"),
        ("virustest", "Virus testing interface (RFC 5235)"),
    ]
}

} // verus!
