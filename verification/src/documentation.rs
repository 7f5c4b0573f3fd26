//! What the editor is told about a keyword: its documentation, and the
//! list of completions.

use crate::datastructures::SieveLanguageServer;
use crate::diagnostic::Position;
use crate::sieve::{
    action_names, extended_action, extended_test, extension_descriptions, extension_names,
    name_views, sieve_actions, sieve_extensions, sieve_tags, sieve_tests, tag_names, test_names,
};
use crate::text::{same_text, to_chars};
use vstd::prelude::*;

verus! {

// ---------------------------------------------------------------------------
// Documentation, stated
// ---------------------------------------------------------------------------

/// What a test does.
pub open spec fn test_documentation(test: Seq<char>) -> Seq<char> {
    if test == "address"@ {
        "Tests email addresses in headers like From, To, Cc, Bcc"@
    } else if test == "allof"@ {
        "Logical AND operator - all contained tests must be true"@
    } else if test == "anyof"@ {
        "Logical OR operator - any contained test can be true"@
    } else if test == "envelope"@ {
        "Tests SMTP envelope information (MAIL FROM, RCPT TO)"@
    } else if test == "exists"@ {
        "Tests whether specified header fields exist in the message"@
    } else if test == "header"@ {
        "Tests the contents of specified header fields"@
    } else if test == "size"@ {
        "Tests the size of the message in bytes"@
    } else if test == "body"@ {
        "Tests the body content of the message (requires 'body' extension)"@
    } else if test == "currentdate"@ {
        "Tests the current date/time on the server (Proton extension)"@
    } else if test == "regex"@ {
        "Provides regular expression matching (requires 'regex' extension)"@
    } else {
        "Sieve test command: "@ + test
    }
}

/// What an action does.
pub open spec fn action_documentation(action: Seq<char>) -> Seq<char> {
    if action == "fileinto"@ {
        "Files the message into the specified mailbox/folder"@
    } else if action == "redirect"@ {
        "Redirects the message to the specified email address"@
    } else if action == "reject"@ {
        "Rejects the message with an error sent back to sender"@
    } else if action == "discard"@ {
        "Silently discards the message (no error sent)"@
    } else if action == "keep"@ {
        "Keeps the message in the default location (usually INBOX)"@
    } else if action == "stop"@ {
        "Stops processing the current script"@
    } else if action == "vacation"@ {
        "Sends an auto-reply message (requires 'vacation' extension)"@
    } else if action == "expire"@ {
        "Sets message expiration time (Proton extension)"@
    } else {
        "Sieve action command: "@ + action
    }
}

/// What a tagged argument means.
pub open spec fn tag_documentation(tag: Seq<char>) -> Seq<char> {
    if tag == ":is"@ {
        "Exact string match (case-insensitive by default)"@
    } else if tag == ":contains"@ {
        "Substring match - tests if the string contains the specified text"@
    } else if tag == ":matches"@ {
        "Wildcard pattern match using * and ? characters"@
    } else if tag == ":regex"@ {
        "Regular expression match (requires 'regex' extension)"@
    } else if tag == ":over"@ {
        "Size comparison - tests if size is greater than specified value"@
    } else if tag == ":under"@ {
        "Size comparison - tests if size is less than specified value"@
    } else if tag == ":copy"@ {
        "Copy the message instead of moving it (preserves original)"@
    } else if tag == ":zone"@ {
        "Specifies timezone for date operations"@
    } else {
        "Sieve tag parameter: "@ + tag
    }
}

/// What there is to say about a word: the documentation of the test, the
/// action or the tag of that name, or the description of the extension of
/// that name, whichever is found first in this order.
pub open spec fn word_documentation(word: Seq<char>) -> Option<Seq<char>> {
    if test_names().contains(word) {
        Some(test_documentation(word))
    } else if action_names().contains(word) {
        Some(action_documentation(word))
    } else if tag_names().contains(word) {
        Some(tag_documentation(word))
    } else {
        match extension_names().index_of_first(word) {
            Some(i) => Some(extension_descriptions()[i]),
            None => None,
        }
    }
}

// ---------------------------------------------------------------------------
// Completions, stated
// ---------------------------------------------------------------------------

/// What kind of thing a completion stands for.
#[derive(Clone, Copy, Debug, PartialEq, Eq, Structural)]
pub enum CompletionItemKind {
    Function,
    Method,
    Property,
    Module,
}

/// One entry of the list that the editor offers.
#[derive(Clone, Debug, PartialEq, Eq)]
pub struct CompletionItem {
    /// What the list shows.
    pub label: String,
    pub kind: CompletionItemKind,
    /// One line about the entry.
    pub detail: String,
    pub documentation: String,
    /// What is written into the text.
    pub insert_text: String,
}

/// A `CompletionItem` as a mathematical value.
pub struct CompletionItemView {
    pub label: Seq<char>,
    pub kind: CompletionItemKind,
    pub detail: Seq<char>,
    pub documentation: Seq<char>,
    pub insert_text: Seq<char>,
}

impl View for CompletionItem {
    type V = CompletionItemView;

    open spec fn view(&self) -> CompletionItemView {
        CompletionItemView {
            label: self.label@,
            kind: self.kind,
            detail: self.detail@,
            documentation: self.documentation@,
            insert_text: self.insert_text@,
        }
    }
}

/// The views of a list of completions, in order.
pub open spec fn completion_views(list: Seq<CompletionItem>) -> Seq<CompletionItemView> {
    list.map_values(|item: CompletionItem| item@)
}

/// The completion for a test.
pub open spec fn test_completion(name: Seq<char>) -> CompletionItemView {
    CompletionItemView {
        label: name,
        kind: CompletionItemKind::Function,
        detail: "Sieve test: "@ + name,
        documentation: test_documentation(name),
        insert_text: name,
    }
}

/// The completion for an action. It brings the semicolon along.
pub open spec fn action_completion(name: Seq<char>) -> CompletionItemView {
    CompletionItemView {
        label: name,
        kind: CompletionItemKind::Method,
        detail: "Sieve action: "@ + name,
        documentation: action_documentation(name),
        insert_text: name + ";"@,
    }
}

/// The completion for a tagged argument.
pub open spec fn tag_completion(name: Seq<char>) -> CompletionItemView {
    CompletionItemView {
        label: name,
        kind: CompletionItemKind::Property,
        detail: "Sieve tag: "@ + name,
        documentation: tag_documentation(name),
        insert_text: name,
    }
}

/// The completion for an extension, as it is named in a `require`
/// statement: in quotes.
pub open spec fn extension_completion(name: Seq<char>, description: Seq<char>) -> CompletionItemView {
    CompletionItemView {
        label: "\""@ + name + "\""@,
        kind: CompletionItemKind::Module,
        detail: "Sieve extension: "@ + name,
        documentation: description,
        insert_text: "\""@ + name + "\""@,
    }
}

/// The completions for the first `n` tests. Where the extended dialect is
/// off, its test is left out.
pub open spec fn test_completions(extended: bool, n: int) -> Seq<CompletionItemView>
    decreases n,
{
    if n <= 0 {
        Seq::empty()
    } else if !extended && test_names()[n - 1] == extended_test() {
        test_completions(extended, n - 1)
    } else {
        test_completions(extended, n - 1).push(test_completion(test_names()[n - 1]))
    }
}

/// The completions for the first `n` actions. Where the extended dialect
/// is off, its action is left out.
pub open spec fn action_completions(extended: bool, n: int) -> Seq<CompletionItemView>
    decreases n,
{
    if n <= 0 {
        Seq::empty()
    } else if !extended && action_names()[n - 1] == extended_action() {
        action_completions(extended, n - 1)
    } else {
        action_completions(extended, n - 1).push(action_completion(action_names()[n - 1]))
    }
}

/// The completions for the first `n` tagged arguments.
pub open spec fn tag_completions(n: int) -> Seq<CompletionItemView>
    decreases n,
{
    if n <= 0 {
        Seq::empty()
    } else {
        tag_completions(n - 1).push(tag_completion(tag_names()[n - 1]))
    }
}

/// The completions for the first `n` extensions.
pub open spec fn extension_completions(n: int) -> Seq<CompletionItemView>
    decreases n,
{
    if n <= 0 {
        Seq::empty()
    } else {
        extension_completions(n - 1).push(
            extension_completion(extension_names()[n - 1], extension_descriptions()[n - 1]),
        )
    }
}

/// The list of completions: the tests, the actions, the tagged arguments
/// and the extensions, each group in the order of its table.
pub open spec fn completions(extended: bool) -> Seq<CompletionItemView> {
    test_completions(extended, test_names().len() as int) + action_completions(
        extended,
        action_names().len() as int,
    ) + tag_completions(tag_names().len() as int) + extension_completions(
        extension_names().len() as int,
    )
}

// ---------------------------------------------------------------------------
// Documentation and completions, computed
// ---------------------------------------------------------------------------

/// Whether `name` is the word `word`.
fn is_word(name: &[char], word: &str) -> (r: bool)
    ensures
        r == (name@ == word@),
{
    same_text(name, to_chars(word).as_slice())
}

/// The text `head`, `middle`, `tail` as one string.
fn joined(head: &str, middle: &str, tail: &str) -> (s: String)
    ensures
        s@ == head@ + middle@ + tail@,
{
    let mut s = head.to_owned();
    s.append(middle);
    s.append(tail);
    s
}

/// The index of the first of `names` that is `word`.
fn position_of(names: &Vec<&'static str>, word: &[char]) -> (r: Option<usize>)
    ensures
        match r {
            Some(i) => name_views(names@).index_of_first(word@) == Some(i as int) && i
                < names@.len(),
            None => name_views(names@).index_of_first(word@) is None,
        },
{
    let ghost views = name_views(names@);
    proof {
        views.index_of_first_ensures(word@);
    }
    let mut i: usize = 0;
    while i < names.len()
        invariant
            i <= names.len(),
            views == name_views(names@),
            forall|j: int| 0 <= j < i ==> views[j] != word@,
        decreases names.len() - i,
    {
        assert(views[i as int] == names@[i as int]@);
        if is_word(word, names[i]) {
            proof {
                views.index_of_first_ensures(word@);
                assert(views.contains(word@));
                let first = views.index_of_first(word@).unwrap();
                assert(first == i) by {
                    if first < i {
                        assert(views[first] != word@);
                    }
                }
            }
            return Some(i);
        }
        i += 1;
    }
    proof {
        views.index_of_first_ensures(word@);
        assert(!views.contains(word@));
    }
    None
}

/// Whether one of `names` is `word`.
fn lists(names: &Vec<&'static str>, word: &[char]) -> (r: bool)
    ensures
        r == name_views(names@).contains(word@),
{
    proof {
        name_views(names@).index_of_first_ensures(word@);
    }
    position_of(names, word).is_some()
}

impl SieveLanguageServer {
    /// What a test does. A name that is no known test gets a sentence that
    /// says no more than the name.
    pub fn get_test_documentation(&self, test: &str) -> (text: String)
        ensures
            text@ == test_documentation(test@),
    {
        let name = to_chars(test);
        let name = name.as_slice();
        if is_word(name, "address") {
            "Tests email addresses in headers like From, To, Cc, Bcc".to_owned()
        } else if is_word(name, "allof") {
            "Logical AND operator - all contained tests must be true".to_owned()
        } else if is_word(name, "anyof") {
            "Logical OR operator - any contained test can be true".to_owned()
        } else if is_word(name, "envelope") {
            "Tests SMTP envelope information (MAIL FROM, RCPT TO)".to_owned()
        } else if is_word(name, "exists") {
            "Tests whether specified header fields exist in the message".to_owned()
        } else if is_word(name, "header") {
            "Tests the contents of specified header fields".to_owned()
        } else if is_word(name, "size") {
            "Tests the size of the message in bytes".to_owned()
        } else if is_word(name, "body") {
            "Tests the body content of the message (requires 'body' extension)".to_owned()
        } else if is_word(name, "currentdate") {
            "Tests the current date/time on the server (Proton extension)".to_owned()
        } else if is_word(name, "regex") {
            "Provides regular expression matching (requires 'regex' extension)".to_owned()
        } else {
            let text = joined("Sieve test command: ", test, "");
            assert(text@ =~= "Sieve test command: "@ + test@) by {
                reveal_strlit("");
            }
            text
        }
    }

    /// What an action does. A name that is no known action gets a sentence
    /// that says no more than the name.
    pub fn get_action_documentation(&self, action: &str) -> (text: String)
        ensures
            text@ == action_documentation(action@),
    {
        let name = to_chars(action);
        let name = name.as_slice();
        if is_word(name, "fileinto") {
            "Files the message into the specified mailbox/folder".to_owned()
        } else if is_word(name, "redirect") {
            "Redirects the message to the specified email address".to_owned()
        } else if is_word(name, "reject") {
            "Rejects the message with an error sent back to sender".to_owned()
        } else if is_word(name, "discard") {
            "Silently discards the message (no error sent)".to_owned()
        } else if is_word(name, "keep") {
            "Keeps the message in the default location (usually INBOX)".to_owned()
        } else if is_word(name, "stop") {
            "Stops processing the current script".to_owned()
        } else if is_word(name, "vacation") {
            "Sends an auto-reply message (requires 'vacation' extension)".to_owned()
        } else if is_word(name, "expire") {
            "Sets message expiration time (Proton extension)".to_owned()
        } else {
            let text = joined("Sieve action command: ", action, "");
            assert(text@ =~= "Sieve action command: "@ + action@) by {
                reveal_strlit("");
            }
            text
        }
    }

    /// What a tagged argument means. A name that is no known tag gets a
    /// sentence that says no more than the name.
    pub fn get_tag_documentation(&self, tag: &str) -> (text: String)
        ensures
            text@ == tag_documentation(tag@),
    {
        let name = to_chars(tag);
        let name = name.as_slice();
        if is_word(name, ":is") {
            "Exact string match (case-insensitive by default)".to_owned()
        } else if is_word(name, ":contains") {
            "Substring match - tests if the string contains the specified text".to_owned()
        } else if is_word(name, ":matches") {
            "Wildcard pattern match using * and ? characters".to_owned()
        } else if is_word(name, ":regex") {
            "Regular expression match (requires 'regex' extension)".to_owned()
        } else if is_word(name, ":over") {
            "Size comparison - tests if size is greater than specified value".to_owned()
        } else if is_word(name, ":under") {
            "Size comparison - tests if size is less than specified value".to_owned()
        } else if is_word(name, ":copy") {
            "Copy the message instead of moving it (preserves original)".to_owned()
        } else if is_word(name, ":zone") {
            "Specifies timezone for date operations".to_owned()
        } else {
            let text = joined("Sieve tag parameter: ", tag, "");
            assert(text@ =~= "Sieve tag parameter: "@ + tag@) by {
                reveal_strlit("");
            }
            text
        }
    }

    /// What there is to say about a word, if it is a known one.
    #[verifier::loop_isolation(false)]
    pub fn get_word_documentation(&self, word: &str) -> (text: Option<String>)
        ensures
            match text {
                Some(text) => word_documentation(word@) == Some(text@),
                None => word_documentation(word@) is None,
            },
    {
        let name = to_chars(word);
        let name = name.as_slice();
        if lists(&sieve_tests(), name) {
            Some(self.get_test_documentation(word))
        } else if lists(&sieve_actions(), name) {
            Some(self.get_action_documentation(word))
        } else if lists(&sieve_tags(), name) {
            Some(self.get_tag_documentation(word))
        } else {
            let extensions = sieve_extensions();
            let ghost names = extension_names();
            let mut i: usize = 0;
            while i < extensions.len()
                invariant
                    i <= extensions.len(),
                    names == extension_names(),
                    name@ == word@,
                    extensions@.len() == names.len(),
                    forall|j: int|
                        0 <= j < extensions@.len() ==> (#[trigger] extensions@[j]).0@ == names[j]
                            && extensions@[j].1@ == extension_descriptions()[j],
                    forall|j: int| 0 <= j < i ==> names[j] != word@,
                decreases extensions.len() - i,
            {
                if is_word(name, extensions[i].0) {
                    proof {
                        names.index_of_first_ensures(word@);
                        assert(names[i as int] == word@);
                        assert(names.contains(word@));
                        let first = names.index_of_first(word@).unwrap();
                        assert(first == i) by {
                            if first < i {
                                assert(names[first] != word@);
                            }
                        }
                    }
                    return Some(extensions[i].1.to_owned());
                }
                i += 1;
            }
            proof {
                names.index_of_first_ensures(word@);
                assert(!names.contains(word@));
            }
            None
        }
    }

    /// The completions that the editor offers. They are the same at every
    /// place of every document; only the settings bear on them.
    pub fn get_completions(&self, _uri: &str, _position: Position) -> (items: Vec<CompletionItem>)
        ensures
            completion_views(items@) == completions(self@.settings.proton_extensions),
    {
        let extended = self.settings.proton_extensions;
        let mut items: Vec<CompletionItem> = Vec::new();
        assert(completion_views(items@) =~= test_completions(extended, 0));

        let tests = sieve_tests();
        let mut i: usize = 0;
        while i < tests.len()
            invariant
                i <= tests.len(),
                name_views(tests@) == test_names(),
                completion_views(items@) == test_completions(extended, i as int),
            decreases tests.len() - i,
        {
            let test = tests[i];
            assert(test_names()[i as int] == test@);
            if extended || !is_word(to_chars(test).as_slice(), "currentdate") {
                let item = CompletionItem {
                    label: test.to_owned(),
                    kind: CompletionItemKind::Function,
                    detail: joined("Sieve test: ", test, ""),
                    documentation: self.get_test_documentation(test),
                    insert_text: test.to_owned(),
                };
                proof {
                    reveal_strlit("");
                    assert(item.detail@ =~= "Sieve test: "@ + test@);
                    assert(item@ == test_completion(test@));
                }
                let ghost before = items@;
                items.push(item);
                assert(completion_views(items@) =~= completion_views(before).push(item@));
            }
            i += 1;
        }
        let ghost after_tests = completion_views(items@);
        assert(after_tests + action_completions(extended, 0) == after_tests);

        let actions = sieve_actions();
        let mut i: usize = 0;
        while i < actions.len()
            invariant
                i <= actions.len(),
                name_views(actions@) == action_names(),
                completion_views(items@) == after_tests + action_completions(extended, i as int),
            decreases actions.len() - i,
        {
            let action = actions[i];
            assert(action_names()[i as int] == action@);
            if extended || !is_word(to_chars(action).as_slice(), "expire") {
                let item = CompletionItem {
                    label: action.to_owned(),
                    kind: CompletionItemKind::Method,
                    detail: joined("Sieve action: ", action, ""),
                    documentation: self.get_action_documentation(action),
                    insert_text: joined("", action, ";"),
                };
                proof {
                    reveal_strlit("");
                    assert(item.detail@ =~= "Sieve action: "@ + action@);
                    assert(item.insert_text@ =~= action@ + ";"@);
                    assert(item@ == action_completion(action@));
                }
                let ghost before = items@;
                items.push(item);
                proof {
                    assert(completion_views(items@) =~= completion_views(before).push(item@));
                    let found = action_completions(extended, i as int);
                    assert((after_tests + found).push(item@) == after_tests + found.push(item@));
                }
            }
            i += 1;
        }
        let ghost after_actions = completion_views(items@);
        assert(after_actions + tag_completions(0) == after_actions);

        let tags = sieve_tags();
        let mut i: usize = 0;
        while i < tags.len()
            invariant
                i <= tags.len(),
                name_views(tags@) == tag_names(),
                completion_views(items@) == after_actions + tag_completions(i as int),
            decreases tags.len() - i,
        {
            let tag = tags[i];
            assert(tag_names()[i as int] == tag@);
            let item = CompletionItem {
                label: tag.to_owned(),
                kind: CompletionItemKind::Property,
                detail: joined("Sieve tag: ", tag, ""),
                documentation: self.get_tag_documentation(tag),
                insert_text: tag.to_owned(),
            };
            proof {
                reveal_strlit("");
                assert(item.detail@ =~= "Sieve tag: "@ + tag@);
                assert(item@ == tag_completion(tag@));
            }
            let ghost before = items@;
            items.push(item);
            proof {
                assert(completion_views(items@) =~= completion_views(before).push(item@));
                let found = tag_completions(i as int);
                assert((after_actions + found).push(item@) == after_actions + found.push(item@));
            }
            i += 1;
        }
        let ghost after_tags = completion_views(items@);
        assert(after_tags + extension_completions(0) == after_tags);

        let extensions = sieve_extensions();
        let mut i: usize = 0;
        while i < extensions.len()
            invariant
                i <= extensions.len(),
                extensions@.len() == extension_names().len(),
                forall|j: int|
                    0 <= j < extensions@.len() ==> (#[trigger] extensions@[j]).0@
                        == extension_names()[j] && extensions@[j].1@ == extension_descriptions()[j],
                completion_views(items@) == after_tags + extension_completions(i as int),
            decreases extensions.len() - i,
        {
            let name = extensions[i].0;
            let description = extensions[i].1;
            let item = CompletionItem {
                label: joined("\"", name, "\""),
                kind: CompletionItemKind::Module,
                detail: joined("Sieve extension: ", name, ""),
                documentation: description.to_owned(),
                insert_text: joined("\"", name, "\""),
            };
            proof {
                reveal_strlit("");
                assert(item.detail@ =~= "Sieve extension: "@ + name@);
                assert(item@ == extension_completion(name@, description@));
            }
            let ghost before = items@;
            items.push(item);
            proof {
                assert(completion_views(items@) =~= completion_views(before).push(item@));
                let found = extension_completions(i as int);
                assert((after_tags + found).push(item@) == after_tags + found.push(item@));
            }
            i += 1;
        }
        items
    }
}

} // verus!
