//! The `require` statement: which extensions a line declares.
//!
//! The statement is recognised by a regular expression. Which part of a
//! line the expression matches is the business of the `regex` crate; what
//! is made of the matched parts is stated and proved here.

use crate::text::{pieces, split, strip_char, stripped, to_chars, to_string, trim, trimmed};
use vstd::prelude::*;

verus! {

/// What `regex` finds when it searches `haystack` for `pattern`: the text
/// of each capture group of the leftmost match, group 0 being the whole
/// match, and `None` for a group that took no part in it. `None` where the
/// pattern matches nowhere, or is no valid pattern.
pub uninterp spec fn regex_captures(pattern: Seq<char>, haystack: Seq<char>) -> Option<
    Seq<Option<Seq<char>>>,
>;

/// The views of the capture groups of a match.
pub open spec fn group_views(groups: Seq<Option<String>>) -> Seq<Option<Seq<char>>> {
    groups.map_values(
        |group: Option<String>|
            match group {
                Some(text) => Some(text@),
                None => None,
            },
    )
}

/// The view of the result of a search.
pub open spec fn captures_view(found: Option<Vec<Option<String>>>) -> Option<
    Seq<Option<Seq<char>>>,
> {
    match found {
        Some(groups) => Some(group_views(groups@)),
        None => None,
    }
}

/// `regex::Regex::new` on `pattern`, then `Regex::captures` on `haystack`,
/// with each group of the match copied out as a string. The contract names
/// the result and claims nothing else of it.
#[verifier::external_body]
fn captures(pattern: &str, haystack: &str) -> (found: Option<Vec<Option<String>>>)
    ensures
        captures_view(found) == regex_captures(pattern@, haystack@),
{
    match regex::Regex::new(pattern) {
        Ok(expression) => expression.captures(haystack).map(
            |found| found.iter().map(|group| group.map(|m| m.as_str().to_string())).collect(),
        ),
        Err(_) => None,
    }
}

/// The form of a `require` statement: the keyword, white space, and then
/// either a bracketed list (group 1) or one quoted name (group 2).
pub open spec fn require_pattern() -> Seq<char> {
    "require\\s+(?:\\[([^\\]]+)\\]|\"([^\"]+)\")"@
}

/// The views of a list of names.
pub open spec fn string_views(names: Seq<String>) -> Seq<Seq<char>> {
    names.map_values(|name: String| name@)
}

/// The view of a list of names that may be absent.
pub open spec fn names_view(names: Option<Vec<String>>) -> Option<Seq<Seq<char>>> {
    match names {
        Some(list) => Some(string_views(list@)),
        None => None,
    }
}

/// A name as it stands in a list: without the white space around it, and
/// then without the quotes around it.
pub open spec fn listed_name(piece: Seq<char>) -> Seq<char> {
    strip_char(trim(piece), '"')
}

/// The names in the text between the brackets of a list: one for each
/// piece between commas.
pub open spec fn listed_names(list: Seq<char>) -> Seq<Seq<char>> {
    pieces(list, ',').map_values(|piece: Seq<char>| listed_name(piece))
}

/// The names that a match of the `require` pattern declares: those of the
/// list where the list took part in the match, else the single name where
/// that took part, else none.
pub open spec fn names_from_captures(found: Option<Seq<Option<Seq<char>>>>) -> Option<
    Seq<Seq<char>>,
> {
    match found {
        None => None,
        Some(groups) => {
            if groups.len() > 1 && groups[1] is Some {
                Some(listed_names(groups[1]->0))
            } else if groups.len() > 2 && groups[2] is Some {
                Some(seq![groups[2]->0])
            } else {
                None
            }
        },
    }
}

/// The names that a line declares, where it holds a `require` statement.
pub open spec fn required_names(line: Seq<char>) -> Option<Seq<Seq<char>>> {
    names_from_captures(regex_captures(require_pattern(), line))
}

/// The names in the text between the brackets of a list.
pub fn names_in_list(list: &str) -> (names: Vec<String>)
    ensures
        string_views(names@) == listed_names(list@),
{
    let chars = to_chars(list);
    let parts = split(chars.as_slice(), ',');
    let mut names: Vec<String> = Vec::new();
    let mut i: usize = 0;
    while i < parts.len()
        invariant
            i <= parts.len(),
            chars@ == list@,
            parts@.len() == pieces(chars@, ',').len(),
            forall|j: int| 0 <= j < parts@.len() ==> (#[trigger] parts@[j])@ == pieces(chars@, ',')[j],
            names@.len() == i,
            forall|j: int| 0 <= j < i ==> (#[trigger] names@[j])@ == listed_name(pieces(list@, ',')[j]),
        decreases parts.len() - i,
    {
        let name = to_string(stripped(trimmed(parts[i].as_slice()), '"'));
        names.push(name);
        i += 1;
    }
    assert(string_views(names@) =~= listed_names(list@));
    names
}

/// The names that a match of the `require` pattern declares.
pub fn extensions_from_captures(found: &Option<Vec<Option<String>>>) -> (names: Option<Vec<String>>)
    ensures
        names_view(names) == names_from_captures(captures_view(*found)),
{
    match found {
        None => None,
        Some(groups) => {
            let ghost views = group_views(groups@);
            if groups.len() > 1 {
                assert(views[1] == group_views(groups@)[1]);
                if let Some(list) = &groups[1] {
                    return Some(names_in_list(list.as_str()));
                }
            }
            if groups.len() > 2 {
                assert(views[2] == group_views(groups@)[2]);
                if let Some(single) = &groups[2] {
                    let names = vec![single.clone()];
                    assert(string_views(names@) =~= seq![single@]);
                    return Some(names);
                }
            }
            None
        },
    }
}

/// The names that a line declares: `Some` where the line holds a `require`
/// statement of either form, with the names in the order in which they
/// stand.
pub fn parse_require_statement(line: &str) -> (names: Option<Vec<String>>)
    ensures
        names_view(names) == required_names(line@),
{
    let found = captures("require\\s+(?:\\[([^\\]]+)\\]|\"([^\"]+)\")", line);
    extensions_from_captures(&found)
}

} // verus!
