//! The word under the cursor.
//!
//! Which characters are letters and digits is the business of the standard
//! library. Where the word around a position begins and ends, given which
//! characters words are made of, is stated and proved here.

use crate::datastructures::SieveLanguageServer;
use crate::text::{to_chars, to_string};
use vstd::prelude::*;
use vstd::slice::slice_subrange;

verus! {

/// Whether `c` is a letter or a digit, as `char::is_alphanumeric` has it.
pub uninterp spec fn is_alphanumeric(c: char) -> bool;

/// `char::is_alphanumeric`: whether `c` is a letter or a digit of some
/// script. The contract names the result and claims nothing else of it.
#[verifier::external_body]
fn char_is_alphanumeric(c: char) -> (r: bool)
    ensures
        r == is_alphanumeric(c),
{
    c.is_alphanumeric()
}

/// The characters that words are made of: letters, digits, the underscore,
/// and the colon that begins a tagged argument.
pub open spec fn is_word_char(c: char) -> bool {
    is_alphanumeric(c) || c == '_' || c == ':'
}

/// For each character of a line, whether words are made of it.
pub open spec fn word_marks(line: Seq<char>) -> Seq<bool> {
    line.map_values(|c: char| is_word_char(c))
}

/// Where the run of marked places that ends before index `i` begins.
pub open spec fn run_start(marks: Seq<bool>, i: int) -> int
    decreases i,
{
    if 0 < i <= marks.len() && marks[i - 1] {
        run_start(marks, i - 1)
    } else {
        i
    }
}

/// Where the run of marked places that begins at index `i` ends.
pub open spec fn run_end(marks: Seq<bool>, i: int) -> int
    decreases marks.len() - i,
{
    if 0 <= i < marks.len() && marks[i] {
        run_end(marks, i + 1)
    } else {
        i
    }
}

/// The longest run of marked places that the position `at` touches, as
/// its start and its end. `None` where the position lies beyond the marks
/// or touches no marked place on either side.
pub open spec fn run_at(marks: Seq<bool>, at: int) -> Option<(int, int)> {
    if at < 0 || at > marks.len() {
        None
    } else if run_start(marks, at) < run_end(marks, at) {
        Some((run_start(marks, at), run_end(marks, at)))
    } else {
        None
    }
}

/// The word that the position `character` touches: the longest run of word
/// characters around it. `None` where the position lies beyond the line or
/// touches no word character on either side.
pub open spec fn word_at(line: Seq<char>, character: int) -> Option<Seq<char>> {
    match run_at(word_marks(line), character) {
        Some((start, end)) => Some(line.subrange(start, end)),
        None => None,
    }
}

/// The longest run of marked places that a position touches.
pub fn run_around(marks: &[bool], at: usize) -> (run: Option<(usize, usize)>)
    ensures
        match run {
            Some((start, end)) => run_at(marks@, at as int) == Some((start as int, end as int))
                && start <= at <= end <= marks@.len() && start < end,
            None => run_at(marks@, at as int) is None,
        },
{
    let n = marks.len();
    if at > n {
        return None;
    }
    let mut start = at;
    while start > 0 && marks[start - 1]
        invariant
            n == marks@.len(),
            start <= at <= n,
            run_start(marks@, start as int) == run_start(marks@, at as int),
        decreases start,
    {
        start -= 1;
    }
    let mut end = at;
    while end < n && marks[end]
        invariant
            n == marks@.len(),
            at <= end <= n,
            run_end(marks@, end as int) == run_end(marks@, at as int),
        decreases n - end,
    {
        end += 1;
    }
    if start < end {
        Some((start, end))
    } else {
        None
    }
}

/// For each character of a line, whether words are made of it.
fn mark_word_chars(line: &[char]) -> (marks: Vec<bool>)
    ensures
        marks@ == word_marks(line@),
{
    let mut marks: Vec<bool> = Vec::new();
    let mut i: usize = 0;
    while i < line.len()
        invariant
            i <= line.len(),
            marks@.len() == i,
            forall|j: int| 0 <= j < i ==> marks@[j] == is_word_char(line@[j]),
        decreases line.len() - i,
    {
        let c = line[i];
        marks.push(char_is_alphanumeric(c) || c == '_' || c == ':');
        i += 1;
    }
    assert(marks@ =~= word_marks(line@));
    marks
}

impl SieveLanguageServer {
    /// The word that a position in a line touches. The position counts
    /// characters.
    pub fn get_word_at_position(&self, line: &str, character: usize) -> (word: Option<String>)
        ensures
            match word {
                Some(word) => word_at(line@, character as int) == Some(word@),
                None => word_at(line@, character as int) is None,
            },
    {
        let chars = to_chars(line);
        let marks = mark_word_chars(chars.as_slice());
        match run_around(marks.as_slice(), character) {
            Some((start, end)) => Some(to_string(slice_subrange(chars.as_slice(), start, end))),
            None => None,
        }
    }
}

} // verus!
