//! The text buffer: `ropey::Rope`, and what is taken on trust of it.
//!
//! A rope holds a sequence of characters and knows its lines. The contracts
//! below state each operation over that sequence. They describe the rope as
//! it is built with its default set of line breaks.

use ropey::Rope;
use vstd::prelude::*;

verus! {

// ---------------------------------------------------------------------------
// Lines of a rope, stated
// ---------------------------------------------------------------------------

/// The characters that break a line: line feed, vertical tab, form feed,
/// carriage return, next line, line separator, paragraph separator.
pub open spec fn is_line_break(c: char) -> bool {
    ||| c == '\u{000A}'
    ||| c == '\u{000B}'
    ||| c == '\u{000C}'
    ||| c == '\u{000D}'
    ||| c == '\u{0085}'
    ||| c == '\u{2028}'
    ||| c == '\u{2029}'
}

/// A line ends with the character at index `i`. A carriage return directly
/// before a line feed ends no line: the two are one break, which ends with
/// the line feed.
pub open spec fn line_ends_at(text: Seq<char>, i: int) -> bool {
    &&& 0 <= i < text.len()
    &&& is_line_break(text[i])
    &&& !(text[i] == '\u{000D}' && i + 1 < text.len() && text[i + 1] == '\u{000A}')
}

/// The number of lines that end within the first `n` characters.
pub open spec fn line_ends_before(text: Seq<char>, n: int) -> nat
    decreases n,
{
    if n <= 0 {
        0
    } else if line_ends_at(text, n - 1) {
        line_ends_before(text, n - 1) + 1
    } else {
        line_ends_before(text, n - 1)
    }
}

/// The number of lines of a text: one more than it has line breaks. A text
/// that ends with a line break has an empty last line.
pub open spec fn line_count(text: Seq<char>) -> nat {
    line_ends_before(text, text.len() as int) + 1
}

/// The index reached from `i` after `k` more lines have ended, or the
/// length of `text` where fewer end.
pub open spec fn after_line_ends(text: Seq<char>, k: int, i: int) -> int
    decreases text.len() - i,
{
    if k <= 0 {
        i
    } else if i < 0 || i >= text.len() {
        text.len() as int
    } else if line_ends_at(text, i) {
        after_line_ends(text, k - 1, i + 1)
    } else {
        after_line_ends(text, k, i + 1)
    }
}

/// Where line `line` starts: at the beginning for line 0, else directly
/// after the break that ends the line before. The line one past the last
/// starts at the end of the text.
pub open spec fn line_start(text: Seq<char>, line: int) -> int {
    after_line_ends(text, line, 0)
}

/// Line `line` of a text, with the break that ends it.
pub open spec fn line_text(text: Seq<char>, line: int) -> Seq<char> {
    text.subrange(line_start(text, line), line_start(text, line + 1))
}

/// `text` with the characters from `start` up to `end` replaced by
/// `inserted`.
pub open spec fn replaced(text: Seq<char>, start: int, end: int, inserted: Seq<char>) -> Seq<
    char,
> {
    text.subrange(0, start) + inserted + text.subrange(end, text.len() as int)
}

/// Counting line ends moves forward inside the text, no further for fewer
/// lines than for more, and not at all for none.
pub proof fn lemma_after_line_ends_bounds(text: Seq<char>, k: int, i: int)
    requires
        0 <= i <= text.len(),
    ensures
        i <= after_line_ends(text, k, i) <= text.len(),
        k <= 0 ==> after_line_ends(text, k, i) == i,
        after_line_ends(text, k, i) <= after_line_ends(text, k + 1, i),
    decreases text.len() - i,
{
    if k <= 0 {
        if i < text.len() {
            lemma_after_line_ends_bounds(text, 0, i + 1);
            lemma_after_line_ends_bounds(text, 1, i + 1);
        }
    } else if i < text.len() {
        lemma_after_line_ends_bounds(text, k - 1, i + 1);
        lemma_after_line_ends_bounds(text, k, i + 1);
        lemma_after_line_ends_bounds(text, k + 1, i + 1);
    }
}

/// Every line starts inside the text, and no line starts before the one
/// before it.
pub proof fn lemma_line_start_bounds(text: Seq<char>, line: int)
    ensures
        0 <= line_start(text, line) <= line_start(text, line + 1) <= text.len(),
        line <= 0 ==> line_start(text, line) == 0,
{
    lemma_after_line_ends_bounds(text, line, 0);
    lemma_after_line_ends_bounds(text, line + 1, 0);
}

// ---------------------------------------------------------------------------
// The rope, on trust
// ---------------------------------------------------------------------------

/// `ropey::Rope`, as a type whose inside is not looked at: all that is
/// known of a rope is what the contracts below say.
#[verifier::external_type_specification]
#[verifier::external_body]
pub struct ExRope(Rope);

/// The characters that a rope holds, in order.
pub uninterp spec fn rope_text(rope: Rope) -> Seq<char>;

/// `Rope::from_str`: the rope holds the characters of `text`.
#[verifier::external_body]
pub(crate) fn rope_from_str(text: &str) -> (rope: Rope)
    ensures
        rope_text(rope) == text@,
{
    Rope::from_str(text)
}

/// `Rope::clone`: the copy holds the same characters.
#[verifier::external_body]
pub(crate) fn rope_clone(rope: &Rope) -> (copy: Rope)
    ensures
        rope_text(copy) == rope_text(*rope),
{
    rope.clone()
}

/// `Rope::len_chars`: the number of characters.
#[verifier::external_body]
pub(crate) fn rope_len_chars(rope: &Rope) -> (n: usize)
    ensures
        n == rope_text(*rope).len(),
{
    rope.len_chars()
}

/// `Rope::len_lines`: the number of line breaks, and one.
#[verifier::external_body]
pub(crate) fn rope_len_lines(rope: &Rope) -> (n: usize)
    ensures
        n == line_count(rope_text(*rope)),
{
    rope.len_lines()
}

/// `Rope::line_to_char`: the index of the first character of a line. The
/// line one past the last is accepted and gives the number of characters;
/// beyond that the call panics.
#[verifier::external_body]
pub(crate) fn rope_line_to_char(rope: &Rope, line_idx: usize) -> (i: usize)
    requires
        line_idx <= line_count(rope_text(*rope)),
    ensures
        i == line_start(rope_text(*rope), line_idx as int),
{
    rope.line_to_char(line_idx)
}

/// `Rope::remove` on `start..end`: those characters leave, the others stay
/// in order. The call panics where `start > end` or `end` is beyond the
/// last character.
#[verifier::external_body]
pub(crate) fn rope_remove(rope: &mut Rope, start: usize, end: usize)
    requires
        start <= end <= rope_text(*old(rope)).len(),
    ensures
        rope_text(*final(rope)) == rope_text(*old(rope)).subrange(0, start as int) + rope_text(
            *old(rope),
        ).subrange(end as int, rope_text(*old(rope)).len() as int),
{
    rope.remove(start..end)
}

/// `Rope::insert`: the characters of `text` enter before index `char_idx`.
/// The call panics where `char_idx` is beyond the number of characters.
#[verifier::external_body]
pub(crate) fn rope_insert(rope: &mut Rope, char_idx: usize, text: &str)
    requires
        char_idx <= rope_text(*old(rope)).len(),
    ensures
        rope_text(*final(rope)) == rope_text(*old(rope)).subrange(0, char_idx as int) + text@
            + rope_text(*old(rope)).subrange(
            char_idx as int,
            rope_text(*old(rope)).len() as int,
        ),
{
    rope.insert(char_idx, text)
}

/// `String::from` a rope: the characters of the rope as a string.
#[verifier::external_body]
pub(crate) fn rope_to_string(rope: &Rope) -> (text: String)
    ensures
        text@ == rope_text(*rope),
{
    String::from(rope)
}

/// `Rope::line`, as a string: the characters of a line, with the break that
/// ends it. The call panics where there is no such line.
#[verifier::external_body]
pub(crate) fn rope_line(rope: &Rope, line_idx: usize) -> (text: String)
    requires
        line_idx < line_count(rope_text(*rope)),
    ensures
        text@ == line_text(rope_text(*rope), line_idx as int),
{
    String::from(rope.line(line_idx))
}

} // verus!
