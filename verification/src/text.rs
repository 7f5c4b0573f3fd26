//! Character-level text primitives.
//!
//! Every rule of the analysis is phrased over sequences of `char`: trimming,
//! prefix and substring tests, line splitting and UTF-16 columns. The
//! executable functions work on `&[char]`; each states its result through a
//! spec function on `Seq<char>`.

use vstd::prelude::*;
use vstd::slice::slice_subrange;

verus! {

// ---------------------------------------------------------------------------
// Conversions
// ---------------------------------------------------------------------------

/// The characters of `s`, in order.
pub fn to_chars(s: &str) -> (v: Vec<char>)
    ensures
        v@ == s@,
{
    let mut v: Vec<char> = Vec::new();
    for c in it: s.chars()
        invariant
            v@ == it.seq().take(it.index()),
    {
        v.push(c);
    }
    v
}

/// `String::push`: appends one character to the end of the string.
#[verifier::external_body]
fn string_push(s: &mut String, c: char)
    ensures
        final(s)@ == old(s)@.push(c),
{
    s.push(c)
}

/// The string made of the characters of `chars`, in order.
pub fn to_string(chars: &[char]) -> (s: String)
    ensures
        s@ == chars@,
{
    let mut s = String::new();
    let mut i: usize = 0;
    while i < chars.len()
        invariant
            i <= chars.len(),
            s@ == chars@.take(i as int),
        decreases chars.len() - i,
    {
        string_push(&mut s, chars[i]);
        i += 1;
        assert(chars@.take(i as int) == chars@.take(i - 1).push(chars@[i - 1]));
    }
    s
}

/// Whether two slices hold the same characters.
pub fn same_text(a: &[char], b: &[char]) -> (r: bool)
    ensures
        r == (a@ == b@),
{
    if a.len() != b.len() {
        return false;
    }
    let mut i: usize = 0;
    while i < a.len()
        invariant
            a.len() == b.len(),
            i <= a.len(),
            a@.take(i as int) == b@.take(i as int),
        decreases a.len() - i,
    {
        if a[i] != b[i] {
            return false;
        }
        i += 1;
        assert(a@.take(i as int) == a@.take(i - 1).push(a@[i - 1]));
        assert(b@.take(i as int) == b@.take(i - 1).push(b@[i - 1]));
    }
    assert(a@ == a@.take(a.len() as int));
    assert(b@ == b@.take(b.len() as int));
    true
}

// ---------------------------------------------------------------------------
// White space and trimming
// ---------------------------------------------------------------------------

/// The characters with the Unicode property `White_Space`.
pub open spec fn is_white_space(c: char) -> bool {
    let n = c as u32;
    ||| 0x09 <= n <= 0x0D
    ||| n == 0x20
    ||| n == 0x85
    ||| n == 0xA0
    ||| n == 0x1680
    ||| 0x2000 <= n <= 0x200A
    ||| n == 0x2028
    ||| n == 0x2029
    ||| n == 0x202F
    ||| n == 0x205F
    ||| n == 0x3000
}

/// Whether `c` is white space.
pub fn char_is_white_space(c: char) -> (r: bool)
    ensures
        r == is_white_space(c),
{
    let n: u32 = c as u32;
    (0x09 <= n && n <= 0x0D) || n == 0x20 || n == 0x85 || n == 0xA0 || n == 0x1680 || (0x2000 <= n
        && n <= 0x200A) || n == 0x2028 || n == 0x2029 || n == 0x202F || n == 0x205F || n == 0x3000
}

/// The first index at or after `i` that holds no white space, or the length
/// of `s` when only white space follows.
pub open spec fn skip_space(s: Seq<char>, i: int) -> int
    decreases s.len() - i,
{
    if 0 <= i < s.len() && is_white_space(s[i]) {
        skip_space(s, i + 1)
    } else {
        i
    }
}

/// The end of the last run of characters before `j` that does not end in
/// white space: the greatest `k <= j` with `k == 0` or `s[k - 1]` no white
/// space.
pub open spec fn skip_space_back(s: Seq<char>, j: int) -> int
    decreases j,
{
    if 0 < j <= s.len() && is_white_space(s[j - 1]) {
        skip_space_back(s, j - 1)
    } else {
        j
    }
}

/// Where the trimmed part of `s` starts.
pub open spec fn trim_start_index(s: Seq<char>) -> int {
    skip_space(s, 0)
}

/// Where the trimmed part of `s` ends (exclusive). Never before
/// `trim_start_index(s)`.
pub open spec fn trim_end_index(s: Seq<char>) -> int {
    let a = skip_space(s, 0);
    let b = skip_space_back(s, s.len() as int);
    if b < a {
        a
    } else {
        b
    }
}

/// `s` without its leading and trailing white space.
pub open spec fn trim(s: Seq<char>) -> Seq<char> {
    s.subrange(trim_start_index(s), trim_end_index(s))
}

/// `s` without its leading white space.
pub open spec fn trim_start(s: Seq<char>) -> Seq<char> {
    s.subrange(trim_start_index(s), s.len() as int)
}

/// `skip_space` stops inside the text, has only white space behind it and
/// none under it.
pub proof fn lemma_skip_space_bounds(s: Seq<char>, i: int)
    requires
        0 <= i <= s.len(),
    ensures
        i <= skip_space(s, i) <= s.len(),
        forall|k: int| i <= k < skip_space(s, i) ==> is_white_space(#[trigger] s[k]),
        skip_space(s, i) < s.len() ==> !is_white_space(s[skip_space(s, i)]),
    decreases s.len() - i,
{
    if i < s.len() && is_white_space(s[i]) {
        lemma_skip_space_bounds(s, i + 1);
    }
}

/// `skip_space_back` stops inside the text, has only white space after it
/// and none before it.
pub proof fn lemma_skip_space_back_bounds(s: Seq<char>, j: int)
    requires
        0 <= j <= s.len(),
    ensures
        0 <= skip_space_back(s, j) <= j,
        forall|k: int| skip_space_back(s, j) <= k < j ==> is_white_space(#[trigger] s[k]),
        skip_space_back(s, j) > 0 ==> !is_white_space(s[skip_space_back(s, j) - 1]),
    decreases j,
{
    if 0 < j && is_white_space(s[j - 1]) {
        lemma_skip_space_back_bounds(s, j - 1);
    }
}

/// The trimmed part lies inside `s`, begins and ends with a character that
/// is no white space, and everything outside it is white space.
pub proof fn lemma_trim_bounds(s: Seq<char>)
    ensures
        0 <= trim_start_index(s) <= trim_end_index(s) <= s.len(),
        trim(s).len() == trim_end_index(s) - trim_start_index(s),
        trim(s).len() > 0 ==> !is_white_space(trim(s).first()) && !is_white_space(trim(s).last()),
        forall|k: int| 0 <= k < trim_start_index(s) ==> is_white_space(#[trigger] s[k]),
        forall|k: int| trim_end_index(s) <= k < s.len() ==> is_white_space(#[trigger] s[k]),
{
    lemma_skip_space_bounds(s, 0);
    lemma_skip_space_back_bounds(s, s.len() as int);
}

/// The bounds of the trimmed part of `s`.
pub fn trim_bounds(s: &[char]) -> (r: (usize, usize))
    ensures
        r.0 == trim_start_index(s@),
        r.1 == trim_end_index(s@),
        r.0 <= r.1 <= s@.len(),
{
    let n = s.len();
    let mut a: usize = 0;
    while a < n && char_is_white_space(s[a])
        invariant
            n == s@.len(),
            a <= n,
            skip_space(s@, a as int) == skip_space(s@, 0),
        decreases n - a,
    {
        a += 1;
    }
    let mut b: usize = n;
    while b > 0 && char_is_white_space(s[b - 1])
        invariant
            n == s@.len(),
            b <= n,
            skip_space_back(s@, b as int) == skip_space_back(s@, n as int),
        decreases b,
    {
        b -= 1;
    }
    if b < a {
        (a, a)
    } else {
        (a, b)
    }
}

/// `s` without its leading and trailing white space.
pub fn trimmed(s: &[char]) -> (r: &[char])
    ensures
        r@ == trim(s@),
{
    let (a, b) = trim_bounds(s);
    slice_subrange(s, a, b)
}

/// `s` without its leading white space.
pub fn trimmed_start(s: &[char]) -> (r: &[char])
    ensures
        r@ == trim_start(s@),
{
    let (a, _) = trim_bounds(s);
    slice_subrange(s, a, s.len())
}

// ---------------------------------------------------------------------------
// Prefixes and substrings
// ---------------------------------------------------------------------------

/// `p` stands in `s` at index `i`.
pub open spec fn occurs_at(s: Seq<char>, p: Seq<char>, i: int) -> bool {
    0 <= i && i + p.len() <= s.len() && s.subrange(i, i + p.len()) == p
}

/// `s` begins with `p`.
pub open spec fn starts_with(s: Seq<char>, p: Seq<char>) -> bool {
    occurs_at(s, p, 0)
}

/// `s` ends with the character `c`.
pub open spec fn ends_with_char(s: Seq<char>, c: char) -> bool {
    s.len() > 0 && s.last() == c
}

/// `p` stands somewhere in `s`.
pub open spec fn contains(s: Seq<char>, p: Seq<char>) -> bool {
    exists|i: int| occurs_at(s, p, i)
}

/// Whether `p` stands in `s` at index `i`.
pub fn matches_at(s: &[char], p: &[char], i: usize) -> (r: bool)
    ensures
        r == occurs_at(s@, p@, i as int),
{
    let n = s.len();
    let m = p.len();
    if i > n || m > n - i {
        return false;
    }
    let mut k: usize = 0;
    while k < m
        invariant
            n == s@.len(),
            m == p@.len(),
            i + m <= n,
            k <= m,
            s@.subrange(i as int, i + k) == p@.take(k as int),
        decreases m - k,
    {
        if s[i + k] != p[k] {
            assert(s@.subrange(i as int, i + m)[k as int] != p@[k as int]);
            return false;
        }
        k += 1;
        assert(s@.subrange(i as int, i + k) == s@.subrange(i as int, i + k - 1).push(s@[i + k - 1]));
        assert(p@.take(k as int) == p@.take(k - 1).push(p@[k - 1]));
    }
    assert(p@.take(m as int) == p@);
    true
}

/// Whether `s` begins with `p`.
pub fn has_prefix(s: &[char], p: &[char]) -> (r: bool)
    ensures
        r == starts_with(s@, p@),
{
    matches_at(s, p, 0)
}

/// Whether `s` ends with the character `c`.
pub fn has_last_char(s: &[char], c: char) -> (r: bool)
    ensures
        r == ends_with_char(s@, c),
{
    s.len() > 0 && s[s.len() - 1] == c
}

/// The first index at or after `from` where `p` stands in `s`.
pub fn find_from(s: &[char], p: &[char], from: usize) -> (r: Option<usize>)
    ensures
        match r {
            Some(i) => from <= i && occurs_at(s@, p@, i as int) && forall|k: int|
                from <= k < i ==> !occurs_at(s@, p@, k),
            None => forall|k: int| from <= k ==> !occurs_at(s@, p@, k),
        },
{
    let n = s.len();
    let m = p.len();
    if m > n || from > n - m {
        return None;
    }
    let mut i: usize = from;
    while i <= n - m
        invariant
            n == s@.len(),
            m == p@.len(),
            m <= n,
            from <= i <= n - m + 1,
            forall|k: int| from <= k < i ==> !occurs_at(s@, p@, k),
        decreases n - m + 1 - i,
    {
        if matches_at(s, p, i) {
            return Some(i);
        }
        assert(m > 0) by {
            if m == 0 {
                assert(s@.subrange(i as int, i as int) =~= p@);
            }
        }
        i += 1;
    }
    None
}

/// Whether `p` stands somewhere in `s`.
pub fn has_substring(s: &[char], p: &[char]) -> (r: bool)
    ensures
        r == contains(s@, p@),
{
    find_from(s, p, 0).is_some()
}

/// Every index at or after `from` where `p` stands in `s`, ascending.
pub open spec fn occurrences_from(s: Seq<char>, p: Seq<char>, from: int) -> Seq<int>
    decreases s.len() - from + 1,
{
    if from < 0 || from + p.len() > s.len() {
        Seq::empty()
    } else if occurs_at(s, p, from) {
        seq![from] + occurrences_from(s, p, from + 1)
    } else {
        occurrences_from(s, p, from + 1)
    }
}

/// Every index where `p` stands in `s`, ascending.
pub open spec fn occurrences(s: Seq<char>, p: Seq<char>) -> Seq<int> {
    occurrences_from(s, p, 0)
}

/// `occurrences_from` lists exactly the indices at or after `from` where `p`
/// stands, in strictly ascending order.
pub proof fn lemma_occurrences_from(s: Seq<char>, p: Seq<char>, from: int)
    requires
        0 <= from,
    ensures
        forall|j: int|
            0 <= j < occurrences_from(s, p, from).len() ==> from <= #[trigger] occurrences_from(
                s,
                p,
                from,
            )[j] && occurs_at(s, p, occurrences_from(s, p, from)[j]),
        forall|j: int, k: int|
            0 <= j < k < occurrences_from(s, p, from).len() ==> occurrences_from(s, p, from)[j]
                < occurrences_from(s, p, from)[k],
        forall|i: int|
            from <= i && occurs_at(s, p, i) ==> occurrences_from(s, p, from).contains(i),
    decreases s.len() - from + 1,
{
    let o = occurrences_from(s, p, from);
    if from + p.len() > s.len() {
    } else {
        let rest = occurrences_from(s, p, from + 1);
        lemma_occurrences_from(s, p, from + 1);
        if occurs_at(s, p, from) {
            assert(o == seq![from] + rest);
            assert forall|i: int| from <= i && occurs_at(s, p, i) implies o.contains(i) by {
                if i == from {
                    assert(o[0] == from);
                } else {
                    let j = choose|j: int| 0 <= j < rest.len() && rest[j] == i;
                    assert(o[j + 1] == i);
                }
            }
        } else {
            assert(o == rest);
        }
    }
}

// ---------------------------------------------------------------------------
// Lines
// ---------------------------------------------------------------------------

/// The index of the first `c` at or after `i`, or the length of `s`.
pub open spec fn next_index_of(s: Seq<char>, c: char, i: int) -> int
    decreases s.len() - i,
{
    if 0 <= i < s.len() && s[i] != c {
        next_index_of(s, c, i + 1)
    } else {
        i
    }
}

/// The line that ends with the line feed at `end`: the text from `start` to
/// `end`, less a carriage return directly before the line feed.
pub open spec fn line_before_feed(s: Seq<char>, start: int, end: int) -> Seq<char> {
    if start < end && s[end - 1] == '\r' {
        s.subrange(start, end - 1)
    } else {
        s.subrange(start, end)
    }
}

/// The logical lines of the text from index `i` on.
///
/// A line ends with a line feed, or with a carriage return directly followed
/// by a line feed; the end of the text ends the last line. Line endings are
/// not part of the lines, and a text that ends with a line ending has no
/// empty line after it.
pub open spec fn lines_from(s: Seq<char>, i: int) -> Seq<Seq<char>>
    decreases s.len() - i,
{
    if i < 0 || i >= s.len() {
        Seq::empty()
    } else {
        let k = next_index_of(s, '\n', i);
        if k >= s.len() {
            seq![s.subrange(i, s.len() as int)]
        } else {
            proof {
                lemma_next_index_of(s, '\n', i);
            }
            seq![line_before_feed(s, i, k)] + lines_from(s, k + 1)
        }
    }
}

/// The logical lines of a text.
pub open spec fn lines(s: Seq<char>) -> Seq<Seq<char>> {
    lines_from(s, 0)
}

/// `next_index_of` stops inside the text, at the first `c` if there is one.
pub proof fn lemma_next_index_of(s: Seq<char>, c: char, i: int)
    requires
        0 <= i <= s.len(),
    ensures
        i <= next_index_of(s, c, i) <= s.len(),
        forall|k: int| i <= k < next_index_of(s, c, i) ==> #[trigger] s[k] != c,
        next_index_of(s, c, i) < s.len() ==> s[next_index_of(s, c, i)] == c,
    decreases s.len() - i,
{
    if i < s.len() && s[i] != c {
        lemma_next_index_of(s, c, i + 1);
    }
}

/// The logical lines of a text, each as its own vector.
pub fn split_lines(text: &[char]) -> (out: Vec<Vec<char>>)
    ensures
        out@.len() == lines(text@).len(),
        forall|j: int| 0 <= j < out@.len() ==> (#[trigger] out@[j])@ == lines(text@)[j],
{
    let n = text.len();
    let mut out: Vec<Vec<char>> = Vec::new();
    let ghost mut done: Seq<Seq<char>> = Seq::empty();
    let mut i: usize = 0;
    while i < n
        invariant
            n == text@.len(),
            i <= n,
            out@.len() == done.len(),
            forall|j: int| 0 <= j < out@.len() ==> (#[trigger] out@[j])@ == done[j],
            done + lines_from(text@, i as int) == lines(text@),
        decreases n - i,
    {
        let mut k: usize = i;
        while k < n && text[k] != '\n'
            invariant
                n == text@.len(),
                i <= k <= n,
                next_index_of(text@, '\n', k as int) == next_index_of(text@, '\n', i as int),
            decreases n - k,
        {
            k += 1;
        }
        let ghost rest = lines_from(text@, i as int);
        if k >= n {
            let line = slice_to_vec_chars(slice_subrange(text, i, n));
            proof {
                assert(rest == seq![text@.subrange(i as int, n as int)]);
                assert((done.push(line@)) + lines_from(text@, n as int) == done + rest);
                done = done.push(line@);
            }
            out.push(line);
            i = n;
        } else {
            let end: usize = if i < k && text[k - 1] == '\r' {
                k - 1
            } else {
                k
            };
            let line = slice_to_vec_chars(slice_subrange(text, i, end));
            proof {
                assert(line@ == line_before_feed(text@, i as int, k as int));
                assert(rest == seq![line@] + lines_from(text@, k + 1));
                assert((done.push(line@)) + lines_from(text@, k + 1) == done + rest);
                done = done.push(line@);
            }
            out.push(line);
            i = k + 1;
        }
    }
    assert(done + Seq::<Seq<char>>::empty() == done);
    out
}

/// A vector with the characters of `s`.
pub fn slice_to_vec_chars(s: &[char]) -> (v: Vec<char>)
    ensures
        v@ == s@,
{
    vstd::slice::slice_to_vec(s)
}

// ---------------------------------------------------------------------------
// Pieces between separators
// ---------------------------------------------------------------------------

/// The pieces of the text from index `i` on that `separator` parts. The
/// separators belong to no piece; where nothing follows the last separator,
/// the last piece is empty.
pub open spec fn pieces_from(s: Seq<char>, separator: char, i: int) -> Seq<Seq<char>>
    decreases s.len() - i + 1,
{
    if i < 0 || i > s.len() {
        Seq::empty()
    } else {
        let k = next_index_of(s, separator, i);
        if k >= s.len() {
            seq![s.subrange(i, s.len() as int)]
        } else {
            proof {
                lemma_next_index_of(s, separator, i);
            }
            seq![s.subrange(i, k)] + pieces_from(s, separator, k + 1)
        }
    }
}

/// The pieces of `s` that `separator` parts: one more than there are
/// separators.
pub open spec fn pieces(s: Seq<char>, separator: char) -> Seq<Seq<char>> {
    pieces_from(s, separator, 0)
}

/// The pieces of `s` that `separator` parts, each as its own vector.
pub fn split(s: &[char], separator: char) -> (out: Vec<Vec<char>>)
    ensures
        out@.len() == pieces(s@, separator).len(),
        forall|j: int| 0 <= j < out@.len() ==> (#[trigger] out@[j])@ == pieces(s@, separator)[j],
{
    let n = s.len();
    let mut out: Vec<Vec<char>> = Vec::new();
    let ghost mut done: Seq<Seq<char>> = Seq::empty();
    let mut i: usize = 0;
    loop
        invariant_except_break
            done + pieces_from(s@, separator, i as int) == pieces(s@, separator),
        invariant
            n == s@.len(),
            i <= n,
            out@.len() == done.len(),
            forall|j: int| 0 <= j < out@.len() ==> (#[trigger] out@[j])@ == done[j],
        ensures
            done == pieces(s@, separator),
            out@.len() == done.len(),
            forall|j: int| 0 <= j < out@.len() ==> (#[trigger] out@[j])@ == done[j],
        decreases n - i,
    {
        let mut k: usize = i;
        while k < n && s[k] != separator
            invariant
                n == s@.len(),
                i <= k <= n,
                next_index_of(s@, separator, k as int) == next_index_of(s@, separator, i as int),
            decreases n - k,
        {
            k += 1;
        }
        let ghost rest = pieces_from(s@, separator, i as int);
        let piece = slice_to_vec_chars(slice_subrange(s, i, k));
        out.push(piece);
        if k >= n {
            proof {
                assert(rest == seq![piece@]);
                done = done.push(piece@);
                assert(done == pieces(s@, separator));
            }
            break ;
        }
        proof {
            assert(rest == seq![piece@] + pieces_from(s@, separator, k + 1));
            assert((done.push(piece@)) + pieces_from(s@, separator, k + 1) == done + rest);
            done = done.push(piece@);
        }
        i = k + 1;
    }
    out
}

// ---------------------------------------------------------------------------
// Stripping a character off both ends
// ---------------------------------------------------------------------------

/// The first index at or after `i` that does not hold `c`.
pub open spec fn skip_char(s: Seq<char>, c: char, i: int) -> int
    decreases s.len() - i,
{
    if 0 <= i < s.len() && s[i] == c {
        skip_char(s, c, i + 1)
    } else {
        i
    }
}

/// The greatest `k <= j` with `k == 0` or `s[k - 1] != c`.
pub open spec fn skip_char_back(s: Seq<char>, c: char, j: int) -> int
    decreases j,
{
    if 0 < j <= s.len() && s[j - 1] == c {
        skip_char_back(s, c, j - 1)
    } else {
        j
    }
}

/// `s` without the run of `c` at its start and the run of `c` at its end.
pub open spec fn strip_char(s: Seq<char>, c: char) -> Seq<char> {
    let a = skip_char(s, c, 0);
    let b = skip_char_back(s, c, s.len() as int);
    if b < a {
        Seq::empty()
    } else {
        s.subrange(a, b)
    }
}

/// `s` without the run of `c` at its start and the run of `c` at its end.
pub fn stripped(s: &[char], c: char) -> (r: &[char])
    ensures
        r@ == strip_char(s@, c),
{
    let n = s.len();
    let mut a: usize = 0;
    while a < n && s[a] == c
        invariant
            n == s@.len(),
            a <= n,
            skip_char(s@, c, a as int) == skip_char(s@, c, 0),
        decreases n - a,
    {
        a += 1;
    }
    let mut b: usize = n;
    while b > 0 && s[b - 1] == c
        invariant
            n == s@.len(),
            b <= n,
            skip_char_back(s@, c, b as int) == skip_char_back(s@, c, n as int),
        decreases b,
    {
        b -= 1;
    }
    if b < a {
        assert(s@.subrange(a as int, a as int) =~= Seq::<char>::empty());
        slice_subrange(s, a, a)
    } else {
        slice_subrange(s, a, b)
    }
}

// ---------------------------------------------------------------------------
// UTF-16 columns
// ---------------------------------------------------------------------------

/// The number of UTF-16 code units that encode `c`.
pub open spec fn utf16_width(c: char) -> nat {
    if (c as u32) < 0x10000 {
        1
    } else {
        2
    }
}

/// The number of UTF-16 code units that encode `s`.
pub open spec fn utf16_len(s: Seq<char>) -> nat
    decreases s.len(),
{
    if s.len() == 0 {
        0
    } else {
        utf16_len(s.drop_last()) + utf16_width(s.last())
    }
}

/// `n` as a `u32`, or `u32::MAX` where it does not fit.
pub open spec fn clamp_u32(n: int) -> u32 {
    if n < 0 {
        0
    } else if n > u32::MAX {
        u32::MAX
    } else {
        n as u32
    }
}

/// The column of index `i` in `line`: the UTF-16 length of what stands
/// before it.
pub open spec fn column(line: Seq<char>, i: int) -> u32 {
    clamp_u32(utf16_len(line.take(i)) as int)
}

/// The UTF-16 length grows with the prefix.
pub proof fn lemma_utf16_len_monotonic(s: Seq<char>, i: int, j: int)
    requires
        0 <= i <= j <= s.len(),
    ensures
        utf16_len(s.take(i)) <= utf16_len(s.take(j)),
        i < j ==> utf16_len(s.take(i)) < utf16_len(s.take(j)),
        utf16_len(s.take(j)) - utf16_len(s.take(i)) <= 2 * (j - i),
    decreases j - i,
{
    if i < j {
        lemma_utf16_len_monotonic(s, i, j - 1);
        assert(s.take(j).drop_last() == s.take(j - 1));
    }
}

/// Columns grow with the index.
pub proof fn lemma_column_monotonic(line: Seq<char>, i: int, j: int)
    requires
        0 <= i <= j <= line.len(),
    ensures
        column(line, i) <= column(line, j),
{
    lemma_utf16_len_monotonic(line, i, j);
}

/// `n` as a `u32`, or `u32::MAX` where it does not fit.
pub fn clamp_to_u32(n: usize) -> (r: u32)
    ensures
        r == clamp_u32(n as int),
{
    if n > u32::MAX as usize {
        u32::MAX
    } else {
        n as u32
    }
}

/// The column of index `i` in `line`.
pub fn column_of(line: &[char], i: usize) -> (r: u32)
    requires
        i <= line@.len(),
    ensures
        r == column(line@, i as int),
{
    let mut r: u32 = 0;
    let mut k: usize = 0;
    assert(line@.take(0).len() == 0);
    while k < i
        invariant
            k <= i <= line@.len(),
            r == clamp_u32(utf16_len(line@.take(k as int)) as int),
        decreases i - k,
    {
        let w: u32 = if (line[k] as u32) < 0x10000 {
            1
        } else {
            2
        };
        proof {
            assert(line@.take(k + 1).drop_last() == line@.take(k as int));
            assert(line@.take(k + 1).last() == line@[k as int]);
        }
        r = if r > u32::MAX - w {
            u32::MAX
        } else {
            r + w
        };
        k += 1;
    }
    r
}

} // verus!
