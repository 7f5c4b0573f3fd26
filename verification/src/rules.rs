//! The rules that are applied to one line of a script.
//!
//! The rules are pattern rules on the text of the line, not a grammar: a
//! line is judged by what it starts with, what it ends with and which
//! keywords occur in it.

use crate::datastructures::SieveSettings;
use crate::diagnostic::{
    diagnostic_views, source_name, Diagnostic, DiagnosticSeverity, DiagnosticView, Position, Range,
};
use crate::sieve::{
    action_names, extended_action, extended_keywords, extended_test, name_views, sieve_actions,
    sieve_tests, test_names,
};
use crate::text::{
    clamp_to_u32, clamp_u32, column, column_of, contains, ends_with_char, find_from, has_last_char,
    has_prefix, has_substring, lemma_column_monotonic, occurrences, occurrences_from, occurs_at,
    starts_with, to_chars, to_string, trim, trim_start, trimmed, trimmed_start,
};
use vstd::prelude::*;

verus! {

// ---------------------------------------------------------------------------
// Word lists
// ---------------------------------------------------------------------------

/// The views of a list of words.
pub open spec fn word_views(words: Seq<Vec<char>>) -> Seq<Seq<char>> {
    words.map_values(|w: Vec<char>| w@)
}

/// The keywords that begin a statement of the control language.
pub open spec fn control_keywords() -> Seq<Seq<char>> {
    seq!["require"@, "if"@, "elsif"@, "else"@, "stop"@, "{"@, "}"@]
}

/// Whether `word` may be used: every word may where the extended dialect is
/// on; where it is off, `reserved` may not.
pub open spec fn is_available(word: Seq<char>, reserved: Seq<char>, extended: bool) -> bool {
    extended || word != reserved
}

/// `s` begins with one of `words`.
pub open spec fn starts_with_one_of(s: Seq<char>, words: Seq<Seq<char>>) -> bool {
    exists|i: int| 0 <= i < words.len() && starts_with(s, #[trigger] words[i])
}

/// `s` begins with one of `words` that is available.
pub open spec fn starts_with_available(
    s: Seq<char>,
    words: Seq<Seq<char>>,
    reserved: Seq<char>,
    extended: bool,
) -> bool {
    exists|i: int|
        0 <= i < words.len() && is_available(#[trigger] words[i], reserved, extended)
            && starts_with(s, words[i])
}

/// One of `words` that is available stands somewhere in `s`.
pub open spec fn contains_available(
    s: Seq<char>,
    words: Seq<Seq<char>>,
    reserved: Seq<char>,
    extended: bool,
) -> bool {
    exists|i: int|
        0 <= i < words.len() && is_available(#[trigger] words[i], reserved, extended) && contains(
            s,
            words[i],
        )
}

/// The words of a table of names.
pub fn words_of(names: &Vec<&'static str>) -> (words: Vec<Vec<char>>)
    ensures
        word_views(words@) == name_views(names@),
{
    let mut words: Vec<Vec<char>> = Vec::new();
    let mut i: usize = 0;
    while i < names.len()
        invariant
            i <= names.len(),
            words@.len() == i,
            forall|j: int| 0 <= j < i ==> (#[trigger] words@[j])@ == names@[j]@,
        decreases names.len() - i,
    {
        words.push(to_chars(names[i]));
        i += 1;
    }
    assert(word_views(words@) =~= name_views(names@));
    words
}

/// Whether `s` begins with one of `words` that is available.
pub fn begins_with_available(
    s: &[char],
    words: &Vec<Vec<char>>,
    reserved: &[char],
    extended: bool,
) -> (r: bool)
    ensures
        r == starts_with_available(s@, word_views(words@), reserved@, extended),
{
    let ghost views = word_views(words@);
    let mut i: usize = 0;
    while i < words.len()
        invariant
            i <= words.len(),
            views == word_views(words@),
            forall|j: int|
                0 <= j < i ==> !(is_available(#[trigger] views[j], reserved@, extended)
                    && starts_with(s@, views[j])),
        decreases words.len() - i,
    {
        let word = words[i].as_slice();
        assert(views[i as int] == word@);
        if (extended || !crate::text::same_text(word, reserved)) && has_prefix(s, word) {
            return true;
        }
        i += 1;
    }
    false
}

/// Whether one of `words` that is available stands somewhere in `s`.
pub fn holds_available(
    s: &[char],
    words: &Vec<Vec<char>>,
    reserved: &[char],
    extended: bool,
) -> (r: bool)
    ensures
        r == contains_available(s@, word_views(words@), reserved@, extended),
{
    let ghost views = word_views(words@);
    let mut i: usize = 0;
    while i < words.len()
        invariant
            i <= words.len(),
            views == word_views(words@),
            forall|j: int|
                0 <= j < i ==> !(is_available(#[trigger] views[j], reserved@, extended) && contains(
                    s@,
                    views[j],
                )),
        decreases words.len() - i,
    {
        let word = words[i].as_slice();
        assert(views[i as int] == word@);
        if (extended || !crate::text::same_text(word, reserved)) && has_substring(s, word) {
            return true;
        }
        i += 1;
    }
    false
}

// ---------------------------------------------------------------------------
// The vocabulary, ready for matching
// ---------------------------------------------------------------------------

/// The keyword tables as character vectors, built once for a run.
pub struct Vocabulary {
    tests: Vec<Vec<char>>,
    actions: Vec<Vec<char>>,
    control: Vec<Vec<char>>,
    extended: Vec<Vec<char>>,
}

/// A `Vocabulary` as a mathematical value: its four lists of words.
pub struct VocabularyView {
    pub tests: Seq<Seq<char>>,
    pub actions: Seq<Seq<char>>,
    pub control: Seq<Seq<char>>,
    pub extended: Seq<Seq<char>>,
}

impl View for Vocabulary {
    type V = VocabularyView;

    closed spec fn view(&self) -> VocabularyView {
        VocabularyView {
            tests: word_views(self.tests@),
            actions: word_views(self.actions@),
            control: word_views(self.control@),
            extended: word_views(self.extended@),
        }
    }
}

impl Vocabulary {
    /// The vocabulary of the language: the tests, the actions, the control
    /// keywords and the keywords of the extended dialect, each list in the
    /// order of its table.
    pub open spec fn language() -> VocabularyView {
        VocabularyView {
            tests: test_names(),
            actions: action_names(),
            control: control_keywords(),
            extended: extended_keywords(),
        }
    }

    /// Each list holds the words of its table, in their order.
    #[verifier::type_invariant]
    spec fn well_formed(self) -> bool {
        &&& word_views(self.tests@) == test_names()
        &&& word_views(self.actions@) == action_names()
        &&& word_views(self.control@) == control_keywords()
        &&& word_views(self.extended@) == extended_keywords()
    }

    /// The tables of the language, each word as its characters.
    pub fn new() -> (vocabulary: Vocabulary)
        ensures
            vocabulary@ == Vocabulary::language(),
    {
        let tests = words_of(&sieve_tests());
        let actions = words_of(&sieve_actions());
        let control_names = vec!["require", "if", "elsif", "else", "stop", "{", "}"];
        assert(name_views(control_names@) =~= control_keywords());
        let control = words_of(&control_names);
        let extended_names = vec!["expire", "currentdate"];
        assert(name_views(extended_names@) =~= extended_keywords());
        let extended = words_of(&extended_names);
        Vocabulary { tests, actions, control, extended }
    }
}

// ---------------------------------------------------------------------------
// The rules, stated
// ---------------------------------------------------------------------------

/// A line that the analysis passes over: blank, or a comment.
pub open spec fn is_skipped(line: Seq<char>) -> bool {
    trim(line).len() == 0 || trim(line)[0] == '#'
}

/// A character that goes on with a word: an ASCII letter, an ASCII digit
/// or the underscore, the characters that the identifiers of the language
/// are made of. Any other character, white space and punctuation among
/// them, ends the word before it.
pub open spec fn continues_word(c: char) -> bool {
    let n = c as u32;
    ||| 0x61 <= n <= 0x7A
    ||| 0x41 <= n <= 0x5A
    ||| 0x30 <= n <= 0x39
    ||| n == 0x5F
}

/// The leading token of `s` is `word`: `word` stands at the start of `s`,
/// and `s` ends there or goes on with a character that does not continue
/// the word.
pub open spec fn leads_with(s: Seq<char>, word: Seq<char>) -> bool {
    starts_with(s, word) && (s.len() == word.len() || !continues_word(s[word.len() as int]))
}

/// The leading token of `s` is one of `words`.
pub open spec fn leads_with_one_of(s: Seq<char>, words: Seq<Seq<char>>) -> bool {
    exists|i: int| 0 <= i < words.len() && leads_with(s, #[trigger] words[i])
}

/// The leading token of the statement is an action. A statement that only
/// begins like an action, as `keeper` begins like `keep`, is none.
pub open spec fn is_action_statement(statement: Seq<char>) -> bool {
    leads_with_one_of(statement, action_names())
}

/// The statement has a form that the language knows: it begins with a
/// control keyword, or holds an available test somewhere, or begins with an
/// available action. Comments and the empty statement are valid.
pub open spec fn is_valid_statement(statement: Seq<char>, extended: bool) -> bool {
    ||| statement.len() == 0
    ||| statement[0] == '#'
    ||| starts_with_one_of(statement, control_keywords())
    ||| contains_available(statement, test_names(), extended_test(), extended)
    ||| starts_with_available(statement, action_names(), extended_action(), extended)
}

/// The range in line `line_idx` from index `from` to index `to` of `line`.
pub open spec fn range_in_line(line_idx: int, line: Seq<char>, from: int, to: int) -> Range {
    Range {
        start: Position { line: clamp_u32(line_idx), character: column(line, from) },
        end: Position { line: clamp_u32(line_idx), character: column(line, to) },
    }
}

/// The finding that an action lacks its semicolon, at the last character of
/// the line.
pub open spec fn missing_semicolon(line_idx: int, line: Seq<char>) -> DiagnosticView {
    DiagnosticView {
        range: range_in_line(line_idx, line, line.len() - 1, line.len() as int),
        severity: DiagnosticSeverity::Error,
        code: "missing-semicolon"@,
        code_description: Some("https://datatracker.ietf.org/doc/html/rfc5228#section-2.1"@),
        source: source_name(),
        message: "Missing semicolon after action statement"@,
    }
}

/// The finding that a statement has no known form, over the whole line.
pub open spec fn invalid_syntax(line_idx: int, line: Seq<char>) -> DiagnosticView {
    DiagnosticView {
        range: range_in_line(line_idx, line, 0, line.len() as int),
        severity: DiagnosticSeverity::Error,
        code: "invalid-syntax"@,
        code_description: Some("https://datatracker.ietf.org/doc/html/rfc5228#section-8"@),
        source: source_name(),
        message: "Invalid Sieve statement syntax"@,
    }
}

/// What the finding on a disabled keyword says.
pub open spec fn extension_disabled_message(keyword: Seq<char>) -> Seq<char> {
    "Proton extension '"@ + keyword + "' is disabled in settings"@
}

/// The finding that `keyword`, which stands at index `at` of the line,
/// belongs to the extended dialect, which is off.
pub open spec fn extension_disabled(
    line_idx: int,
    line: Seq<char>,
    keyword: Seq<char>,
    at: int,
) -> DiagnosticView {
    DiagnosticView {
        range: range_in_line(line_idx, line, at, at + keyword.len()),
        severity: DiagnosticSeverity::Warning,
        code: "extension-disabled"@,
        code_description: Some("https://proton.me/support/sieve-advanced-custom-filters"@),
        source: source_name(),
        message: extension_disabled_message(keyword),
    }
}

/// The findings of the termination rule: one where the leading token of
/// the statement is an action and the statement does not end with a
/// semicolon.
pub open spec fn termination_findings(line_idx: int, line: Seq<char>) -> Seq<DiagnosticView> {
    if is_action_statement(trim(line)) && !ends_with_char(trim(line), ';') {
        seq![missing_semicolon(line_idx, line)]
    } else {
        Seq::empty()
    }
}

/// The findings of the validity rule: one where the statement ends with a
/// semicolon and has no known form.
pub open spec fn validity_findings(line_idx: int, line: Seq<char>, extended: bool) -> Seq<
    DiagnosticView,
> {
    if ends_with_char(trim(line), ';') && !is_valid_statement(trim(line), extended) {
        seq![invalid_syntax(line_idx, line)]
    } else {
        Seq::empty()
    }
}

/// One finding on `keyword` for each of `places`, in their order.
pub open spec fn findings_at(
    line_idx: int,
    line: Seq<char>,
    keyword: Seq<char>,
    places: Seq<int>,
) -> Seq<DiagnosticView> {
    places.map_values(|at: int| extension_disabled(line_idx, line, keyword, at))
}

/// One finding for each place where `keyword` stands in the line, from left
/// to right.
pub open spec fn keyword_findings(line_idx: int, line: Seq<char>, keyword: Seq<char>) -> Seq<
    DiagnosticView,
> {
    findings_at(line_idx, line, keyword, occurrences(line, keyword))
}

/// The findings on the keywords `keywords[k..]`, keyword by keyword.
pub open spec fn keywords_findings(
    line_idx: int,
    line: Seq<char>,
    keywords: Seq<Seq<char>>,
    k: int,
) -> Seq<DiagnosticView>
    decreases keywords.len() - k,
{
    if k < 0 || k >= keywords.len() {
        Seq::empty()
    } else {
        keyword_findings(line_idx, line, keywords[k]) + keywords_findings(
            line_idx,
            line,
            keywords,
            k + 1,
        )
    }
}

/// The findings of the dialect rule: where the extended dialect is off, one
/// for every place where one of its keywords stands in the line.
pub open spec fn dialect_findings(line_idx: int, line: Seq<char>, extended: bool) -> Seq<
    DiagnosticView,
> {
    if extended {
        Seq::empty()
    } else {
        keywords_findings(line_idx, line, extended_keywords(), 0)
    }
}

/// What the three rules find in a line that is not passed over, in the
/// order in which the rules are applied.
pub open spec fn syntax_findings(line_idx: int, line: Seq<char>, settings: SieveSettings) -> Seq<
    DiagnosticView,
> {
    termination_findings(line_idx, line) + validity_findings(
        line_idx,
        line,
        settings.proton_extensions,
    ) + dialect_findings(line_idx, line, settings.proton_extensions)
}

/// What the analysis finds in a line.
pub open spec fn line_findings(line_idx: int, line: Seq<char>, settings: SieveSettings) -> Seq<
    DiagnosticView,
> {
    if is_skipped(line) {
        Seq::empty()
    } else {
        syntax_findings(line_idx, line, settings)
    }
}

// ---------------------------------------------------------------------------
// The rules, applied
// ---------------------------------------------------------------------------

/// Whether the analysis passes over the line.
pub fn skips_line(line: &[char]) -> (r: bool)
    ensures
        r == is_skipped(line@),
{
    let statement = trimmed(line);
    statement.len() == 0 || statement[0] == '#'
}

/// Whether `c` goes on with a word.
pub fn char_continues_word(c: char) -> (r: bool)
    ensures
        r == continues_word(c),
{
    let n: u32 = c as u32;
    (0x61 <= n && n <= 0x7A) || (0x41 <= n && n <= 0x5A) || (0x30 <= n && n <= 0x39) || n == 0x5F
}

/// Whether the leading token of `s` is `word`.
pub fn has_leading_word(s: &[char], word: &[char]) -> (r: bool)
    ensures
        r == leads_with(s@, word@),
{
    if !has_prefix(s, word) {
        return false;
    }
    s.len() == word.len() || !char_continues_word(s[word.len()])
}

/// Whether the leading token of `s` is one of `words`.
pub fn has_leading_word_of(s: &[char], words: &Vec<Vec<char>>) -> (r: bool)
    ensures
        r == leads_with_one_of(s@, word_views(words@)),
{
    let ghost views = word_views(words@);
    let mut i: usize = 0;
    while i < words.len()
        invariant
            i <= words.len(),
            views == word_views(words@),
            forall|j: int| 0 <= j < i ==> !leads_with(s@, #[trigger] views[j]),
        decreases words.len() - i,
    {
        let word = words[i].as_slice();
        assert(views[i as int] == word@);
        if has_leading_word(s, word) {
            return true;
        }
        i += 1;
    }
    false
}

/// Whether the leading token of a line, after any white space, is an
/// action.
pub fn is_action_line(line: &[char], vocabulary: &Vocabulary) -> (r: bool)
    ensures
        r == is_action_statement(trim_start(line@)),
{
    proof {
        use_type_invariant(vocabulary);
    }
    has_leading_word_of(trimmed_start(line), &vocabulary.actions)
}

/// Whether the statement on a line has a form that the language knows.
pub fn is_valid_sieve_statement(line: &[char], settings: &SieveSettings, vocabulary: &Vocabulary) -> (r:
    bool)
    ensures
        r == is_valid_statement(trim(line@), settings.proton_extensions),
{
    proof {
        use_type_invariant(vocabulary);
    }
    let statement = trimmed(line);
    if statement.len() == 0 || statement[0] == '#' {
        return true;
    }
    let none: Vec<char> = Vec::new();
    if begins_with_available(statement, &vocabulary.control, none.as_slice(), true) {
        assert(starts_with_available(statement@, control_keywords(), none@, true)
            == starts_with_one_of(statement@, control_keywords()));
        return true;
    }
    assert(starts_with_available(statement@, control_keywords(), none@, true)
        == starts_with_one_of(statement@, control_keywords()));
    let extended = settings.proton_extensions;
    let reserved_test = to_chars("currentdate");
    let reserved_action = to_chars("expire");
    holds_available(statement, &vocabulary.tests, reserved_test.as_slice(), extended)
        || begins_with_available(
        statement,
        &vocabulary.actions,
        reserved_action.as_slice(),
        extended,
    )
}

/// The range in line `line_idx` from index `from` to index `to` of `line`.
fn line_range(line_idx: usize, line: &[char], from: usize, to: usize) -> (range: Range)
    requires
        from <= to <= line@.len(),
    ensures
        range == range_in_line(line_idx as int, line@, from as int, to as int),
        range.well_formed(),
{
    proof {
        lemma_column_monotonic(line@, from as int, to as int);
    }
    let row = clamp_to_u32(line_idx);
    Range {
        start: Position { line: row, character: column_of(line, from) },
        end: Position { line: row, character: column_of(line, to) },
    }
}

/// The text `head`, `middle`, `tail` as one string.
fn join(head: &str, middle: &[char], tail: &str) -> (s: String)
    ensures
        s@ == head@ + middle@ + tail@,
{
    let mut chars = to_chars(head);
    let mut i: usize = 0;
    while i < middle.len()
        invariant
            i <= middle.len(),
            chars@ == head@ + middle@.take(i as int),
        decreases middle.len() - i,
    {
        chars.push(middle[i]);
        i += 1;
        assert(middle@.take(i as int) == middle@.take(i - 1).push(middle@[i - 1]));
    }
    assert(middle@.take(middle.len() as int) == middle@);
    let tail_chars = to_chars(tail);
    let mut j: usize = 0;
    while j < tail_chars.len()
        invariant
            j <= tail_chars.len(),
            tail_chars@ == tail@,
            chars@ == head@ + middle@ + tail@.take(j as int),
        decreases tail_chars.len() - j,
    {
        chars.push(tail_chars[j]);
        j += 1;
        assert(tail@.take(j as int) == tail@.take(j - 1).push(tail@[j - 1]));
    }
    assert(tail@.take(tail_chars.len() as int) == tail@);
    to_string(chars.as_slice())
}

/// Appends one finding for each place where `keyword` stands in the line.
fn report_keyword(
    diagnostics: &mut Vec<Diagnostic>,
    line_idx: usize,
    line: &[char],
    keyword: &[char],
)
    ensures
        diagnostic_views(final(diagnostics)@) == diagnostic_views(old(diagnostics)@)
            + keyword_findings(line_idx as int, line@, keyword@),
{
    let ghost before = diagnostic_views(diagnostics@);
    let ghost places = occurrences(line@, keyword@);
    let ghost mut found: Seq<int> = Seq::empty();
    let n = line.len();
    let m = keyword.len();
    let mut from: usize = 0;
    assert(found + occurrences_from(line@, keyword@, 0) == places);
    assert(findings_at(line_idx as int, line@, keyword@, found) == Seq::<DiagnosticView>::empty());
    loop
        invariant_except_break
            found + occurrences_from(line@, keyword@, from as int) == places,
            diagnostic_views(diagnostics@) == before + findings_at(
                line_idx as int,
                line@,
                keyword@,
                found,
            ),
        invariant
            n == line@.len(),
            m == keyword@.len(),
            from <= n,
        ensures
            diagnostic_views(diagnostics@) == before + findings_at(
                line_idx as int,
                line@,
                keyword@,
                places,
            ),
        decreases n - from,
    {
        match find_from(line, keyword, from) {
            None => {
                proof {
                    lemma_no_occurrence(line@, keyword@, from as int);
                    assert(found + Seq::<int>::empty() == found);
                }
                break ;
            },
            Some(at) => {
                proof {
                    lemma_first_occurrence(line@, keyword@, from as int, at as int);
                }
                let range = line_range(line_idx, line, at, at + m);
                let d = Diagnostic::new(
                    range,
                    DiagnosticSeverity::Warning,
                    "extension-disabled",
                    "https://proton.me/support/sieve-advanced-custom-filters",
                    join("Proton extension '", keyword, "' is disabled in settings"),
                );
                let ghost old_list = diagnostics@;
                diagnostics.push(d);
                proof {
                    assert(diagnostic_views(diagnostics@) == diagnostic_views(old_list).push(d@));
                    assert(d@ == extension_disabled(line_idx as int, line@, keyword@, at as int));
                    assert(findings_at(line_idx as int, line@, keyword@, found.push(at as int))
                        == findings_at(line_idx as int, line@, keyword@, found).push(d@));
                    assert(found.push(at as int) + occurrences_from(line@, keyword@, at + 1)
                        == found + (seq![at as int] + occurrences_from(line@, keyword@, at + 1)));
                    found = found.push(at as int);
                }
                if at == n {
                    proof {
                        assert(occurrences_from(line@, keyword@, at + 1) == Seq::<int>::empty());
                        assert(found + Seq::<int>::empty() == found);
                    }
                    break ;
                }
                from = at + 1;
            },
        }
    }
}

/// Where `p` stands nowhere at or after `from`, nothing is listed.
proof fn lemma_no_occurrence(s: Seq<char>, p: Seq<char>, from: int)
    requires
        0 <= from,
        forall|k: int| from <= k ==> !occurs_at(s, p, k),
    ensures
        occurrences_from(s, p, from) == Seq::<int>::empty(),
    decreases s.len() - from + 1,
{
    if from + p.len() <= s.len() {
        lemma_no_occurrence(s, p, from + 1);
    }
}

/// Where `at` is the first place at or after `from` where `p` stands, the
/// list from `from` begins with `at`.
proof fn lemma_first_occurrence(s: Seq<char>, p: Seq<char>, from: int, at: int)
    requires
        0 <= from <= at,
        occurs_at(s, p, at),
        forall|k: int| from <= k < at ==> !occurs_at(s, p, k),
    ensures
        occurrences_from(s, p, from) == seq![at] + occurrences_from(s, p, at + 1),
    decreases at - from,
{
    if from < at {
        lemma_first_occurrence(s, p, from + 1, at);
    }
}

/// Applies the three rules to a line that is not passed over, and appends
/// what they find.
pub fn check_line_syntax(
    diagnostics: &mut Vec<Diagnostic>,
    line_idx: usize,
    line: &[char],
    settings: &SieveSettings,
    vocabulary: &Vocabulary,
)
    ensures
        diagnostic_views(final(diagnostics)@) == diagnostic_views(old(diagnostics)@)
            + syntax_findings(line_idx as int, line@, *settings),
{
    proof {
        use_type_invariant(vocabulary);
    }
    let ghost before = diagnostic_views(diagnostics@);
    let statement = trimmed(line);
    let terminated = has_last_char(statement, ';');
    proof {
        lemma_trim_idempotent(line@);
    }

    if is_action_line(statement, vocabulary) && !terminated {
        let last: usize = if line.len() > 0 {
            line.len() - 1
        } else {
            0
        };
        proof {
            lemma_action_statement_has_text(line@);
        }
        let d = Diagnostic::new(
            line_range(line_idx, line, last, line.len()),
            DiagnosticSeverity::Error,
            "missing-semicolon",
            "https://datatracker.ietf.org/doc/html/rfc5228#section-2.1",
            "Missing semicolon after action statement".to_owned(),
        );
        let ghost old_list = diagnostics@;
        diagnostics.push(d);
        assert(diagnostic_views(diagnostics@) == diagnostic_views(old_list).push(d@));
    }
    assert(diagnostic_views(diagnostics@) == before + termination_findings(
        line_idx as int,
        line@,
    ));

    if terminated && !is_valid_sieve_statement(statement, settings, vocabulary) {
        let d = Diagnostic::new(
            line_range(line_idx, line, 0, line.len()),
            DiagnosticSeverity::Error,
            "invalid-syntax",
            "https://datatracker.ietf.org/doc/html/rfc5228#section-8",
            "Invalid Sieve statement syntax".to_owned(),
        );
        let ghost old_list = diagnostics@;
        diagnostics.push(d);
        assert(diagnostic_views(diagnostics@) == diagnostic_views(old_list).push(d@));
    }
    let ghost after_validity = before + termination_findings(line_idx as int, line@)
        + validity_findings(line_idx as int, line@, settings.proton_extensions);
    assert(diagnostic_views(diagnostics@) == after_validity);

    if !settings.proton_extensions {
        let ghost keywords = extended_keywords();
        let mut k: usize = 0;
        assert(keywords_findings(line_idx as int, line@, keywords, 0) == dialect_findings(
            line_idx as int,
            line@,
            false,
        ));
        let ghost mut done: Seq<DiagnosticView> = Seq::empty();
        while k < vocabulary.extended.len()
            invariant
                k <= vocabulary.extended.len(),
                keywords == extended_keywords(),
                word_views(vocabulary.extended@) == keywords,
                diagnostic_views(diagnostics@) == after_validity + done,
                done + keywords_findings(line_idx as int, line@, keywords, k as int)
                    == dialect_findings(line_idx as int, line@, false),
            decreases vocabulary.extended.len() - k,
        {
            let keyword = vocabulary.extended[k].as_slice();
            assert(keywords[k as int] == keyword@);
            report_keyword(diagnostics, line_idx, line, keyword);
            proof {
                let here = keyword_findings(line_idx as int, line@, keyword@);
                assert((done + here) + keywords_findings(line_idx as int, line@, keywords, k + 1)
                    == done + keywords_findings(line_idx as int, line@, keywords, k as int));
                assert(after_validity + done + here == after_validity + (done + here));
                done = done + here;
            }
            k += 1;
        }
        assert(done + Seq::<DiagnosticView>::empty() == done);
    } else {
        assert(after_validity + Seq::<DiagnosticView>::empty() == after_validity);
    }
}

/// Every action has at least one character, and none begins like a comment.
pub proof fn lemma_actions_have_text()
    ensures
        forall|i: int|
            0 <= i < action_names().len() ==> (#[trigger] action_names()[i]).len() > 0
                && action_names()[i][0] != '#',
{
    reveal_strlit("discard");
    reveal_strlit("fileinto");
    reveal_strlit("keep");
    reveal_strlit("redirect");
    reveal_strlit("reject");
    reveal_strlit("stop");
    reveal_strlit("addflag");
    reveal_strlit("removeflag");
    reveal_strlit("setflag");
    reveal_strlit("vacation");
    reveal_strlit("notify");
    reveal_strlit("denotify");
    reveal_strlit("expire");
}

/// A line whose leading token is an action has at least one character and
/// is not passed over.
pub proof fn lemma_action_statement_has_text(line: Seq<char>)
    requires
        is_action_statement(trim(line)),
    ensures
        trim(line).len() > 0,
        line.len() > 0,
        !is_skipped(line),
{
    lemma_actions_have_text();
    crate::text::lemma_trim_bounds(line);
    let statement = trim(line);
    let i = choose|i: int|
        0 <= i < action_names().len() && leads_with(statement, #[trigger] action_names()[i]);
    let action = action_names()[i];
    assert(statement.subrange(0, action.len() as int)[0] == action[0]);
}

/// The four kinds of finding have four different codes.
pub proof fn lemma_codes_differ()
    ensures
        "missing-semicolon"@ != "invalid-syntax"@,
        "missing-semicolon"@ != "extension-disabled"@,
        "missing-semicolon"@ != "missing-require"@,
        "invalid-syntax"@ != "extension-disabled"@,
        "invalid-syntax"@ != "missing-require"@,
        "extension-disabled"@ != "missing-require"@,
{
    reveal_strlit("missing-semicolon");
    reveal_strlit("invalid-syntax");
    reveal_strlit("extension-disabled");
    reveal_strlit("missing-require");
    assert("missing-semicolon"@.len() == 17);
    assert("invalid-syntax"@.len() == 14);
    assert("extension-disabled"@.len() == 18);
    assert("missing-require"@.len() == 15);
}

/// Every finding of the dialect rule is a warning with the code
/// `extension-disabled`.
pub proof fn lemma_keywords_findings_kind(
    line_idx: int,
    line: Seq<char>,
    keywords: Seq<Seq<char>>,
    k: int,
)
    ensures
        forall|j: int|
            0 <= j < keywords_findings(line_idx, line, keywords, k).len() ==> (
            #[trigger] keywords_findings(line_idx, line, keywords, k)[j]).code
                == "extension-disabled"@ && keywords_findings(line_idx, line, keywords, k)[j].severity
                == DiagnosticSeverity::Warning,
    decreases keywords.len() - k,
{
    if 0 <= k < keywords.len() {
        lemma_keywords_findings_kind(line_idx, line, keywords, k + 1);
    }
}

/// A range inside a line ends at or after its start.
pub proof fn lemma_range_in_line(line_idx: int, line: Seq<char>, from: int, to: int)
    requires
        0 <= from <= to <= line.len(),
    ensures
        range_in_line(line_idx, line, from, to).well_formed(),
{
    lemma_column_monotonic(line, from, to);
}

/// The range of every finding of the dialect rule ends at or after its
/// start.
pub proof fn lemma_keywords_findings_ranges(
    line_idx: int,
    line: Seq<char>,
    keywords: Seq<Seq<char>>,
    k: int,
)
    ensures
        forall|j: int|
            0 <= j < keywords_findings(line_idx, line, keywords, k).len() ==> (
            #[trigger] keywords_findings(line_idx, line, keywords, k)[j]).range.well_formed(),
    decreases keywords.len() - k,
{
    if 0 <= k < keywords.len() {
        lemma_keywords_findings_ranges(line_idx, line, keywords, k + 1);
        let keyword = keywords[k];
        let places = occurrences(line, keyword);
        let here = keyword_findings(line_idx, line, keyword);
        let rest = keywords_findings(line_idx, line, keywords, k + 1);
        crate::text::lemma_occurrences_from(line, keyword, 0);
        assert forall|j: int| 0 <= j < here.len() implies (#[trigger] here[j]).range.well_formed() by {
            assert(occurs_at(line, keyword, places[j]));
            lemma_range_in_line(line_idx, line, places[j], places[j] + keyword.len());
        }
        let all = keywords_findings(line_idx, line, keywords, k);
        assert(all == here + rest);
        assert forall|j: int| 0 <= j < all.len() implies (#[trigger] all[j]).range.well_formed() by {
            if j < here.len() {
                assert(all[j] == here[j]);
            } else {
                assert(all[j] == rest[j - here.len()]);
            }
        }
    }
}

/// The range of every finding on a line ends at or after its start.
pub proof fn lemma_line_findings_ranges(line_idx: int, line: Seq<char>, settings: SieveSettings)
    ensures
        forall|j: int|
            0 <= j < line_findings(line_idx, line, settings).len() ==> (#[trigger] line_findings(
                line_idx,
                line,
                settings,
            )[j]).range.well_formed(),
{
    let found = line_findings(line_idx, line, settings);
    if !is_skipped(line) {
        let extended = settings.proton_extensions;
        let first = termination_findings(line_idx, line);
        let second = validity_findings(line_idx, line, extended);
        let third = dialect_findings(line_idx, line, extended);
        if first.len() > 0 {
            lemma_action_statement_has_text(line);
            lemma_range_in_line(line_idx, line, line.len() - 1, line.len() as int);
        }
        lemma_range_in_line(line_idx, line, 0, line.len() as int);
        lemma_keywords_findings_ranges(line_idx, line, extended_keywords(), 0);
        assert(found == first + second + third);
        assert forall|j: int| 0 <= j < found.len() implies (#[trigger] found[j]).range.well_formed() by {
            if j < first.len() {
                assert(found[j] == first[j]);
            } else if j < first.len() + second.len() {
                assert(found[j] == second[j - first.len()]);
            } else {
                assert(found[j] == third[j - first.len() - second.len()]);
            }
        }
    }
}

/// The termination rule, where it does not apply. On a line whose leading
/// token is no action, no finding has the code `missing-semicolon`,
/// whatever the line ends with.
pub proof fn lemma_no_semicolon_asked(line_idx: int, line: Seq<char>, settings: SieveSettings)
    requires
        !is_action_statement(trim(line)),
    ensures
        forall|j: int|
            0 <= j < line_findings(line_idx, line, settings).len() ==> (#[trigger] line_findings(
                line_idx,
                line,
                settings,
            )[j]).code != "missing-semicolon"@,
{
    lemma_codes_differ();
    let extended = settings.proton_extensions;
    lemma_keywords_findings_kind(line_idx, line, extended_keywords(), 0);
    let found = line_findings(line_idx, line, settings);
    if !is_skipped(line) {
        let first = termination_findings(line_idx, line);
        let second = validity_findings(line_idx, line, extended);
        let third = dialect_findings(line_idx, line, extended);
        assert(found == first + second + third);
        assert forall|j: int| 0 <= j < found.len() implies (#[trigger] found[j]).code
            != "missing-semicolon"@ by {
            if j < second.len() {
                assert(found[j] == second[j]);
            } else {
                assert(found[j] == third[j - second.len()]);
            }
        }
    }
}

/// The termination rule. A line whose leading token is an action is looked
/// at. Where the statement ends with a semicolon, no finding on the line
/// has the code `missing-semicolon`. Where it does not, exactly one has:
/// the first, which stands at the last character of the line.
pub proof fn lemma_semicolon_after_action(line_idx: int, line: Seq<char>, settings: SieveSettings)
    requires
        is_action_statement(trim(line)),
    ensures
        !is_skipped(line),
        line.len() > 0,
        ends_with_char(trim(line), ';') ==> forall|j: int|
            0 <= j < line_findings(line_idx, line, settings).len() ==> (#[trigger] line_findings(
                line_idx,
                line,
                settings,
            )[j]).code != "missing-semicolon"@,
        !ends_with_char(trim(line), ';') ==> {
            &&& line_findings(line_idx, line, settings).len() > 0
            &&& line_findings(line_idx, line, settings)[0] == missing_semicolon(line_idx, line)
            &&& missing_semicolon(line_idx, line).range == range_in_line(
                line_idx,
                line,
                line.len() - 1,
                line.len() as int,
            )
            &&& forall|j: int|
                1 <= j < line_findings(line_idx, line, settings).len() ==> (
                #[trigger] line_findings(line_idx, line, settings)[j]).code
                    != "missing-semicolon"@
        },
{
    lemma_action_statement_has_text(line);
    lemma_codes_differ();
    let extended = settings.proton_extensions;
    lemma_keywords_findings_kind(line_idx, line, extended_keywords(), 0);
    let found = line_findings(line_idx, line, settings);
    let first = termination_findings(line_idx, line);
    let second = validity_findings(line_idx, line, extended);
    let third = dialect_findings(line_idx, line, extended);
    assert(found == first + second + third);
    assert forall|j: int| first.len() <= j < found.len() implies (#[trigger] found[j]).code
        != "missing-semicolon"@ by {
        if j < first.len() + second.len() {
            assert(found[j] == second[j - first.len()]);
        } else {
            assert(found[j] == third[j - first.len() - second.len()]);
        }
    }
}

/// The dialect rule. Where the extended dialect is off and one of its
/// keywords stands in a line that is looked at, a warning with the code
/// `extension-disabled` is among the findings on the line, and its range
/// is that of the keyword.
pub proof fn lemma_disabled_keyword_is_reported(
    line_idx: int,
    line: Seq<char>,
    settings: SieveSettings,
    keyword: Seq<char>,
    at: int,
)
    requires
        !settings.proton_extensions,
        !is_skipped(line),
        extended_keywords().contains(keyword),
        occurs_at(line, keyword, at),
    ensures
        line_findings(line_idx, line, settings).contains(
            extension_disabled(line_idx, line, keyword, at),
        ),
        extension_disabled(line_idx, line, keyword, at).range == range_in_line(
            line_idx,
            line,
            at,
            at + keyword.len(),
        ),
        extension_disabled(line_idx, line, keyword, at).severity == DiagnosticSeverity::Warning,
        extension_disabled(line_idx, line, keyword, at).code == "extension-disabled"@,
{
    let wanted = extension_disabled(line_idx, line, keyword, at);
    let places = occurrences(line, keyword);
    crate::text::lemma_occurrences_from(line, keyword, 0);
    assert(places.contains(at));
    let p = choose|p: int| 0 <= p < places.len() && places[p] == at;
    let here = keyword_findings(line_idx, line, keyword);
    assert(here[p] == wanted);

    let keywords = extended_keywords();
    let first = keyword_findings(line_idx, line, keywords[0]);
    let second = keyword_findings(line_idx, line, keywords[1]);
    let third = dialect_findings(line_idx, line, false);
    assert(keywords_findings(line_idx, line, keywords, 2) == Seq::<DiagnosticView>::empty());
    assert(keywords_findings(line_idx, line, keywords, 1) == second + Seq::<
        DiagnosticView,
    >::empty());
    assert(third == first + (second + Seq::<DiagnosticView>::empty()));
    let k = choose|k: int| 0 <= k < keywords.len() && keywords[k] == keyword;
    let q = if k == 0 {
        p
    } else {
        first.len() + p
    };
    assert(third[q] == wanted);

    let found = line_findings(line_idx, line, settings);
    let before = termination_findings(line_idx, line) + validity_findings(line_idx, line, false);
    assert(found == before + third);
    assert(found[before.len() + q] == wanted);
}


/// Trimming what is trimmed changes nothing.
pub proof fn lemma_trim_idempotent(s: Seq<char>)
    ensures
        trim(trim(s)) == trim(s),
        trim_start(trim(s)) == trim(s),
{
    crate::text::lemma_trim_bounds(s);
    let t = trim(s);
    crate::text::lemma_trim_bounds(t);
    if t.len() > 0 {
        assert(crate::text::skip_space(t, 0) == 0);
        assert(crate::text::skip_space_back(t, t.len() as int) == t.len());
        assert(t.subrange(0, t.len() as int) == t);
    } else {
        assert(trim(t).len() == 0);
        assert(trim(t) =~= t);
        assert(trim_start(t) =~= t);
    }
}

} // verus!
