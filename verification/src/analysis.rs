//! The analysis of a whole script.
//!
//! The lines are taken in order and the rules applied to each. Along the
//! way the extensions that `require` statements declare and the extensions
//! that lines use are collected; at the end every extension that is used
//! and not declared is reported. The report never holds more findings than
//! the settings allow.

use crate::datastructures::SieveSettings;
use crate::diagnostic::{
    diagnostic_views, source_name, Diagnostic, DiagnosticSeverity, DiagnosticView, Position, Range,
};
use crate::require::{parse_require_statement, required_names, string_views};
use crate::rules::{
    check_line_syntax, contains_available, holds_available, is_skipped, line_findings, skips_line,
    syntax_findings, word_views, Vocabulary,
};
use crate::sieve::{extension_names, sieve_extensions};
use crate::text::{
    contains, has_prefix, lines, same_text, split_lines, starts_with, to_chars, to_string, trim,
    trimmed,
};
use vstd::prelude::*;

verus! {

// ---------------------------------------------------------------------------
// Which lines use which extension
// ---------------------------------------------------------------------------

/// The texts that betray the use of an extension. An extension without
/// such texts is never found in use.
pub open spec fn usage_patterns(extension: Seq<char>) -> Seq<Seq<char>> {
    if extension == "body"@ {
        seq!["body "@]
    } else if extension == "regex"@ {
        seq![":regex"@]
    } else if extension == "fileinto"@ {
        seq!["fileinto"@]
    } else if extension == "vacation"@ {
        seq!["vacation"@]
    } else if extension == "copy"@ {
        seq![":copy"@]
    } else if extension == "date"@ {
        seq!["date "@, "currentdate"@]
    } else if extension == "relational"@ {
        seq![":value"@, ":count"@]
    } else if extension == "imap4flags"@ {
        seq!["addflag"@, "setflag"@, "removeflag"@]
    } else {
        Seq::empty()
    }
}

/// One of `patterns` stands somewhere in `s`.
pub open spec fn contains_one_of(s: Seq<char>, patterns: Seq<Seq<char>>) -> bool {
    exists|i: int| 0 <= i < patterns.len() && contains(s, #[trigger] patterns[i])
}

/// The line uses the extension: one of its usage patterns stands in it.
pub open spec fn uses_extension(line: Seq<char>, extension: Seq<char>) -> bool {
    contains_one_of(line, usage_patterns(extension))
}

/// The pattern list `[a]`.
fn one_pattern(a: &str) -> (patterns: Vec<Vec<char>>)
    ensures
        word_views(patterns@) == seq![a@],
{
    let patterns = vec![to_chars(a)];
    assert(word_views(patterns@) =~= seq![a@]);
    patterns
}

/// The texts that betray the use of `extension`.
pub fn usage_patterns_of(extension: &[char]) -> (patterns: Vec<Vec<char>>)
    ensures
        word_views(patterns@) == usage_patterns(extension@),
{
    if same_text(extension, to_chars("body").as_slice()) {
        one_pattern("body ")
    } else if same_text(extension, to_chars("regex").as_slice()) {
        one_pattern(":regex")
    } else if same_text(extension, to_chars("fileinto").as_slice()) {
        one_pattern("fileinto")
    } else if same_text(extension, to_chars("vacation").as_slice()) {
        one_pattern("vacation")
    } else if same_text(extension, to_chars("copy").as_slice()) {
        one_pattern(":copy")
    } else if same_text(extension, to_chars("date").as_slice()) {
        let patterns = vec![to_chars("date "), to_chars("currentdate")];
        assert(word_views(patterns@) =~= seq!["date "@, "currentdate"@]);
        patterns
    } else if same_text(extension, to_chars("relational").as_slice()) {
        let patterns = vec![to_chars(":value"), to_chars(":count")];
        assert(word_views(patterns@) =~= seq![":value"@, ":count"@]);
        patterns
    } else if same_text(extension, to_chars("imap4flags").as_slice()) {
        let patterns = vec![to_chars("addflag"), to_chars("setflag"), to_chars("removeflag")];
        assert(word_views(patterns@) =~= seq!["addflag"@, "setflag"@, "removeflag"@]);
        patterns
    } else {
        let patterns: Vec<Vec<char>> = Vec::new();
        assert(word_views(patterns@) =~= Seq::<Seq<char>>::empty());
        patterns
    }
}

/// Whether one of `patterns` stands somewhere in `s`.
pub fn holds_one_of(s: &[char], patterns: &Vec<Vec<char>>) -> (r: bool)
    ensures
        r == contains_one_of(s@, word_views(patterns@)),
{
    let none: Vec<char> = Vec::new();
    let r = holds_available(s, patterns, none.as_slice(), true);
    assert(contains_available(s@, word_views(patterns@), none@, true) == contains_one_of(
        s@,
        word_views(patterns@),
    ));
    r
}

/// Whether a line uses an extension.
pub fn line_uses_extension(line: &[char], extension: &str) -> (r: bool)
    ensures
        r == uses_extension(line@, extension@),
{
    let name = to_chars(extension);
    let patterns = usage_patterns_of(name.as_slice());
    holds_one_of(line, &patterns)
}

// ---------------------------------------------------------------------------
// What is declared and what is used
// ---------------------------------------------------------------------------

/// The names that a statement declares: those of its `require`, where it
/// begins with that keyword and has one of the two forms.
pub open spec fn declared_by(statement: Seq<char>) -> Seq<Seq<char>> {
    if starts_with(statement, "require"@) {
        match required_names(statement) {
            Some(names) => names,
            None => Seq::empty(),
        }
    } else {
        Seq::empty()
    }
}

/// The list of extensions in use after a statement has been held against
/// the first `n` of `names`: each name that the statement uses and that the
/// list did not hold is added at its end.
pub open spec fn note_uses(
    used: Seq<Seq<char>>,
    statement: Seq<char>,
    names: Seq<Seq<char>>,
    n: int,
) -> Seq<Seq<char>>
    decreases n,
{
    if n <= 0 {
        used
    } else {
        let before = note_uses(used, statement, names, n - 1);
        if uses_extension(statement, names[n - 1]) && !before.contains(names[n - 1]) {
            before.push(names[n - 1])
        } else {
            before
        }
    }
}

/// The list of extensions in use after a statement: `used`, and then every
/// known extension that the statement uses and that `used` did not hold.
pub open spec fn used_after(used: Seq<Seq<char>>, statement: Seq<char>) -> Seq<Seq<char>> {
    note_uses(used, statement, extension_names(), extension_names().len() as int)
}

/// The finding that an extension is used and not declared. It is about the
/// script as a whole and stands at its very beginning.
pub open spec fn missing_require(name: Seq<char>) -> DiagnosticView {
    DiagnosticView {
        range: Range {
            start: Position { line: 0, character: 0 },
            end: Position { line: 0, character: 0 },
        },
        severity: DiagnosticSeverity::Warning,
        code: "missing-require"@,
        code_description: Some("https://datatracker.ietf.org/doc/html/rfc5228#section-3.2"@),
        source: source_name(),
        message: "Extension '"@ + name + "' is used but not required"@,
    }
}

/// One finding for each of the first `n` of `used` that `required` does not
/// hold, in the order of `used`.
pub open spec fn missing_requires(
    required: Seq<Seq<char>>,
    used: Seq<Seq<char>>,
    n: int,
) -> Seq<DiagnosticView>
    decreases n,
{
    if n <= 0 {
        Seq::empty()
    } else {
        let before = missing_requires(required, used, n - 1);
        if required.contains(used[n - 1]) {
            before
        } else {
            before.push(missing_require(used[n - 1]))
        }
    }
}

/// The findings of the consistency rule: one for each extension in use
/// that is not declared.
pub open spec fn consistency_findings(required: Seq<Seq<char>>, used: Seq<Seq<char>>) -> Seq<
    DiagnosticView,
> {
    missing_requires(required, used, used.len() as int)
}

// ---------------------------------------------------------------------------
// The whole script, stated
// ---------------------------------------------------------------------------

/// What the line rules find in the first `n` lines, line by line.
pub open spec fn findings_in(lines: Seq<Seq<char>>, settings: SieveSettings, n: int) -> Seq<
    DiagnosticView,
>
    decreases n,
{
    if n <= 0 {
        Seq::empty()
    } else {
        findings_in(lines, settings, n - 1) + line_findings(n - 1, lines[n - 1], settings)
    }
}

/// The names that the first `n` lines declare, in the order in which they
/// stand. A name that is declared twice stands twice.
pub open spec fn required_in(lines: Seq<Seq<char>>, n: int) -> Seq<Seq<char>>
    decreases n,
{
    if n <= 0 {
        Seq::empty()
    } else if is_skipped(lines[n - 1]) {
        required_in(lines, n - 1)
    } else {
        required_in(lines, n - 1) + declared_by(trim(lines[n - 1]))
    }
}

/// The extensions that the first `n` lines use, each once, in the order of
/// their first use.
pub open spec fn used_in(lines: Seq<Seq<char>>, n: int) -> Seq<Seq<char>>
    decreases n,
{
    if n <= 0 {
        Seq::empty()
    } else if is_skipped(lines[n - 1]) {
        used_in(lines, n - 1)
    } else {
        used_after(used_in(lines, n - 1), trim(lines[n - 1]))
    }
}

/// Everything that the analysis finds in a script: what the line rules find,
/// line by line, and then, where the settings ask for it, what the
/// consistency rule finds.
pub open spec fn all_findings(script: Seq<char>, settings: SieveSettings) -> Seq<DiagnosticView> {
    let lines = lines(script);
    let n = lines.len() as int;
    if settings.semantic_analysis {
        findings_in(lines, settings, n) + consistency_findings(
            required_in(lines, n),
            used_in(lines, n),
        )
    } else {
        findings_in(lines, settings, n)
    }
}

/// The first `limit` of `findings`, or all of them where there are fewer.
pub open spec fn limited(findings: Seq<DiagnosticView>, limit: int) -> Seq<DiagnosticView> {
    if findings.len() <= limit {
        findings
    } else if limit <= 0 {
        Seq::empty()
    } else {
        findings.take(limit)
    }
}

/// What the analysis reports on a script: its findings, in order, up to
/// the number that the settings allow.
pub open spec fn report(script: Seq<char>, settings: SieveSettings) -> Seq<DiagnosticView> {
    limited(all_findings(script, settings), settings.max_errors as int)
}

// ---------------------------------------------------------------------------
// The whole script, analysed
// ---------------------------------------------------------------------------

/// The known extensions with the texts that betray their use, built once
/// for a run.
pub struct UsageTable {
    names: Vec<String>,
    patterns: Vec<Vec<Vec<char>>>,
}

/// Every known extension with the texts that betray its use, in the order
/// of the table of extensions.
pub open spec fn known_usages() -> Seq<(Seq<char>, Seq<Seq<char>>)> {
    Seq::new(
        extension_names().len(),
        |i: int| (extension_names()[i], usage_patterns(extension_names()[i])),
    )
}

impl View for UsageTable {
    type V = Seq<(Seq<char>, Seq<Seq<char>>)>;

    closed spec fn view(&self) -> Seq<(Seq<char>, Seq<Seq<char>>)> {
        Seq::new(
            self.names@.len(),
            |i: int| (self.names@[i]@, word_views(self.patterns@[i]@)),
        )
    }
}

impl UsageTable {
    /// The table holds the known extensions in their order, each with its
    /// usage patterns.
    #[verifier::type_invariant]
    spec fn well_formed(self) -> bool {
        &&& string_views(self.names@) == extension_names()
        &&& self.patterns@.len() == self.names@.len()
        &&& forall|i: int|
            0 <= i < self.patterns@.len() ==> word_views((#[trigger] self.patterns@[i])@)
                == usage_patterns(extension_names()[i])
    }

    /// The table of the known extensions: each with its usage patterns.
    pub fn new() -> (table: UsageTable)
        ensures
            table@ == known_usages(),
    {
        let extensions = sieve_extensions();
        let mut names: Vec<String> = Vec::new();
        let mut patterns: Vec<Vec<Vec<char>>> = Vec::new();
        let mut i: usize = 0;
        while i < extensions.len()
            invariant
                i <= extensions.len(),
                extensions@.len() == extension_names().len(),
                forall|j: int|
                    0 <= j < extensions@.len() ==> (#[trigger] extensions@[j]).0@
                        == extension_names()[j],
                names@.len() == i,
                patterns@.len() == i,
                forall|j: int| 0 <= j < i ==> (#[trigger] names@[j])@ == extension_names()[j],
                forall|j: int|
                    0 <= j < i ==> word_views((#[trigger] patterns@[j])@) == usage_patterns(
                        extension_names()[j],
                    ),
            decreases extensions.len() - i,
        {
            let name = extensions[i].0;
            let chars = to_chars(name);
            patterns.push(usage_patterns_of(chars.as_slice()));
            names.push(name.to_owned());
            i += 1;
        }
        assert(string_views(names@) =~= extension_names());
        let table = UsageTable { names, patterns };
        assert(table@ =~= known_usages());
        table
    }
}

/// Whether `names` holds `name`.
fn holds_name(names: &Vec<String>, name: &String) -> (r: bool)
    ensures
        r == string_views(names@).contains(name@),
{
    let ghost views = string_views(names@);
    let mut i: usize = 0;
    while i < names.len()
        invariant
            i <= names.len(),
            views == string_views(names@),
            forall|j: int| 0 <= j < i ==> views[j] != name@,
        decreases names.len() - i,
    {
        assert(views[i as int] == names@[i as int]@);
        if names[i] == *name {
            return true;
        }
        i += 1;
    }
    false
}

/// Notes what a line declares and what it uses: the names of its `require`
/// statement are added to `required_extensions`, and each known extension
/// that the line uses and that `used_extensions` did not hold is added to
/// that.
pub fn analyze_extensions(
    line: &[char],
    required_extensions: &mut Vec<String>,
    used_extensions: &mut Vec<String>,
    table: &UsageTable,
)
    ensures
        string_views(final(required_extensions)@) == string_views(old(required_extensions)@)
            + declared_by(trim(line@)),
        string_views(final(used_extensions)@) == used_after(
            string_views(old(used_extensions)@),
            trim(line@),
        ),
{
    proof {
        use_type_invariant(table);
    }
    let statement = trimmed(line);
    let ghost required_before = string_views(required_extensions@);
    let ghost used_before = string_views(used_extensions@);

    if has_prefix(statement, to_chars("require").as_slice()) {
        let text = to_string(statement);
        match parse_require_statement(text.as_str()) {
            Some(mut names) => {
                let ghost declared = string_views(names@);
                let ghost before = required_extensions@;
                required_extensions.append(&mut names);
                assert(string_views(required_extensions@) =~= string_views(before) + declared);
            },
            None => {
                assert(required_before + Seq::<Seq<char>>::empty() == required_before);
            },
        }
    } else {
        assert(required_before + Seq::<Seq<char>>::empty() == required_before);
    }

    let ghost known = extension_names();
    let mut i: usize = 0;
    while i < table.names.len()
        invariant
            i <= table.names.len(),
            known == extension_names(),
            statement@ == trim(line@),
            string_views(table.names@) == known,
            table.patterns@.len() == table.names@.len(),
            forall|j: int|
                0 <= j < table.patterns@.len() ==> word_views((#[trigger] table.patterns@[j])@)
                    == usage_patterns(known[j]),
            string_views(used_extensions@) == note_uses(used_before, statement@, known, i as int),
        decreases table.names.len() - i,
    {
        let name = &table.names[i];
        assert(known[i as int] == name@);
        if holds_one_of(statement, &table.patterns[i]) && !holds_name(used_extensions, name) {
            let ghost before = used_extensions@;
            used_extensions.push(name.clone());
            assert(string_views(used_extensions@) =~= string_views(before).push(name@));
        }
        i += 1;
    }
}

/// The text `head`, `name`, `tail` as one string.
fn message_about(head: &str, name: &String, tail: &str) -> (s: String)
    ensures
        s@ == head@ + name@ + tail@,
{
    let mut s = head.to_owned();
    s.append(name.as_str());
    s.append(tail);
    s
}

/// Appends one finding for each extension that is used and not declared.
pub fn check_extension_consistency(
    diagnostics: &mut Vec<Diagnostic>,
    required_extensions: &Vec<String>,
    used_extensions: &Vec<String>,
)
    ensures
        diagnostic_views(final(diagnostics)@) == diagnostic_views(old(diagnostics)@)
            + consistency_findings(
            string_views(required_extensions@),
            string_views(used_extensions@),
        ),
{
    let ghost before = diagnostic_views(diagnostics@);
    let ghost required = string_views(required_extensions@);
    let ghost used = string_views(used_extensions@);
    let mut i: usize = 0;
    assert(before + missing_requires(required, used, 0) == before);
    while i < used_extensions.len()
        invariant
            i <= used_extensions.len(),
            required == string_views(required_extensions@),
            used == string_views(used_extensions@),
            diagnostic_views(diagnostics@) == before + missing_requires(required, used, i as int),
        decreases used_extensions.len() - i,
    {
        let name = &used_extensions[i];
        assert(used[i as int] == name@);
        if !holds_name(required_extensions, name) {
            let d = Diagnostic::new(
                Range {
                    start: Position { line: 0, character: 0 },
                    end: Position { line: 0, character: 0 },
                },
                DiagnosticSeverity::Warning,
                "missing-require",
                "https://datatracker.ietf.org/doc/html/rfc5228#section-3.2",
                message_about("Extension '", name, "' is used but not required"),
            );
            let ghost old_list = diagnostics@;
            diagnostics.push(d);
            proof {
                assert(diagnostic_views(diagnostics@) == diagnostic_views(old_list).push(d@));
                assert(d@ == missing_require(name@));
                let found = missing_requires(required, used, i as int);
                assert((before + found).push(d@) == before + found.push(d@));
            }
        }
        i += 1;
    }
}

/// What the line rules find in few lines, they find in more.
pub proof fn lemma_findings_in_grow(
    lines: Seq<Seq<char>>,
    settings: SieveSettings,
    m: int,
    n: int,
)
    requires
        0 <= m <= n,
    ensures
        findings_in(lines, settings, m).len() <= findings_in(lines, settings, n).len(),
        findings_in(lines, settings, n).take(findings_in(lines, settings, m).len() as int)
            == findings_in(lines, settings, m),
    decreases n - m,
{
    if m < n {
        lemma_findings_in_grow(lines, settings, m, n - 1);
        let shorter = findings_in(lines, settings, n - 1);
        let longer = findings_in(lines, settings, n);
        let head = findings_in(lines, settings, m);
        assert(longer == shorter + line_findings(n - 1, lines[n - 1], settings));
        assert(longer.take(head.len() as int) =~= shorter.take(head.len() as int));
    } else {
        let head = findings_in(lines, settings, m);
        assert(head.take(head.len() as int) =~= head);
    }
}

/// The findings on line `k` stand together among the findings of the
/// script, after those on the lines before it.
pub proof fn lemma_line_findings_in_place(script: Seq<char>, settings: SieveSettings, k: int)
    requires
        0 <= k < lines(script).len(),
    ensures
        ({
            let lines = lines(script);
            let from = findings_in(lines, settings, k).len() as int;
            let to = findings_in(lines, settings, k + 1).len() as int;
            &&& from <= to <= all_findings(script, settings).len()
            &&& all_findings(script, settings).subrange(from, to) == line_findings(
                k,
                lines[k],
                settings,
            )
        }),
{
    let ls = lines(script);
    let n = ls.len() as int;
    lemma_findings_in_grow(ls, settings, k + 1, n);
    let before = findings_in(ls, settings, k);
    let here = line_findings(k, ls[k], settings);
    let upto = findings_in(ls, settings, k + 1);
    let by_line = findings_in(ls, settings, n);
    let all = all_findings(script, settings);
    assert(upto == before + here);
    assert(by_line.take(upto.len() as int) == upto);
    assert(all.take(upto.len() as int) =~= upto);
    let part = all.subrange(before.len() as int, upto.len() as int);
    assert forall|j: int| 0 <= j < here.len() implies part[j] == here[j] by {
        assert(all.take(upto.len() as int)[before.len() + j] == upto[before.len() + j]);
    }
    assert(part =~= here);
}

/// The findings of the analysis on a script, in order: what the line rules
/// find, then what the consistency rule finds, cut off at the number that
/// the settings allow. Once that number is reached no further line is
/// looked at.
pub fn validate_text(script: &str, settings: &SieveSettings) -> (diagnostics: Vec<Diagnostic>)
    ensures
        diagnostic_views(diagnostics@) == report(script@, *settings),
        diagnostics@.len() <= settings.max_errors,
        forall|i: int| 0 <= i < diagnostics@.len() ==> (#[trigger] diagnostics@[i]).range.well_formed(),
{
    let vocabulary = Vocabulary::new();
    let table = UsageTable::new();
    let chars = to_chars(script);
    let lines = split_lines(chars.as_slice());
    let ghost texts = crate::text::lines(script@);
    let limit = settings.max_errors;

    let mut diagnostics: Vec<Diagnostic> = Vec::new();
    let mut required_extensions: Vec<String> = Vec::new();
    let mut used_extensions: Vec<String> = Vec::new();
    assert(diagnostic_views(diagnostics@) =~= findings_in(texts, *settings, 0));
    assert(string_views(required_extensions@) =~= required_in(texts, 0));
    assert(string_views(used_extensions@) =~= used_in(texts, 0));

    let mut i: usize = 0;
    while i < lines.len() && diagnostics.len() < limit
        invariant
            i <= lines.len(),
            limit == settings.max_errors,
            lines@.len() == texts.len(),
            forall|j: int| 0 <= j < lines@.len() ==> (#[trigger] lines@[j])@ == texts[j],
            diagnostic_views(diagnostics@) == findings_in(texts, *settings, i as int),
            settings.semantic_analysis ==> string_views(required_extensions@) == required_in(
                texts,
                i as int,
            ),
            settings.semantic_analysis ==> string_views(used_extensions@) == used_in(
                texts,
                i as int,
            ),
        decreases lines.len() - i,
    {
        let line = lines[i].as_slice();
        assert(line@ == texts[i as int]);
        if !skips_line(line) {
            check_line_syntax(&mut diagnostics, i, line, settings, &vocabulary);
            if settings.semantic_analysis {
                analyze_extensions(line, &mut required_extensions, &mut used_extensions, &table);
            }
        } else {
            assert(diagnostic_views(diagnostics@) + Seq::<DiagnosticView>::empty()
                == diagnostic_views(diagnostics@));
        }
        i += 1;
    }

    let ghost scanned = diagnostic_views(diagnostics@);
    let ghost n = texts.len() as int;
    proof {
        lemma_findings_in_grow(texts, *settings, i as int, n);
    }
    if settings.semantic_analysis && diagnostics.len() < limit {
        check_extension_consistency(&mut diagnostics, &required_extensions, &used_extensions);
    }
    let ghost all = all_findings(script@, *settings);
    let ghost gathered = diagnostic_views(diagnostics@);
    proof {
        if scanned.len() < limit {
            assert(i as int == n);
            assert(gathered == all);
        } else {
            // The limit was reached in the lines: what was gathered opens
            // the whole list and already fills the report.
            assert(gathered == scanned);
            let whole = findings_in(texts, *settings, n);
            assert(whole.take(scanned.len() as int) == scanned);
            assert(all.take(scanned.len() as int) =~= scanned);
            assert(gathered.take(limit as int) =~= all.take(limit as int));
        }
    }
    let ghost before_cut = diagnostics@;
    diagnostics.truncate(limit);
    proof {
        if limit <= before_cut.len() {
            assert(diagnostic_views(diagnostics@) =~= gathered.take(limit as int));
        }
        assert(diagnostic_views(diagnostics@) =~= limited(all, limit as int));
        lemma_ranges_are_well_formed(script@, *settings);
        assert forall|i: int| 0 <= i < diagnostics@.len() implies (
        #[trigger] diagnostics@[i]).range.well_formed() by {
            assert(diagnostic_views(diagnostics@)[i] == diagnostics@[i]@);
        }
    }
    diagnostics
}

// ---------------------------------------------------------------------------
// What holds of every report
// ---------------------------------------------------------------------------

/// `d` stands in `list` exactly once.
pub open spec fn occurs_once(list: Seq<DiagnosticView>, d: DiagnosticView) -> bool {
    exists|i: int|
        0 <= i < list.len() && #[trigger] list[i] == d && forall|j: int|
            0 <= j < list.len() && j != i ==> #[trigger] list[j] != d
}

/// A report never holds more findings than the settings allow, and it is
/// the beginning of the list of all findings.
pub proof fn lemma_report_is_limited(script: Seq<char>, settings: SieveSettings)
    ensures
        report(script, settings).len() <= settings.max_errors,
        report(script, settings).len() <= all_findings(script, settings).len(),
        report(script, settings) == all_findings(script, settings).take(
            report(script, settings).len() as int,
        ),
        all_findings(script, settings).len() <= settings.max_errors ==> report(script, settings)
            == all_findings(script, settings),
{
    let all = all_findings(script, settings);
    assert(all.take(all.len() as int) =~= all);
    assert(all.take(0) =~= Seq::<DiagnosticView>::empty());
}

/// The range of every finding of the analysis ends at or after its start.
pub proof fn lemma_ranges_are_well_formed(script: Seq<char>, settings: SieveSettings)
    ensures
        forall|j: int|
            0 <= j < all_findings(script, settings).len() ==> (#[trigger] all_findings(
                script,
                settings,
            )[j]).range.well_formed(),
        forall|j: int|
            0 <= j < report(script, settings).len() ==> (#[trigger] report(
                script,
                settings,
            )[j]).range.well_formed(),
{
    let ls = lines(script);
    let n = ls.len() as int;
    lemma_findings_in_ranges(ls, settings, n);
    let required = required_in(ls, n);
    let used = used_in(ls, n);
    lemma_missing_requires_ranges(required, used, used.len() as int);
    let by_line = findings_in(ls, settings, n);
    let by_use = consistency_findings(required, used);
    let all = all_findings(script, settings);
    assert forall|j: int| 0 <= j < all.len() implies (#[trigger] all[j]).range.well_formed() by {
        if settings.semantic_analysis {
            assert(all == by_line + by_use);
            if j < by_line.len() {
                assert(all[j] == by_line[j]);
            } else {
                assert(all[j] == by_use[j - by_line.len()]);
            }
        }
    }
    lemma_report_is_limited(script, settings);
    let shown = report(script, settings);
    assert forall|j: int| 0 <= j < shown.len() implies (#[trigger] shown[j]).range.well_formed() by {
        assert(shown[j] == all[j]);
    }
}

/// The range of every finding of the line rules ends at or after its start.
proof fn lemma_findings_in_ranges(lines: Seq<Seq<char>>, settings: SieveSettings, n: int)
    ensures
        forall|j: int|
            0 <= j < findings_in(lines, settings, n).len() ==> (#[trigger] findings_in(
                lines,
                settings,
                n,
            )[j]).range.well_formed(),
    decreases n,
{
    if n > 0 {
        lemma_findings_in_ranges(lines, settings, n - 1);
        crate::rules::lemma_line_findings_ranges(n - 1, lines[n - 1], settings);
        let before = findings_in(lines, settings, n - 1);
        let here = line_findings(n - 1, lines[n - 1], settings);
        let all = findings_in(lines, settings, n);
        assert(all == before + here);
        assert forall|j: int| 0 <= j < all.len() implies (#[trigger] all[j]).range.well_formed() by {
            if j < before.len() {
                assert(all[j] == before[j]);
            } else {
                assert(all[j] == here[j - before.len()]);
            }
        }
    }
}

/// The range of every finding of the consistency rule ends at or after its
/// start.
proof fn lemma_missing_requires_ranges(required: Seq<Seq<char>>, used: Seq<Seq<char>>, n: int)
    ensures
        forall|j: int|
            0 <= j < missing_requires(required, used, n).len() ==> (#[trigger] missing_requires(
                required,
                used,
                n,
            )[j]).range.well_formed(),
    decreases n,
{
    if n > 0 {
        lemma_missing_requires_ranges(required, used, n - 1);
    }
}

/// Findings on different extensions differ.
pub proof fn lemma_missing_require_tells_the_name(a: Seq<char>, b: Seq<char>)
    ensures
        missing_require(a) == missing_require(b) ==> a == b,
{
    if missing_require(a) == missing_require(b) {
        let head = "Extension '"@;
        let tail = "' is used but not required"@;
        let ma = head + a + tail;
        let mb = head + b + tail;
        assert(ma == mb);
        assert(ma.len() == head.len() + a.len() + tail.len());
        assert(mb.len() == head.len() + b.len() + tail.len());
        assert(ma.subrange(head.len() as int, (head.len() + a.len()) as int) =~= a);
        assert(mb.subrange(head.len() as int, (head.len() + b.len()) as int) =~= b);
    }
}

/// No finding of the line rules has the code `missing-require`.
pub proof fn lemma_line_rules_codes(lines: Seq<Seq<char>>, settings: SieveSettings, n: int)
    requires
        0 <= n <= lines.len(),
    ensures
        forall|j: int|
            0 <= j < findings_in(lines, settings, n).len() ==> (#[trigger] findings_in(
                lines,
                settings,
                n,
            )[j]).code != "missing-require"@,
    decreases n,
{
    if n > 0 {
        lemma_line_rules_codes(lines, settings, n - 1);
        crate::rules::lemma_codes_differ();
        let line = lines[n - 1];
        let extended = settings.proton_extensions;
        crate::rules::lemma_keywords_findings_kind(
            n - 1,
            line,
            crate::sieve::extended_keywords(),
            0,
        );
        let before = findings_in(lines, settings, n - 1);
        let here = line_findings(n - 1, line, settings);
        let first = crate::rules::termination_findings(n - 1, line);
        let second = crate::rules::validity_findings(n - 1, line, extended);
        let third = crate::rules::dialect_findings(n - 1, line, extended);
        assert forall|j: int| 0 <= j < here.len() implies (#[trigger] here[j]).code
            != "missing-require"@ by {
            assert(here == first + second + third);
            if j < first.len() {
                assert(here[j] == first[j]);
            } else if j < first.len() + second.len() {
                assert(here[j] == second[j - first.len()]);
            } else {
                assert(here[j] == third[j - first.len() - second.len()]);
            }
        }
        let all = findings_in(lines, settings, n);
        assert(all == before + here);
        assert forall|j: int| 0 <= j < all.len() implies (#[trigger] all[j]).code
            != "missing-require"@ by {
            if j < before.len() {
                assert(all[j] == before[j]);
            } else {
                assert(all[j] == here[j - before.len()]);
            }
        }
    }
}

/// What a statement adds to the list of extensions in use: the list keeps
/// what it held, holds nothing twice, and holds besides exactly those of
/// the first `n` names that the statement uses.
pub proof fn lemma_note_uses(
    used: Seq<Seq<char>>,
    statement: Seq<char>,
    names: Seq<Seq<char>>,
    n: int,
)
    requires
        used.no_duplicates(),
        0 <= n <= names.len(),
    ensures
        note_uses(used, statement, names, n).no_duplicates(),
        forall|x: Seq<char>|
            #[trigger] note_uses(used, statement, names, n).contains(x) <==> used.contains(x) || (
            uses_extension(statement, x) && names.take(n).contains(x)),
    decreases n,
{
    let after = note_uses(used, statement, names, n);
    if n <= 0 {
        assert(names.take(0) =~= Seq::<Seq<char>>::empty());
        assert forall|x: Seq<char>| #[trigger] after.contains(x) <==> used.contains(x) || (
        uses_extension(statement, x) && names.take(n).contains(x)) by {
            if names.take(n).contains(x) {
                let j = choose|j: int| 0 <= j < names.take(n).len() && names.take(n)[j] == x;
                assert(false);
            }
        }
    } else {
        lemma_note_uses(used, statement, names, n - 1);
        let before = note_uses(used, statement, names, n - 1);
        let name = names[n - 1];
        assert(names.take(n) =~= names.take(n - 1).push(name));
        assert forall|x: Seq<char>| #[trigger] after.contains(x) <==> used.contains(x) || (
        uses_extension(statement, x) && names.take(n).contains(x)) by {
            lemma_contains_push(names.take(n - 1), name, x);
            if uses_extension(statement, name) && !before.contains(name) {
                lemma_contains_push(before, name, x);
            }
        }
        if uses_extension(statement, name) && !before.contains(name) {
            lemma_push_no_duplicates(before, name);
        }
    }
}

/// A list with one more item holds what it held, and the item.
pub proof fn lemma_contains_push<A>(list: Seq<A>, item: A, x: A)
    ensures
        list.push(item).contains(x) <==> list.contains(x) || x == item,
{
    let longer = list.push(item);
    if list.contains(x) {
        let j = choose|j: int| 0 <= j < list.len() && list[j] == x;
        assert(longer[j] == x);
    }
    if x == item {
        assert(longer[list.len() as int] == x);
    }
    if longer.contains(x) {
        let j = choose|j: int| 0 <= j < longer.len() && longer[j] == x;
        if j < list.len() {
            assert(list[j] == x);
        }
    }
}

/// A list that holds nothing twice still does so with an item that it did
/// not hold.
pub proof fn lemma_push_no_duplicates<A>(list: Seq<A>, item: A)
    requires
        list.no_duplicates(),
        !list.contains(item),
    ensures
        list.push(item).no_duplicates(),
{
    let longer = list.push(item);
    assert forall|i: int, j: int| 0 <= i < longer.len() && 0 <= j < longer.len() && i != j implies longer[i]
        != longer[j] by {
        if i < list.len() && j < list.len() {
        } else if i < list.len() {
            assert(list[i] == longer[i]);
            assert(list.contains(list[i]));
        } else if j < list.len() {
            assert(list[j] == longer[j]);
            assert(list.contains(list[j]));
        }
    }
}

/// A line that is looked at uses the extension `name`.
pub open spec fn line_uses(line: Seq<char>, name: Seq<char>) -> bool {
    !is_skipped(line) && uses_extension(trim(line), name)
}

/// The extensions in use after `n` lines: the list holds nothing twice,
/// and it holds exactly the known extensions that one of those lines uses.
pub proof fn lemma_used_in(lines: Seq<Seq<char>>, n: int)
    requires
        0 <= n <= lines.len(),
    ensures
        used_in(lines, n).no_duplicates(),
        forall|x: Seq<char>|
            #[trigger] used_in(lines, n).contains(x) <==> extension_names().contains(x) && exists|
                k: int,
            |
                0 <= k < n && #[trigger] line_uses(lines[k], x),
    decreases n,
{
    let used = used_in(lines, n);
    let known = extension_names();
    if n <= 0 {
        assert forall|x: Seq<char>| #[trigger] used.contains(x) <==> known.contains(x) && exists|
            k: int,
        |
            0 <= k < n && #[trigger] line_uses(lines[k], x) by {
            if used.contains(x) {
                let j = choose|j: int| 0 <= j < used.len() && used[j] == x;
                assert(false);
            }
        }
    } else {
        lemma_used_in(lines, n - 1);
        let before = used_in(lines, n - 1);
        let line = lines[n - 1];
        if !is_skipped(line) {
            lemma_note_uses(before, trim(line), known, known.len() as int);
            assert(known.take(known.len() as int) =~= known);
        }
        assert forall|x: Seq<char>| #[trigger] used.contains(x) <==> known.contains(x) && exists|
            k: int,
        |
            0 <= k < n && #[trigger] line_uses(lines[k], x) by {
            if before.contains(x) {
                let k = choose|k: int| 0 <= k < n - 1 && #[trigger] line_uses(lines[k], x);
                assert(0 <= k < n && line_uses(lines[k], x));
            }
            if known.contains(x) && line_uses(line, x) {
                assert(line_uses(lines[n - 1], x));
            }
            if known.contains(x) && exists|k: int| 0 <= k < n && #[trigger] line_uses(lines[k], x) {
                let k = choose|k: int| 0 <= k < n && #[trigger] line_uses(lines[k], x);
                if k < n - 1 {
                    assert(line_uses(lines[k], x));
                    assert(before.contains(x));
                }
            }
        }
    }
}

/// The findings of the consistency rule on the first `n` extensions in
/// use: each is about one of them that is not declared; an extension among
/// them that is not declared has exactly one finding, and any other name
/// has none.
pub proof fn lemma_missing_requires(
    required: Seq<Seq<char>>,
    used: Seq<Seq<char>>,
    n: int,
    name: Seq<char>,
)
    requires
        used.no_duplicates(),
        0 <= n <= used.len(),
    ensures
        forall|j: int|
            0 <= j < missing_requires(required, used, n).len() ==> (#[trigger] missing_requires(
                required,
                used,
                n,
            )[j]).code == "missing-require"@,
        used.take(n).contains(name) && !required.contains(name) ==> occurs_once(
            missing_requires(required, used, n),
            missing_require(name),
        ),
        !(used.take(n).contains(name) && !required.contains(name)) ==> !missing_requires(
            required,
            used,
            n,
        ).contains(missing_require(name)),
    decreases n,
{
    let found = missing_requires(required, used, n);
    let wanted = missing_require(name);
    if n <= 0 {
        assert(used.take(0) =~= Seq::<Seq<char>>::empty());
        if used.take(n).contains(name) {
            let j = choose|j: int| 0 <= j < used.take(n).len() && used.take(n)[j] == name;
            assert(false);
        }
        if found.contains(wanted) {
            let j = choose|j: int| 0 <= j < found.len() && found[j] == wanted;
            assert(false);
        }
    } else {
        lemma_missing_requires(required, used, n - 1, name);
        let before = missing_requires(required, used, n - 1);
        let last = used[n - 1];
        assert(used.take(n) =~= used.take(n - 1).push(last));
        lemma_contains_push(used.take(n - 1), last, name);
        lemma_missing_require_tells_the_name(last, name);
        if used.take(n - 1).contains(name) {
            // `name` stood among the earlier ones, so it is not the last.
            let earlier = used.take(n - 1);
            let j = choose|j: int| 0 <= j < earlier.len() && earlier[j] == name;
            assert(used[j] == name);
            assert(last != name);
        }
        if required.contains(last) {
            assert(found == before);
        } else {
            assert(found == before.push(missing_require(last)));
            lemma_contains_push(before, missing_require(last), wanted);
            if last == name {
                // The new finding is the one wanted, and the only one.
                assert(!before.contains(wanted));
                let i = before.len() as int;
                assert(found[i] == wanted);
                assert forall|j: int| 0 <= j < found.len() && j != i implies #[trigger] found[j]
                    != wanted by {
                    assert(found[j] == before[j]);
                    if before[j] == wanted {
                        assert(before.contains(wanted));
                    }
                }
            } else if used.take(n - 1).contains(name) && !required.contains(name) {
                // The wanted finding stays where it was; the new one is another.
                let i = choose|i: int|
                    0 <= i < before.len() && #[trigger] before[i] == wanted && forall|j: int|
                        0 <= j < before.len() && j != i ==> #[trigger] before[j] != wanted;
                assert(found[i] == wanted);
                assert forall|j: int| 0 <= j < found.len() && j != i implies #[trigger] found[j]
                    != wanted by {
                    if j < before.len() {
                        assert(found[j] == before[j]);
                    }
                }
            }
        }
    }
}

/// The consistency rule. Where the extensions are held against the
/// `require` statements and a line that is looked at uses a known
/// extension: if no `require` declares the extension, exactly one finding
/// of the script is the one that names it as used and not declared; if a
/// `require` declares it, no finding is. As long as the findings are no
/// more than the settings allow, the report is the list of all findings.
pub proof fn lemma_undeclared_use_is_reported_once(
    script: Seq<char>,
    settings: SieveSettings,
    name: Seq<char>,
)
    requires
        settings.semantic_analysis,
        extension_names().contains(name),
        exists|k: int| 0 <= k < lines(script).len() && #[trigger] line_uses(lines(script)[k], name),
    ensures
        !required_in(lines(script), lines(script).len() as int).contains(name) ==> occurs_once(
            all_findings(script, settings),
            missing_require(name),
        ),
        required_in(lines(script), lines(script).len() as int).contains(name) ==> !all_findings(
            script,
            settings,
        ).contains(missing_require(name)),
        all_findings(script, settings).len() <= settings.max_errors ==> report(script, settings)
            == all_findings(script, settings),
{
    let ls = lines(script);
    let n = ls.len() as int;
    let required = required_in(ls, n);
    let used = used_in(ls, n);
    let wanted = missing_require(name);
    lemma_used_in(ls, n);
    assert(used.contains(name));
    assert(used.take(used.len() as int) =~= used);
    lemma_missing_requires(required, used, used.len() as int, name);
    lemma_line_rules_codes(ls, settings, n);
    let by_line = findings_in(ls, settings, n);
    let by_use = consistency_findings(required, used);
    let all = all_findings(script, settings);
    assert(all == by_line + by_use);
    assert forall|j: int| 0 <= j < by_line.len() implies #[trigger] all[j] != wanted by {
        assert(all[j] == by_line[j]);
    }
    if !required.contains(name) {
        let i = choose|i: int|
            0 <= i < by_use.len() && #[trigger] by_use[i] == wanted && forall|j: int|
                0 <= j < by_use.len() && j != i ==> #[trigger] by_use[j] != wanted;
        let at = by_line.len() + i;
        assert(all[at] == wanted);
        assert forall|j: int| 0 <= j < all.len() && j != at implies #[trigger] all[j] != wanted by {
            if j >= by_line.len() {
                assert(all[j] == by_use[j - by_line.len()]);
            }
        }
    } else {
        if all.contains(wanted) {
            let j = choose|j: int| 0 <= j < all.len() && all[j] == wanted;
            assert(j >= by_line.len());
            assert(by_use[j - by_line.len()] == wanted);
            assert(by_use.contains(wanted));
        }
    }
    lemma_report_is_limited(script, settings);
}

/// The `body` extension is known, and a statement uses it exactly where
/// `body`, followed by a space, stands in it.
pub proof fn lemma_body_extension(statement: Seq<char>)
    ensures
        extension_names().contains("body"@),
        uses_extension(statement, "body"@) == contains(statement, "body "@),
{
    assert(extension_names()[0] == "body"@);
    let patterns = usage_patterns("body"@);
    assert(patterns == seq!["body "@]);
    if contains(statement, "body "@) {
        assert(contains(statement, patterns[0]));
    }
}

/// The consistency rule, for the tests on the body of a message. Where the
/// extensions are held against the `require` statements and `body`,
/// followed by a space, stands in a line that is looked at: if no
/// `require` declares `body`, exactly one finding of the script says so;
/// if one does, none.
pub proof fn lemma_body_without_require(script: Seq<char>, settings: SieveSettings, k: int)
    requires
        settings.semantic_analysis,
        0 <= k < lines(script).len(),
        !is_skipped(lines(script)[k]),
        contains(trim(lines(script)[k]), "body "@),
    ensures
        !required_in(lines(script), lines(script).len() as int).contains("body"@) ==> occurs_once(
            all_findings(script, settings),
            missing_require("body"@),
        ),
        required_in(lines(script), lines(script).len() as int).contains("body"@) ==> !all_findings(
            script,
            settings,
        ).contains(missing_require("body"@)),
{
    lemma_body_extension(trim(lines(script)[k]));
    assert(line_uses(lines(script)[k], "body"@));
    lemma_undeclared_use_is_reported_once(script, settings, "body"@);
}

/// What a line that is looked at declares is among the names declared.
pub proof fn lemma_required_in_holds(lines: Seq<Seq<char>>, n: int, k: int, name: Seq<char>)
    requires
        0 <= k < n <= lines.len(),
        !is_skipped(lines[k]),
        declared_by(trim(lines[k])).contains(name),
    ensures
        required_in(lines, n).contains(name),
    decreases n,
{
    let here = declared_by(trim(lines[n - 1]));
    let before = required_in(lines, n - 1);
    if k < n - 1 {
        lemma_required_in_holds(lines, n - 1, k, name);
        let j = choose|j: int| 0 <= j < before.len() && before[j] == name;
        if is_skipped(lines[n - 1]) {
        } else {
            assert((before + here)[j] == name);
        }
    } else {
        let j = choose|j: int| 0 <= j < here.len() && here[j] == name;
        assert((before + here)[before.len() + j] == name);
    }
}

/// A line, a line feed and a script: the line is the first line of the
/// whole.
pub proof fn lemma_first_line(line: Seq<char>, script: Seq<char>)
    requires
        !line.contains('\n'),
        !crate::text::ends_with_char(line, '\r'),
    ensures
        lines(line + seq!['\n'] + script).len() > 0,
        lines(line + seq!['\n'] + script)[0] == line,
{
    let whole = line + seq!['\n'] + script;
    let n = line.len() as int;
    crate::text::lemma_next_index_of(whole, '\n', 0);
    let k = crate::text::next_index_of(whole, '\n', 0);
    assert(whole[n] == '\n');
    if k < n {
        assert(whole[k] == line[k]);
        assert(line.contains(line[k]));
    }
    assert(k == n);
    if n > 0 {
        assert(whole[n - 1] == line[n - 1]);
    }
    assert(whole.subrange(0, n) =~= line);
    assert(crate::text::line_before_feed(whole, 0, n) == line);
}

/// The consistency rule, mended. Where a line that declares an extension
/// is put before a script, no finding of the whole says that the extension
/// is not declared.
pub proof fn lemma_require_line_mends(
    line: Seq<char>,
    script: Seq<char>,
    settings: SieveSettings,
    name: Seq<char>,
)
    requires
        !line.contains('\n'),
        !crate::text::ends_with_char(line, '\r'),
        !is_skipped(line),
        declared_by(trim(line)).contains(name),
    ensures
        !all_findings(line + seq!['\n'] + script, settings).contains(missing_require(name)),
        !report(line + seq!['\n'] + script, settings).contains(missing_require(name)),
{
    let whole = line + seq!['\n'] + script;
    let ls = lines(whole);
    let n = ls.len() as int;
    let wanted = missing_require(name);
    lemma_first_line(line, script);
    lemma_required_in_holds(ls, n, 0, name);
    let required = required_in(ls, n);
    let used = used_in(ls, n);
    lemma_used_in(ls, n);
    assert(used.take(used.len() as int) =~= used);
    lemma_missing_requires(required, used, used.len() as int, name);
    lemma_line_rules_codes(ls, settings, n);
    let by_line = findings_in(ls, settings, n);
    let by_use = consistency_findings(required, used);
    let all = all_findings(whole, settings);
    if all.contains(wanted) {
        let j = choose|j: int| 0 <= j < all.len() && all[j] == wanted;
        if settings.semantic_analysis {
            assert(all == by_line + by_use);
            if j < by_line.len() {
                assert(all[j] == by_line[j]);
            } else {
                assert(by_use[j - by_line.len()] == wanted);
                assert(by_use.contains(wanted));
            }
        } else {
            assert(all[j] == by_line[j]);
        }
        assert(false);
    }
    lemma_report_is_limited(whole, settings);
    let shown = report(whole, settings);
    if shown.contains(wanted) {
        let j = choose|j: int| 0 <= j < shown.len() && shown[j] == wanted;
        assert(all[j] == wanted);
        assert(false);
    }
}

} // verus!
