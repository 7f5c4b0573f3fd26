//! What the analysis reports: a finding with the place in the text that it
//! is about.

use vstd::prelude::*;

verus! {

/// A place in a text: a line and a column, both counting from zero. The
/// column of a finding counts UTF-16 code units.
#[derive(Clone, Copy, Debug, PartialEq, Eq, Structural)]
pub struct Position {
    pub line: u32,
    pub character: u32,
}

/// The text from `start` up to, not including, `end`.
#[derive(Clone, Copy, Debug, PartialEq, Eq, Structural)]
pub struct Range {
    pub start: Position,
    pub end: Position,
}

/// How grave a finding is.
#[derive(Clone, Copy, Debug, PartialEq, Eq, Structural)]
pub enum DiagnosticSeverity {
    Error,
    Warning,
}

/// One finding.
#[derive(Clone, Debug, PartialEq, Eq)]
pub struct Diagnostic {
    /// The text that the finding is about.
    pub range: Range,
    pub severity: DiagnosticSeverity,
    /// The kind of the finding, for programs.
    pub code: String,
    /// Where the rule behind the finding is documented.
    pub code_description: Option<String>,
    /// The name of the analysis.
    pub source: String,
    /// The finding, for people.
    pub message: String,
}

/// A `Diagnostic` as a mathematical value.
pub struct DiagnosticView {
    pub range: Range,
    pub severity: DiagnosticSeverity,
    pub code: Seq<char>,
    pub code_description: Option<Seq<char>>,
    pub source: Seq<char>,
    pub message: Seq<char>,
}

impl Position {
    /// `self` stands at or before `other`.
    pub open spec fn at_or_before(self, other: Position) -> bool {
        self.line < other.line || (self.line == other.line && self.character <= other.character)
    }
}

impl Range {
    /// The end is not before the start.
    pub open spec fn well_formed(self) -> bool {
        self.start.at_or_before(self.end)
    }
}

impl View for Diagnostic {
    type V = DiagnosticView;

    open spec fn view(&self) -> DiagnosticView {
        DiagnosticView {
            range: self.range,
            severity: self.severity,
            code: self.code@,
            code_description: match self.code_description {
                Some(href) => Some(href@),
                None => None,
            },
            source: self.source@,
            message: self.message@,
        }
    }
}

/// The views of a list of diagnostics, in order.
pub open spec fn diagnostic_views(list: Seq<Diagnostic>) -> Seq<DiagnosticView> {
    list.map_values(|d: Diagnostic| d@)
}

/// The name under which the analysis reports.
pub open spec fn source_name() -> Seq<char> {
    "sieve-lsp"@
}

impl Diagnostic {
    /// A finding of the analysis.
    pub fn new(
        range: Range,
        severity: DiagnosticSeverity,
        code: &str,
        href: &str,
        message: String,
    ) -> (d: Diagnostic)
        ensures
            d@ == (DiagnosticView {
                range,
                severity,
                code: code@,
                code_description: Some(href@),
                source: source_name(),
                message: message@,
            }),
    {
        Diagnostic {
            range,
            severity,
            code: code.to_owned(),
            code_description: Some(href.to_owned()),
            source: "sieve-lsp".to_owned(),
            message,
        }
    }
}

} // verus!
