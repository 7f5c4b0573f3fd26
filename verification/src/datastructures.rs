//! The state that the analysis works on: the settings and the open
//! documents.

use crate::diagnostic::Range;
use crate::rope::{
    lemma_line_start_bounds, line_count, line_start, line_text, replaced, rope_clone,
    rope_from_str, rope_insert, rope_len_chars, rope_len_lines, rope_line, rope_line_to_char,
    rope_remove, rope_text, rope_to_string,
};
use crate::store::stored;
use dashmap::DashMap;
use ropey::Rope;
use vstd::prelude::*;

verus! {

/// How the analysis is to behave. One value holds for a whole run.
#[derive(Clone, Copy, Debug, PartialEq, Eq, Structural)]
pub struct SieveSettings {
    /// Whether the keywords of the extended dialect (`expire`,
    /// `currentdate`) are accepted. Where they are not, each use is
    /// reported.
    pub proton_extensions: bool,
    /// Whether only the standardised language is accepted.
    pub strict_mode: bool,
    /// The greatest number of diagnostics reported for one document.
    pub max_errors: usize,
    /// Whether the use of extensions is held against the `require`
    /// statements.
    pub semantic_analysis: bool,
}

impl SieveSettings {
    /// The settings in force until others are given.
    pub open spec fn defaults() -> SieveSettings {
        SieveSettings {
            proton_extensions: true,
            strict_mode: false,
            max_errors: 100,
            semantic_analysis: true,
        }
    }

    /// The settings that a payload gives: each field as the payload has
    /// it, and as in `defaults` where the payload lacks it.
    pub open spec fn from_payload(
        proton_extensions: Option<bool>,
        strict_mode: Option<bool>,
        max_errors: Option<usize>,
        semantic_analysis: Option<bool>,
    ) -> SieveSettings {
        SieveSettings {
            proton_extensions: match proton_extensions {
                Some(value) => value,
                None => Self::defaults().proton_extensions,
            },
            strict_mode: match strict_mode {
                Some(value) => value,
                None => Self::defaults().strict_mode,
            },
            max_errors: match max_errors {
                Some(value) => value,
                None => Self::defaults().max_errors,
            },
            semantic_analysis: match semantic_analysis {
                Some(value) => value,
                None => Self::defaults().semantic_analysis,
            },
        }
    }

    /// The settings that a payload gives. A field that the payload lacks
    /// takes its default.
    pub fn with_defaults(
        proton_extensions: Option<bool>,
        strict_mode: Option<bool>,
        max_errors: Option<usize>,
        semantic_analysis: Option<bool>,
    ) -> (settings: SieveSettings)
        ensures
            settings == Self::from_payload(
                proton_extensions,
                strict_mode,
                max_errors,
                semantic_analysis,
            ),
    {
        let defaults = SieveSettings::default();
        SieveSettings {
            proton_extensions: match proton_extensions {
                Some(value) => value,
                None => defaults.proton_extensions,
            },
            strict_mode: match strict_mode {
                Some(value) => value,
                None => defaults.strict_mode,
            },
            max_errors: match max_errors {
                Some(value) => value,
                None => defaults.max_errors,
            },
            semantic_analysis: match semantic_analysis {
                Some(value) => value,
                None => defaults.semantic_analysis,
            },
        }
    }

    /// Settings with every field given.
    pub fn new(
        proton_extensions: bool,
        strict_mode: bool,
        max_errors: usize,
        semantic_analysis: bool,
    ) -> (settings: SieveSettings)
        ensures
            settings == (SieveSettings {
                proton_extensions,
                strict_mode,
                max_errors,
                semantic_analysis,
            }),
    {
        SieveSettings { proton_extensions, strict_mode, max_errors, semantic_analysis }
    }
}

impl Default for SieveSettings {
    fn default() -> (settings: SieveSettings)
        ensures
            settings == SieveSettings::defaults(),
    {
        SieveSettings {
            proton_extensions: true,
            strict_mode: false,
            max_errors: 100,
            semantic_analysis: true,
        }
    }
}

// ---------------------------------------------------------------------------
// Documents
// ---------------------------------------------------------------------------

/// One edit of a document: new text for a range, or for the whole document
/// where no range is given. The columns of the range count characters.
#[derive(Clone, Debug, PartialEq, Eq)]
pub struct TextChange {
    pub range: Option<Range>,
    pub text: String,
}

/// The index in `text` that a line and a column in it address.
pub open spec fn char_index(text: Seq<char>, line: u32, character: u32) -> int {
    line_start(text, line as int) + character
}

/// The range addresses a part of the text: both of its lines exist, or are
/// the line one past the last, and its start is not behind its end, which
/// is not behind the end of the text.
pub open spec fn range_fits(text: Seq<char>, range: Range) -> bool {
    &&& range.start.line <= line_count(text)
    &&& range.end.line <= line_count(text)
    &&& char_index(text, range.start.line, range.start.character) <= char_index(
        text,
        range.end.line,
        range.end.character,
    ) <= text.len()
}

impl TextChange {
    /// The edit can be made in `text`.
    pub open spec fn fits(self, text: Seq<char>) -> bool {
        match self.range {
            Some(range) => range_fits(text, range),
            None => true,
        }
    }

    /// `text` after the edit.
    pub open spec fn applied_to(self, text: Seq<char>) -> Seq<char> {
        match self.range {
            Some(range) => replaced(
                text,
                char_index(text, range.start.line, range.start.character),
                char_index(text, range.end.line, range.end.character),
                self.text@,
            ),
            None => self.text@,
        }
    }
}

/// After a change with a range has been made, the text that stands where
/// the range began, in the length of the new text, is the new text.
pub proof fn lemma_change_reads_back(text: Seq<char>, change: TextChange)
    requires
        change.range is Some,
        change.fits(text),
    ensures
        ({
            let range = change.range->0;
            let start = char_index(text, range.start.line, range.start.character);
            let after = change.applied_to(text);
            &&& 0 <= start
            &&& start + change.text@.len() <= after.len()
            &&& after.subrange(start, start + change.text@.len()) == change.text@
            &&& after.subrange(0, start) == text.subrange(0, start)
        }),
{
    let range = change.range->0;
    let start = char_index(text, range.start.line, range.start.character);
    lemma_line_start_bounds(text, range.start.line as int);
    let after = change.applied_to(text);
    assert(after.subrange(start, start + change.text@.len()) =~= change.text@);
    assert(after.subrange(0, start) =~= text.subrange(0, start));
}

/// A change without a range fits every text, and leaves nothing of it:
/// afterwards the text is the new text, and its lines are the lines of the
/// new text.
pub proof fn lemma_full_replacement(text: Seq<char>, change: TextChange)
    requires
        change.range is None,
    ensures
        change.fits(text),
        change.applied_to(text) == change.text@,
        line_count(change.applied_to(text)) == line_count(change.text@),
        forall|line: int|
            line_text(change.applied_to(text), line) == line_text(change.text@, line),
{
}

/// An open document: its text in a buffer that is edited in place, with the
/// identifier and the version that the editor gave.
#[derive(Debug)]
pub struct SieveDocument {
    /// The identifier of the document, a URI.
    pub uri: String,
    text: Rope,
    /// The version of the text, as the editor counts it.
    pub version: i32,
}

/// A `SieveDocument` as a mathematical value.
pub struct DocumentView {
    pub uri: Seq<char>,
    pub text: Seq<char>,
    pub version: i32,
}

impl View for SieveDocument {
    type V = DocumentView;

    closed spec fn view(&self) -> DocumentView {
        DocumentView { uri: self.uri@, text: rope_text(self.text), version: self.version }
    }
}

impl Clone for SieveDocument {
    fn clone(&self) -> (copy: SieveDocument)
        ensures
            copy@ == self@,
    {
        SieveDocument { uri: self.uri.clone(), text: rope_clone(&self.text), version: self.version }
    }
}

impl SieveDocument {
    /// A document with the given text.
    pub fn new(uri: String, text: String, version: i32) -> (document: SieveDocument)
        ensures
            document@ == (DocumentView { uri: uri@, text: text@, version }),
    {
        SieveDocument { uri, text: rope_from_str(text.as_str()), version }
    }

    /// Makes an edit that fits the text.
    pub fn apply_change(&mut self, change: &TextChange)
        requires
            change.fits(old(self)@.text),
        ensures
            final(self)@ == (DocumentView {
                text: change.applied_to(old(self)@.text),
                ..old(self)@
            }),
    {
        match change.range {
            Some(range) => {
                let ghost text = rope_text(self.text);
                // The text fits the rope, so its length and every index
                // into it fit `usize`.
                let _ = rope_len_chars(&self.text);
                let start_idx = rope_line_to_char(&self.text, range.start.line as usize)
                    + range.start.character as usize;
                let end_idx = rope_line_to_char(&self.text, range.end.line as usize)
                    + range.end.character as usize;
                rope_remove(&mut self.text, start_idx, end_idx);
                proof {
                    let removed = rope_text(self.text);
                    assert(removed.subrange(0, start_idx as int) == text.subrange(
                        0,
                        start_idx as int,
                    ));
                    assert(removed.subrange(start_idx as int, removed.len() as int)
                        == text.subrange(end_idx as int, text.len() as int));
                }
                rope_insert(&mut self.text, start_idx, change.text.as_str());
            },
            None => {
                self.text = rope_from_str(change.text.as_str());
            },
        }
    }

    /// Makes an edit where it fits the text, and says whether it did. An
    /// edit that does not fit leaves the document as it is.
    pub fn try_apply_change(&mut self, change: &TextChange) -> (applied: bool)
        ensures
            applied == change.fits(old(self)@.text),
            applied ==> final(self)@ == (DocumentView {
                text: change.applied_to(old(self)@.text),
                ..old(self)@
            }),
            !applied ==> final(self)@ == old(self)@,
    {
        if let Some(range) = change.range {
            let lines = rope_len_lines(&self.text);
            let start_line = range.start.line as usize;
            let end_line = range.end.line as usize;
            if start_line > lines || end_line > lines {
                return false;
            }
            let length = rope_len_chars(&self.text);
            let start_of_line = rope_line_to_char(&self.text, start_line);
            let end_of_line = rope_line_to_char(&self.text, end_line);
            proof {
                lemma_line_start_bounds(rope_text(self.text), start_line as int);
                lemma_line_start_bounds(rope_text(self.text), end_line as int);
            }
            let start_column = range.start.character as usize;
            let end_column = range.end.character as usize;
            if end_column > length - end_of_line || start_column > length - start_of_line {
                return false;
            }
            if start_of_line + start_column > end_of_line + end_column {
                return false;
            }
        }
        self.apply_change(change);
        true
    }

    /// Takes the version that the editor gives.
    pub fn set_version(&mut self, version: i32)
        ensures
            final(self)@ == (DocumentView { version, ..old(self)@ }),
    {
        self.version = version;
    }

    /// The identifier of the document.
    pub fn get_uri(&self) -> (uri: &str)
        ensures
            uri@ == self@.uri,
    {
        self.uri.as_str()
    }

    /// The version of the text.
    pub fn get_version(&self) -> (version: i32)
        ensures
            version == self@.version,
    {
        self.version
    }

    /// The whole text.
    pub fn get_text(&self) -> (text: String)
        ensures
            text@ == self@.text,
    {
        rope_to_string(&self.text)
    }

    /// A line of the text with the break that ends it, or `None` where the
    /// text has no such line. Lines count from zero.
    pub fn get_line(&self, line: usize) -> (text: Option<String>)
        ensures
            match text {
                Some(text) => line < line_count(self@.text) && text@ == line_text(
                    self@.text,
                    line as int,
                ),
                None => line >= line_count(self@.text),
            },
    {
        if line < rope_len_lines(&self.text) {
            Some(rope_line(&self.text, line))
        } else {
            None
        }
    }
}

// ---------------------------------------------------------------------------
// The server
// ---------------------------------------------------------------------------

/// The state of the language server: the open documents, by identifier,
/// and the settings in force.
pub struct SieveLanguageServer {
    pub document_map: DashMap<String, SieveDocument>,
    pub settings: SieveSettings,
}

/// A `SieveLanguageServer` as a mathematical value.
pub struct ServerView {
    pub documents: Map<Seq<char>, DocumentView>,
    pub settings: SieveSettings,
}

impl View for SieveLanguageServer {
    type V = ServerView;

    open spec fn view(&self) -> ServerView {
        ServerView { documents: stored(self.document_map), settings: self.settings }
    }
}

} // verus!
