//! What the server does on each event of an editing session.
//!
//! Each event is one call: it changes the state and returns what is to be
//! sent to the editor. Sending is left to the caller.

use crate::analysis::{report, validate_text};
use crate::datastructures::{
    DocumentView, ServerView, SieveDocument, SieveLanguageServer, SieveSettings, TextChange,
};
use crate::diagnostic::{diagnostic_views, Diagnostic, DiagnosticView, Position};
use crate::documentation::word_documentation;
use crate::require::string_views;
use crate::rope::{line_count, line_text};
use crate::store::{no_documents, store_get, store_insert, store_keys, store_new, store_remove, stored};
use crate::word::word_at;
use vstd::prelude::*;

verus! {

/// The text after the first `n` of `changes` have been made, in order. A
/// change that does not fit the text as it then stands is passed over.
pub open spec fn edited(text: Seq<char>, changes: Seq<TextChange>, n: int) -> Seq<char>
    decreases n,
{
    if n <= 0 {
        text
    } else {
        let before = edited(text, changes, n - 1);
        if changes[n - 1].fits(before) {
            changes[n - 1].applied_to(before)
        } else {
            before
        }
    }
}

/// What the analysis reports on the document `uri`: nothing where no such
/// document is open.
pub open spec fn validation(server: ServerView, uri: Seq<char>) -> Seq<DiagnosticView> {
    if server.documents.contains_key(uri) {
        report(server.documents[uri].text, server.settings)
    } else {
        Seq::empty()
    }
}

/// What there is to say about the place `line`, `character` of the
/// document `uri`: the documentation of the word there.
pub open spec fn hover_text(server: ServerView, uri: Seq<char>, line: int, character: int) -> Option<
    Seq<char>,
> {
    if !server.documents.contains_key(uri) {
        None
    } else if line < 0 || line >= line_count(server.documents[uri].text) {
        None
    } else {
        match word_at(line_text(server.documents[uri].text, line), character) {
            Some(word) => word_documentation(word),
            None => None,
        }
    }
}

/// One report for each open document: the list names every open document
/// once, and holds for each what the analysis reports on it.
pub open spec fn reports_on_all(server: ServerView, reports: Seq<(String, Vec<Diagnostic>)>) -> bool {
    &&& forall|i: int, j: int|
        0 <= i < j < reports.len() ==> (#[trigger] reports[i]).0@ != (#[trigger] reports[j]).0@
    &&& forall|i: int|
        0 <= i < reports.len() ==> server.documents.contains_key((#[trigger] reports[i]).0@)
            && diagnostic_views(reports[i].1@) == validation(server, reports[i].0@)
    &&& forall|uri: Seq<char>|
        server.documents.contains_key(uri) ==> exists|i: int|
            0 <= i < reports.len() && (#[trigger] reports[i]).0@ == uri
}

impl SieveLanguageServer {
    /// A server with no open document and the default settings.
    pub fn new() -> (server: SieveLanguageServer)
        ensures
            server@ == (ServerView { documents: no_documents(), settings: SieveSettings::defaults() }),
    {
        SieveLanguageServer { document_map: store_new(), settings: SieveSettings::default() }
    }

    /// The settings in force.
    pub fn get_settings(&self) -> (settings: SieveSettings)
        ensures
            settings == self@.settings,
    {
        self.settings
    }

    /// Puts new settings in force, in place of the old ones.
    pub fn set_settings(&mut self, settings: SieveSettings)
        ensures
            final(self)@ == (ServerView { settings, ..old(self)@ }),
    {
        self.settings = settings;
    }

    /// Stores a document under its identifier, in place of any document
    /// that was stored there.
    pub fn open_document(&mut self, uri: String, text: String, version: i32)
        ensures
            final(self)@ == (ServerView {
                documents: old(self)@.documents.insert(
                    uri@,
                    DocumentView { uri: uri@, text: text@, version },
                ),
                ..old(self)@
            }),
    {
        let document = SieveDocument::new(uri.clone(), text, version);
        store_insert(&mut self.document_map, uri, document);
    }

    /// Gives a document its new version and makes the changes in order. A
    /// change that does not fit the text is passed over. Says whether such
    /// a document is open; where none is, nothing happens.
    pub fn change_document(&mut self, uri: &str, version: i32, changes: &Vec<TextChange>) -> (changed:
        bool)
        ensures
            changed == old(self)@.documents.contains_key(uri@),
            !changed ==> final(self)@ == old(self)@,
            changed ==> final(self)@ == (ServerView {
                documents: old(self)@.documents.insert(
                    uri@,
                    DocumentView {
                        text: edited(
                            old(self)@.documents[uri@].text,
                            changes@,
                            changes@.len() as int,
                        ),
                        version,
                        ..old(self)@.documents[uri@]
                    },
                ),
                ..old(self)@
            }),
    {
        match store_get(&self.document_map, uri) {
            None => false,
            Some(mut document) => {
                let ghost text = document@.text;
                document.set_version(version);
                let mut i: usize = 0;
                while i < changes.len()
                    invariant
                        i <= changes.len(),
                        document@ == (DocumentView {
                            text: edited(text, changes@, i as int),
                            version,
                            ..old(self)@.documents[uri@]
                        }),
                    decreases changes.len() - i,
                {
                    document.try_apply_change(&changes[i]);
                    i += 1;
                }
                store_insert(&mut self.document_map, uri.to_owned(), document);
                true
            },
        }
    }

    /// A copy of a document as it stands, or `None` where no such document
    /// is open.
    pub fn get_document(&self, uri: &str) -> (document: Option<SieveDocument>)
        ensures
            match document {
                Some(document) => self@.documents.contains_key(uri@) && document@
                    == self@.documents[uri@],
                None => !self@.documents.contains_key(uri@),
            },
    {
        store_get(&self.document_map, uri)
    }

    /// The identifiers of the open documents, each once, in no particular
    /// order.
    pub fn open_documents(&self) -> (uris: Vec<String>)
        ensures
            string_views(uris@).no_duplicates(),
            forall|uri: Seq<char>|
                string_views(uris@).contains(uri) <==> self@.documents.contains_key(uri),
    {
        store_keys(&self.document_map)
    }

    /// A document is opened: it is stored under its identifier, in place of
    /// any document that was stored there, and analysed.
    pub fn did_open(&mut self, uri: String, text: String, version: i32) -> (diagnostics: Vec<
        Diagnostic,
    >)
        ensures
            final(self)@ == (ServerView {
                documents: old(self)@.documents.insert(
                    uri@,
                    DocumentView { uri: uri@, text: text@, version },
                ),
                ..old(self)@
            }),
            diagnostic_views(diagnostics@) == report(text@, old(self)@.settings),
            diagnostics@.len() <= old(self)@.settings.max_errors,
            forall|i: int|
                0 <= i < diagnostics@.len() ==> (#[trigger] diagnostics@[i]).range.well_formed(),
    {
        let diagnostics = validate_text(text.as_str(), &self.settings);
        self.open_document(uri, text, version);
        diagnostics
    }

    /// A document is changed: it takes the new version, the changes are
    /// made in order, and the new text is analysed. A change that does not
    /// fit the text is passed over. Where no such document is open nothing
    /// happens and nothing is to be sent.
    pub fn did_change(&mut self, uri: &str, version: i32, changes: &Vec<TextChange>) -> (diagnostics:
        Option<Vec<Diagnostic>>)
        ensures
            !old(self)@.documents.contains_key(uri@) ==> diagnostics is None && final(self)@ == old(
                self,
            )@,
            old(self)@.documents.contains_key(uri@) ==> diagnostics is Some && final(self)@ == (
            ServerView {
                documents: old(self)@.documents.insert(
                    uri@,
                    DocumentView {
                        text: edited(
                            old(self)@.documents[uri@].text,
                            changes@,
                            changes@.len() as int,
                        ),
                        version,
                        ..old(self)@.documents[uri@]
                    },
                ),
                ..old(self)@
            }) && diagnostic_views(diagnostics->0@) == validation(final(self)@, uri@)
                && diagnostics->0@.len() <= old(self)@.settings.max_errors,
    {
        if self.change_document(uri, version, changes) {
            Some(self.validate_document(uri))
        } else {
            None
        }
    }

    /// A document is closed: it leaves the store.
    pub fn did_close(&mut self, uri: &str)
        ensures
            final(self)@ == (ServerView {
                documents: old(self)@.documents.remove(uri@),
                ..old(self)@
            }),
    {
        let _ = store_remove(&mut self.document_map, uri);
    }

    /// The text and the version of a document as they stand, or `None`
    /// where no such document is open.
    pub fn get_snapshot(&self, uri: &str) -> (snapshot: Option<(String, i32)>)
        ensures
            match snapshot {
                Some((text, version)) => self@.documents.contains_key(uri@) && text@
                    == self@.documents[uri@].text && version == self@.documents[uri@].version,
                None => !self@.documents.contains_key(uri@),
            },
    {
        match self.get_document(uri) {
            Some(document) => Some((document.get_text(), document.get_version())),
            None => None,
        }
    }

    /// What the analysis reports on a document under the settings in
    /// force. Nothing, where no such document is open.
    pub fn validate_document(&self, uri: &str) -> (diagnostics: Vec<Diagnostic>)
        ensures
            diagnostic_views(diagnostics@) == validation(self@, uri@),
            diagnostics@.len() <= self@.settings.max_errors,
            forall|i: int|
                0 <= i < diagnostics@.len() ==> (#[trigger] diagnostics@[i]).range.well_formed(),
    {
        match store_get(&self.document_map, uri) {
            Some(document) => {
                let text = document.get_text();
                validate_text(text.as_str(), &self.settings)
            },
            None => {
                let diagnostics: Vec<Diagnostic> = Vec::new();
                assert(diagnostic_views(diagnostics@) =~= Seq::<DiagnosticView>::empty());
                diagnostics
            },
        }
    }

    /// What the analysis reports on each of the documents named, in the
    /// order in which they are named.
    pub fn validate_documents(&self, uris: &Vec<String>) -> (reports: Vec<(String, Vec<Diagnostic>)>)
        ensures
            reports@.len() == uris@.len(),
            forall|i: int|
                0 <= i < reports@.len() ==> (#[trigger] reports@[i]).0@ == uris@[i]@
                    && diagnostic_views(reports@[i].1@) == validation(self@, uris@[i]@),
    {
        let mut reports: Vec<(String, Vec<Diagnostic>)> = Vec::new();
        let mut i: usize = 0;
        while i < uris.len()
            invariant
                i <= uris.len(),
                reports@.len() == i,
                forall|j: int|
                    0 <= j < i ==> (#[trigger] reports@[j]).0@ == uris@[j]@ && diagnostic_views(
                        reports@[j].1@,
                    ) == validation(self@, uris@[j]@),
            decreases uris.len() - i,
        {
            let diagnostics = self.validate_document(uris[i].as_str());
            reports.push((uris[i].clone(), diagnostics));
            i += 1;
        }
        reports
    }

    /// New settings arrive, or a payload that could not be read as
    /// settings (`None`). New settings replace the old ones as a whole, and
    /// every open document is analysed again; the reports come in no
    /// particular order. A payload that could not be read changes nothing,
    /// and nothing is to be sent.
    pub fn did_change_configuration(&mut self, new_settings: Option<SieveSettings>) -> (reports:
        Vec<(String, Vec<Diagnostic>)>)
        ensures
            match new_settings {
                Some(settings) => final(self)@ == (ServerView { settings, ..old(self)@ })
                    && reports_on_all(final(self)@, reports@),
                None => final(self)@ == old(self)@ && reports@.len() == 0,
            },
    {
        match new_settings {
            None => Vec::new(),
            Some(settings) => {
                self.set_settings(settings);
                let keys = self.open_documents();
                let reports = self.validate_documents(&keys);
                proof {
                    let names = string_views(keys@);
                    assert forall|i: int, j: int| 0 <= i < j < reports@.len() implies (
                    #[trigger] reports@[i]).0@ != (#[trigger] reports@[j]).0@ by {
                        assert(names[i] == keys@[i]@ && names[j] == keys@[j]@);
                    }
                    assert forall|i: int| 0 <= i < reports@.len() implies self@.documents.contains_key(
                        (#[trigger] reports@[i]).0@,
                    ) by {
                        assert(names[i] == keys@[i]@);
                        assert(names.contains(names[i]));
                    }
                    assert forall|uri: Seq<char>| self@.documents.contains_key(uri) implies exists|
                        i: int,
                    |
                        0 <= i < reports@.len() && (#[trigger] reports@[i]).0@ == uri by {
                        assert(names.contains(uri));
                        let i = choose|i: int| 0 <= i < names.len() && names[i] == uri;
                        assert(names[i] == keys@[i]@);
                        assert(reports@[i].0@ == uri);
                    }
                }
                reports
            },
        }
    }

    /// What there is to say about a place in a document: the documentation
    /// of the word there, if it is a known one. The column counts
    /// characters.
    pub fn hover(&self, uri: &str, position: Position) -> (text: Option<String>)
        ensures
            match text {
                Some(text) => hover_text(
                    self@,
                    uri@,
                    position.line as int,
                    position.character as int,
                ) == Some(text@),
                None => hover_text(self@, uri@, position.line as int, position.character as int)
                    is None,
            },
    {
        let document = match store_get(&self.document_map, uri) {
            Some(document) => document,
            None => return None,
        };
        let line = match document.get_line(position.line as usize) {
            Some(line) => line,
            None => return None,
        };
        match self.get_word_at_position(line.as_str(), position.character as usize) {
            Some(word) => self.get_word_documentation(word.as_str()),
            None => None,
        }
    }
}

} // verus!
