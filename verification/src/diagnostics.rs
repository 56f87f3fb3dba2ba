//! Diagnostics for references whose candidate path was not found.

use crate::mapping::{ascending, DocumentMapping};
use crate::paths::final_component;
use vstd::prelude::*;
use vstd::string::StringExecFns;

verus! {

/// The column at which a missing file is marked.
pub const MARKER_COLUMN: u32 = 200;

/// A place in a document: a line and a column, both counted from zero.
#[derive(Clone, Copy, Debug, PartialEq, Eq, Structural)]
pub struct Position {
    pub line: u32,
    pub character: u32,
}

/// A stretch of a document, from `start` up to `end`.
#[derive(Clone, Copy, Debug, PartialEq, Eq, Structural)]
pub struct Range {
    pub start: Position,
    pub end: Position,
}

/// How grave a diagnostic is.
#[derive(Clone, Copy, Debug, PartialEq, Eq, Structural)]
pub enum Severity {
    Error,
    Warning,
    Information,
    Hint,
}

/// A finding about one place of a document.
#[derive(Clone, Debug, PartialEq, Eq)]
pub struct Diagnostic {
    pub range: Range,
    pub severity: Severity,
    pub source: String,
    pub message: String,
}

/// A diagnostic with its texts as sequences of characters.
pub struct DiagnosticView {
    pub range: Range,
    pub severity: Severity,
    pub source: Seq<char>,
    pub message: Seq<char>,
}

impl View for Diagnostic {
    type V = DiagnosticView;

    open spec fn view(&self) -> DiagnosticView {
        DiagnosticView {
            range: self.range,
            severity: self.severity,
            source: self.source@,
            message: self.message@,
        }
    }
}

impl DeepView for Diagnostic {
    type V = DiagnosticView;

    open spec fn deep_view(&self) -> DiagnosticView {
        self@
    }
}

/// The diagnostics of one document, to be shown in place of those shown for
/// it before.
#[derive(Clone, Debug, PartialEq, Eq)]
pub struct PublishDiagnostics {
    pub uri: String,
    pub diagnostics: Vec<Diagnostic>,
}

/// The stretch of no width at the marker column of `line`.
pub open spec fn marker(line: u32) -> Range {
    Range {
        start: Position { line, character: MARKER_COLUMN },
        end: Position { line, character: MARKER_COLUMN },
    }
}

/// The diagnostic for a reference on `line` to a file called `name` that does
/// not exist.
pub open spec fn missing_file(name: Seq<char>, line: u32) -> DiagnosticView {
    DiagnosticView {
        range: marker(line),
        severity: Severity::Error,
        source: "grlx-lsp"@,
        message: "File "@ + name + " does not exist"@,
    }
}

/// The diagnostic for a reference on `line` whose candidate path `path` does
/// not exist: it names the final component of the path. There is none for a
/// path without such a component.
pub open spec fn missing_path(path: Seq<char>, line: u32) -> Option<DiagnosticView> {
    match final_component(path) {
        Some(name) => Some(missing_file(name, line)),
        None => None,
    }
}

/// Whether the path of the entry at position `i` was looked for and not
/// found. An entry without a finding counts as not looked for.
pub open spec fn found_missing(present: Seq<bool>, i: int) -> bool {
    0 <= i < present.len() && !present[i]
}

/// The diagnostics of a listing, given for each entry whether its path
/// exists: one for each entry whose path was found missing, in the order of
/// the entries. The line of a diagnostic is the line of its entry, reduced to
/// 32 bits.
pub open spec fn diagnostics_of(listing: Seq<(int, Seq<char>)>, present: Seq<bool>) -> Seq<
    DiagnosticView,
>
    decreases listing.len(),
{
    if listing.len() == 0 {
        Seq::empty()
    } else {
        let before = diagnostics_of(listing.drop_last(), present);
        let entry = listing.last();
        if found_missing(present, listing.len() - 1) {
            match missing_path(entry.1, entry.0 as u32) {
                Some(diagnostic) => before.push(diagnostic),
                None => before,
            }
        } else {
            before
        }
    }
}

/// The number of diagnostics that mark `line`.
pub open spec fn marked_on(diagnostics: Seq<DiagnosticView>, line: u32) -> nat
    decreases diagnostics.len(),
{
    if diagnostics.len() == 0 {
        0
    } else if diagnostics.last().range.start.line == line {
        marked_on(diagnostics.drop_last(), line) + 1
    } else {
        marked_on(diagnostics.drop_last(), line)
    }
}

/// One more diagnostic adds one to the count of its own line and nothing to
/// the count of another.
proof fn lemma_marked_on_push(diagnostics: Seq<DiagnosticView>, added: DiagnosticView, line: u32)
    ensures
        marked_on(diagnostics.push(added), line) == marked_on(diagnostics, line) + (if added.range.start.line
            == line {
            1nat
        } else {
            0nat
        }),
{
    assert(diagnostics.push(added).drop_last() =~= diagnostics);
}

/// No diagnostic marks a line on which the listing has no entry.
proof fn lemma_none_marked(listing: Seq<(int, Seq<char>)>, present: Seq<bool>, line: u32)
    requires
        forall|k: int| 0 <= k < listing.len() ==> ((#[trigger] listing[k]).0 as u32) != line,
    ensures
        marked_on(diagnostics_of(listing, present), line) == 0,
    decreases listing.len(),
{
    if listing.len() > 0 {
        let before = diagnostics_of(listing.drop_last(), present);
        let entry = listing.last();
        assert forall|k: int| 0 <= k < listing.drop_last().len() implies ((
        #[trigger] listing.drop_last()[k]).0 as u32) != line by {
            assert(listing.drop_last()[k] == listing[k]);
        }
        lemma_none_marked(listing.drop_last(), present, line);
        assert(entry == listing[listing.len() - 1]);
        if found_missing(present, listing.len() - 1) {
            match missing_path(entry.1, entry.0 as u32) {
                Some(diagnostic) => {
                    lemma_marked_on_push(before, diagnostic, line);
                },
                None => {},
            }
        }
    }
}

/// An entry whose path exists has no diagnostic on its line, and an entry
/// whose path was found missing has exactly one, which names the final
/// component of the path. This holds of listings whose lines fit in 32 bits.
pub proof fn lemma_diagnostics_follow_presence(
    listing: Seq<(int, Seq<char>)>,
    present: Seq<bool>,
    i: int,
)
    requires
        ascending(listing),
        0 <= i < listing.len(),
        forall|k: int| 0 <= k < listing.len() ==> 0 <= (#[trigger] listing[k]).0 <= u32::MAX,
    ensures
        marked_on(diagnostics_of(listing, present), listing[i].0 as u32) == (if found_missing(
            present,
            i,
        ) && final_component(listing[i].1) is Some {
            1nat
        } else {
            0nat
        }),
    decreases listing.len(),
{
    let line = listing[i].0 as u32;
    let shorter = listing.drop_last();
    let before = diagnostics_of(shorter, present);
    let entry = listing.last();
    assert(entry == listing[listing.len() - 1]);
    assert forall|k: int| 0 <= k < shorter.len() implies 0 <= (#[trigger] shorter[k]).0
        <= u32::MAX by {
        assert(shorter[k] == listing[k]);
    }
    if i == listing.len() - 1 {
        assert forall|k: int| 0 <= k < shorter.len() implies ((#[trigger] shorter[k]).0 as u32)
            != line by {
            assert(shorter[k] == listing[k]);
            assert(listing[k].0 < listing[i].0);
        }
        lemma_none_marked(shorter, present, line);
    } else {
        assert(shorter[i] == listing[i]);
        lemma_diagnostics_follow_presence(shorter, present, i);
        assert(listing[i].0 < listing[listing.len() - 1].0);
    }
    if found_missing(present, listing.len() - 1) {
        match missing_path(entry.1, entry.0 as u32) {
            Some(diagnostic) => {
                lemma_marked_on_push(before, diagnostic, line);
            },
            None => {},
        }
    }
}

/// The diagnostic for a reference on `line` to a file called `name` that does
/// not exist.
pub fn missing_file_named(name: &str, line: u32) -> (diagnostic: Diagnostic)
    ensures
        diagnostic@ == missing_file(name@, line),
{
    let place = Position { line, character: MARKER_COLUMN };
    let mut message = "File ".to_owned();
    message.append(name);
    message.append(" does not exist");
    Diagnostic {
        range: Range { start: place, end: place },
        severity: Severity::Error,
        source: "grlx-lsp".to_owned(),
        message,
    }
}

/// The diagnostic for a reference on `line` whose candidate path `file_name`
/// does not exist.
pub fn missing_file_diagnostic(file_name: &str, line: u32) -> (diagnostic: Option<Diagnostic>)
    ensures
        diagnostic.deep_view() == missing_path(file_name@, line),
{
    match crate::paths::file_name(file_name) {
        Some(name) => Some(missing_file_named(name.as_str(), line)),
        None => None,
    }
}

/// The diagnostics of the document `file_name` with the given mapping, where
/// `present` says of each entry, by its position, whether its path exists.
/// There is nothing to publish where no diagnostic arises.
pub fn generate_diagnostics(mapping: &DocumentMapping, file_name: &str, present: &Vec<bool>) -> (notification: Option<PublishDiagnostics>)
    ensures
        match notification {
            Some(published) => {
                &&& published.uri@ == file_name@
                &&& published.diagnostics.deep_view() == diagnostics_of(mapping.listing(), present@)
                &&& published.diagnostics@.len() > 0
            },
            None => diagnostics_of(mapping.listing(), present@).len() == 0,
        },
{
    let mut diagnostics: Vec<Diagnostic> = Vec::new();
    let mut i: usize = 0;
    assert(mapping.listing().take(0) =~= Seq::empty());
    assert(diagnostics.deep_view() =~= Seq::empty());
    while i < mapping.len()
        invariant
            i <= mapping.listing().len(),
            diagnostics.deep_view() == diagnostics_of(mapping.listing().take(i as int), present@),
        decreases mapping.listing().len() - i,
    {
        let ghost before = diagnostics.deep_view();
        proof {
            let longer = mapping.listing().take(i + 1);
            assert(longer.drop_last() =~= mapping.listing().take(i as int));
            assert(longer.last() == mapping.listing()[i as int]);
        }
        if i < present.len() && !present[i] {
            let entry = mapping.entry(i);
            match missing_file_diagnostic(entry.path.as_str(), entry.line as u32) {
                Some(diagnostic) => {
                    diagnostics.push(diagnostic);
                    assert(diagnostics.deep_view() =~= before.push(diagnostic@));
                },
                None => {},
            }
        }
        i = i + 1;
    }
    assert(mapping.listing().take(i as int) =~= mapping.listing());
    if diagnostics.len() > 0 {
        Some(PublishDiagnostics { uri: file_name.to_owned(), diagnostics })
    } else {
        None
    }
}

} // verus!
