//! The decisions of the dispatch loop. The loop itself waits for messages
//! and asks the file system; each thing it learns is an [`Event`], and what
//! it is to do about it is an [`Action`].

use crate::definition::{
    choose_target, definition_location, directory_candidate, directory_candidate_of, entry_file,
    resolution_target, start_of_file, target_file, Location,
};
use crate::diagnostics::{diagnostics_of, generate_diagnostics, PublishDiagnostics};
use crate::index::{base_directory, update_files, DocumentIndex};
use crate::mapping::paths_of;
use crate::scanner::{lemma_scan_listing, scan, scan_listing};
use crate::table::table_of;
use crate::uris::uri_of_file_path;
use vstd::pervasive::unreached;
use vstd::prelude::*;

verus! {

/// The kinds of message that the editor sends.
#[derive(Clone, Copy, Debug, PartialEq, Eq, Structural)]
pub enum MessageKind {
    Request,
    Response,
    Notification,
}

/// What a message of the editor is about.
#[derive(Clone, Copy, Debug, PartialEq, Eq, Structural)]
pub enum Route {
    /// A request for the definition of what stands at a place.
    Definition,
    /// The notice that a document was opened.
    Opened,
    /// The notice that a document was changed.
    Changed,
    /// Anything else: it is passed over.
    Ignored,
}

/// Where a message of the given kind and method goes.
pub open spec fn route_of(kind: MessageKind, method: Seq<char>) -> Route {
    match kind {
        MessageKind::Request => if method == "textDocument/definition"@ {
            Route::Definition
        } else {
            Route::Ignored
        },
        MessageKind::Notification => if method == "textDocument/didOpen"@ {
            Route::Opened
        } else if method == "textDocument/didChange"@ {
            Route::Changed
        } else {
            Route::Ignored
        },
        MessageKind::Response => Route::Ignored,
    }
}

/// Tells by its kind and method what a message of the editor is about.
pub fn route(kind: MessageKind, method: &str) -> (to: Route)
    ensures
        to == route_of(kind, method@),
{
    let method = method.to_owned();
    match kind {
        MessageKind::Request => if method == "textDocument/definition".to_owned() {
            Route::Definition
        } else {
            Route::Ignored
        },
        MessageKind::Notification => if method == "textDocument/didOpen".to_owned() {
            Route::Opened
        } else if method == "textDocument/didChange".to_owned() {
            Route::Changed
        } else {
            Route::Ignored
        },
        MessageKind::Response => Route::Ignored,
    }
}

/// What the loop has learnt: a message of the editor, or an answer of the
/// file system to an earlier [`Action`].
pub enum Event {
    /// The document `document` was opened with `text`.
    Opened { document: String, text: String },
    /// The document `document` was changed; each change holds the full new
    /// text.
    Changed { document: String, changes: Vec<String> },
    /// The definition of what stands at the given place is asked for.
    Definition { document: String, line: u32, character: u32 },
    /// The answer to [`Action::CheckPresence`]: for each path, whether it
    /// exists.
    Presence { document: String, present: Vec<bool> },
    /// The answer to [`Action::CheckExistence`]: whether each of the two
    /// candidates exists.
    Existence {
        candidate: String,
        directory: Option<String>,
        candidate_exists: bool,
        directory_exists: bool,
    },
    /// The answer to [`Action::CheckKind`]: whether the target is a
    /// directory.
    Kind { target: String, is_directory: bool },
    /// The answer to [`Action::Canonicalize`]: the path in canonical form, or
    /// `None` where it has none.
    Canonical { canonical: Option<String> },
    /// Any other message.
    Other,
}

/// What the loop is to do next.
pub enum Action {
    /// Nothing: wait for the next message.
    Idle,
    /// Find out which of the candidate paths of `document` exist.
    CheckPresence { document: String, paths: Vec<String> },
    /// Find out whether the candidate path and the directory candidate exist.
    CheckExistence { candidate: String, directory: Option<String> },
    /// Find out whether `target` is a directory.
    CheckKind { target: String },
    /// Bring `path` into its canonical form.
    Canonicalize { path: String },
    /// Send the diagnostics of a document.
    Publish(PublishDiagnostics),
    /// Answer the request for a definition with this place.
    Respond(Location),
    /// Give the request up: its target has no canonical form, or none that a
    /// URL names.
    Fail,
}

/// The candidate path of the reference on `line` of `document`, where the
/// index holds the document and the line lists a reference.
pub open spec fn candidate_of(
    index: Map<Seq<char>, Seq<(int, Seq<char>)>>,
    document: Seq<char>,
    line: int,
) -> Option<Seq<char>> {
    match index.get(document) {
        Some(listing) => table_of(listing).get(line),
        None => None,
    }
}

/// How the full text of a document is taken in: the scan of the text
/// against the directory of the document replaces what the index held for
/// it, and the paths of the new entries are to be looked for. A document
/// that lies in no directory changes nothing.
pub open spec fn takes_in(
    before: Map<Seq<char>, Seq<(int, Seq<char>)>>,
    document: Seq<char>,
    text: Seq<char>,
    after: Map<Seq<char>, Seq<(int, Seq<char>)>>,
    action: Action,
) -> bool {
    match base_directory(document) {
        Some(base) => {
            &&& after == before.insert(document, scan_listing(text, base))
            &&& action matches Action::CheckPresence { document: asked, paths }
            &&& asked@ == document
            &&& paths.deep_view() == paths_of(scan_listing(text, base))
        },
        None => after == before && action is Idle,
    }
}

/// Whether `action` and the index `after` are the answer to `event` on the
/// index `before`.
pub open spec fn answers(
    before: Map<Seq<char>, Seq<(int, Seq<char>)>>,
    event: Event,
    after: Map<Seq<char>, Seq<(int, Seq<char>)>>,
    action: Action,
) -> bool {
    match event {
        Event::Opened { document, text } => takes_in(before, document@, text@, after, action),
        Event::Changed { document, changes } => if changes@.len() > 0 {
            takes_in(before, document@, changes@[0]@, after, action)
        } else {
            after == before && action is Idle
        },
        Event::Definition { document, line, .. } => {
            &&& after == before
            &&& match candidate_of(before, document@, line as int) {
                Some(found) => {
                    &&& action matches Action::CheckExistence { candidate, directory }
                    &&& candidate@ == found
                    &&& directory.deep_view() == directory_candidate(found)
                },
                None => action is Idle,
            }
        },
        Event::Presence { document, present } => {
            &&& after == before
            &&& match before.get(document@) {
                Some(listing) => if diagnostics_of(listing, present@).len() > 0 {
                    &&& action matches Action::Publish(published)
                    &&& published.uri@ == document@
                    &&& published.diagnostics.deep_view() == diagnostics_of(listing, present@)
                } else {
                    action is Idle
                },
                None => action is Idle,
            }
        },
        Event::Existence { candidate, directory, candidate_exists, directory_exists } => {
            &&& after == before
            &&& match resolution_target(
                candidate@,
                directory.deep_view(),
                candidate_exists,
                directory_exists,
            ) {
                Some(found) => action matches Action::CheckKind { target } && target@ == found,
                None => action is Idle,
            }
        },
        Event::Kind { target, is_directory } => {
            &&& after == before
            &&& action matches Action::Canonicalize { path }
            &&& path@ == target_file(target@, is_directory)
        },
        Event::Canonical { canonical } => {
            &&& after == before
            &&& match canonical {
                Some(file) => match uri_of_file_path(file@) {
                    Some(uri) => {
                        &&& action matches Action::Respond(location)
                        &&& location.uri@ == uri
                        &&& location.range == start_of_file()
                    },
                    None => action is Fail,
                },
                None => action is Fail,
            }
        },
        Event::Other => after == before && action is Idle,
    }
}

/// A second text of a document takes the place of the first: afterwards the
/// index holds the scan of the second text alone, and a request on a line
/// that the second text does not list gets no answer, whatever the first
/// text listed there.
pub proof fn lemma_change_replaces(
    before: Map<Seq<char>, Seq<(int, Seq<char>)>>,
    document: Seq<char>,
    first_text: Seq<char>,
    first: Action,
    between: Map<Seq<char>, Seq<(int, Seq<char>)>>,
    second_text: Seq<char>,
    second: Action,
    after: Map<Seq<char>, Seq<(int, Seq<char>)>>,
    request: Event,
    answer: Action,
    last: Map<Seq<char>, Seq<(int, Seq<char>)>>,
)
    requires
        base_directory(document) is Some,
        takes_in(before, document, first_text, between, first),
        takes_in(between, document, second_text, after, second),
        request matches Event::Definition { document: asked, .. } && asked@ == document,
        answers(after, request, last, answer),
    ensures
        after == before.insert(document, scan_listing(second_text, base_directory(document)->0)),
        request matches Event::Definition { line, .. } && candidate_of(after, document, line as int)
            == scan(second_text, base_directory(document)->0).get(line as int),
        request matches Event::Definition { line, .. } && (!scan(
            second_text,
            base_directory(document)->0,
        ).contains_key(line as int) ==> answer is Idle),
{
    let base = base_directory(document)->0;
    lemma_scan_listing(second_text, base);
    assert(after =~= before.insert(document, scan_listing(second_text, base)));
}

/// Takes in the full text of a document and asks for its candidate paths to
/// be looked for.
fn take_in(files: &mut DocumentIndex, document: String, text: &str) -> (action: Action)
    requires
        old(files).wf(),
    ensures
        final(files).wf(),
        takes_in(old(files)@, document@, text@, final(files)@, action),
{
    let asked = document.clone();
    if update_files(files, document, text) {
        match files.get(asked.as_str()) {
            Some(mapping) => Action::CheckPresence { document: asked, paths: mapping.paths() },
            None => unreached(),
        }
    } else {
        Action::Idle
    }
}

/// Decides what the loop does about `event`, and brings the index up to
/// date.
pub fn dispatch(files: &mut DocumentIndex, event: Event) -> (action: Action)
    requires
        old(files).wf(),
    ensures
        final(files).wf(),
        answers(old(files)@, event, final(files)@, action),
{
    match event {
        Event::Opened { document, text } => take_in(files, document, text.as_str()),
        Event::Changed { document, changes } => {
            if changes.len() > 0 {
                take_in(files, document, changes[0].as_str())
            } else {
                Action::Idle
            }
        },
        Event::Definition { document, line, .. } => {
            match files.get(document.as_str()) {
                Some(mapping) => match mapping.get(line as usize) {
                    Some(path) => {
                        let candidate = path.clone();
                        let directory = directory_candidate_of(candidate.as_str());
                        Action::CheckExistence { candidate, directory }
                    },
                    None => Action::Idle,
                },
                None => Action::Idle,
            }
        },
        Event::Presence { document, present } => {
            match files.get(document.as_str()) {
                Some(mapping) => match generate_diagnostics(mapping, document.as_str(), &present) {
                    Some(published) => Action::Publish(published),
                    None => Action::Idle,
                },
                None => Action::Idle,
            }
        },
        Event::Existence { candidate, directory, candidate_exists, directory_exists } => {
            match choose_target(candidate, directory, candidate_exists, directory_exists) {
                Some(target) => Action::CheckKind { target },
                None => Action::Idle,
            }
        },
        Event::Kind { target, is_directory } => Action::Canonicalize {
            path: entry_file(target, is_directory),
        },
        Event::Canonical { canonical } => match canonical {
            Some(file) => match definition_location(file.as_str()) {
                Some(location) => Action::Respond(location),
                None => Action::Fail,
            },
            None => Action::Fail,
        },
        Event::Other => Action::Idle,
    }
}

} // verus!
