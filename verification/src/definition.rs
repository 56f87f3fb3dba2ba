//! Where a reference leads: the file to open for the module that a
//! reference names.

use crate::diagnostics::{Position, Range};
use crate::paths::{file_stem, final_stem, join, joined_path, parent, parent_path};
use crate::uris::{file_uri, uri_of_file_path};
use vstd::prelude::*;

verus! {

/// A place in a file: the URL of the file and a stretch of it.
#[derive(Clone, Debug, PartialEq, Eq)]
pub struct Location {
    pub uri: String,
    pub range: Range,
}

/// The file that stands for a module which is a directory.
pub open spec fn entry_file_name() -> Seq<char> {
    "init.grlx"@
}

/// The stretch of no width at the very start of a file.
pub open spec fn start_of_file() -> Range {
    Range {
        start: Position { line: 0, character: 0 },
        end: Position { line: 0, character: 0 },
    }
}

/// The directory that a reference may name in place of a file: beside the
/// candidate path, called as the candidate is called without its extension.
/// There is none where the candidate has no directory above it or no final
/// component.
pub open spec fn directory_candidate(candidate: Seq<char>) -> Option<Seq<char>> {
    match (parent_path(candidate), final_stem(candidate)) {
        (Some(directory), Some(stem)) => Some(joined_path(directory, stem)),
        _ => None,
    }
}

/// What a reference resolves to: the candidate path where it exists, else the
/// directory candidate where there is one and it exists, else nothing.
pub open spec fn resolution_target(
    candidate: Seq<char>,
    directory: Option<Seq<char>>,
    candidate_exists: bool,
    directory_exists: bool,
) -> Option<Seq<char>> {
    if candidate_exists {
        Some(candidate)
    } else if directory is Some && directory_exists {
        directory
    } else {
        None
    }
}

/// The file to open for a target: the entry file in it where the target is
/// a directory, else the target itself.
pub open spec fn target_file(target: Seq<char>, is_directory: bool) -> Seq<char> {
    if is_directory {
        joined_path(target, entry_file_name())
    } else {
        target
    }
}

/// Where the candidate path does not exist and the directory candidate does,
/// the reference resolves to the directory candidate, and the file to open
/// for it is the entry file in that directory, at line and column zero.
pub proof fn lemma_missing_file_leads_into_directory(candidate: Seq<char>, directory: Seq<char>)
    ensures
        resolution_target(candidate, Some(directory), false, true) == Some(directory),
        target_file(directory, true) == joined_path(directory, entry_file_name()),
        start_of_file().start == (Position { line: 0, character: 0 }),
        start_of_file().end == (Position { line: 0, character: 0 }),
{
}

/// Computes the directory candidate of a candidate path.
pub fn directory_candidate_of(candidate: &str) -> (directory: Option<String>)
    ensures
        directory.deep_view() == directory_candidate(candidate@),
{
    match parent(candidate) {
        Some(above) => match file_stem(candidate) {
            Some(stem) => Some(join(above.as_str(), stem.as_str())),
            None => None,
        },
        None => None,
    }
}

/// Picks what a reference resolves to, given which of its two candidates
/// exist.
pub fn choose_target(
    candidate: String,
    directory: Option<String>,
    candidate_exists: bool,
    directory_exists: bool,
) -> (target: Option<String>)
    ensures
        target.deep_view() == resolution_target(
            candidate@,
            directory.deep_view(),
            candidate_exists,
            directory_exists,
        ),
{
    if candidate_exists {
        Some(candidate)
    } else if directory_exists {
        directory
    } else {
        None
    }
}

/// The file to open for `target`, given whether the target is a directory.
pub fn entry_file(target: String, is_directory: bool) -> (file: String)
    ensures
        file@ == target_file(target@, is_directory),
{
    if is_directory {
        join(target.as_str(), "init.grlx")
    } else {
        target
    }
}

/// The start of the file that `uri` names.
pub fn start_of(uri: String) -> (location: Location)
    ensures
        location.uri@ == uri@,
        location.range == start_of_file(),
{
    let start = Position { line: 0, character: 0 };
    Location { uri, range: Range { start, end: start } }
}

/// The place that a resolved reference leads to: the start of the file at
/// the canonical path `file`. There is none where no URL names the file.
pub fn definition_location(file: &str) -> (location: Option<Location>)
    ensures
        match uri_of_file_path(file@) {
            Some(uri) => location matches Some(found) && found.uri@ == uri && found.range
                == start_of_file(),
            None => location is None,
        },
{
    match file_uri(file) {
        Some(uri) => Some(start_of(uri)),
        None => None,
    }
}

} // verus!
