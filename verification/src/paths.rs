//! The path algebra of the standard library, on paths held as strings.
//!
//! A path is text to this crate. What the standard library makes of a path
//! depends on the platform the crate is built for, and is a function of the
//! text alone; each operation used here has a name for its result.

use std::path::Path;
use vstd::prelude::*;

verus! {

/// What `Path::join` returns for the path `base` and the path `name`.
pub uninterp spec fn joined_path(base: Seq<char>, name: Seq<char>) -> Seq<char>;

/// What `Path::parent` returns for `path`: the path without its final
/// component, where it has one.
pub uninterp spec fn parent_path(path: Seq<char>) -> Option<Seq<char>>;

/// What `Path::file_name` returns for `path`: its final component, where it
/// is a file or directory name.
pub uninterp spec fn final_component(path: Seq<char>) -> Option<Seq<char>>;

/// What `Path::file_stem` returns for `path`: its final component without
/// the extension.
pub uninterp spec fn final_stem(path: Seq<char>) -> Option<Seq<char>>;

/// Calls `Path::join` on `base` with `name`. The result is made of the two
/// strings and a separator, so it is a string too; the contract only names
/// it.
#[verifier::external_body]
pub(crate) fn join(base: &str, name: &str) -> (joined: String)
    ensures
        joined@ == joined_path(base@, name@),
{
    Path::new(base).join(name).to_string_lossy().into_owned()
}

/// Calls `Path::parent` on `path`. The result is a part of `path`, so it is a
/// string too; the contract only names it.
#[verifier::external_body]
pub(crate) fn parent(path: &str) -> (directory: Option<String>)
    ensures
        directory.deep_view() == parent_path(path@),
{
    match Path::new(path).parent() {
        Some(directory) => Some(directory.to_string_lossy().into_owned()),
        None => None,
    }
}

/// Calls `Path::file_name` on `path`. The result is a part of `path`, so it
/// is a string too; the contract only names it.
#[verifier::external_body]
pub(crate) fn file_name(path: &str) -> (name: Option<String>)
    ensures
        name.deep_view() == final_component(path@),
{
    match Path::new(path).file_name() {
        Some(name) => Some(name.to_string_lossy().into_owned()),
        None => None,
    }
}

/// Calls `Path::file_stem` on `path`. The result is a part of `path`, so it
/// is a string too; the contract only names it.
#[verifier::external_body]
pub(crate) fn file_stem(path: &str) -> (stem: Option<String>)
    ensures
        stem.deep_view() == final_stem(path@),
{
    match Path::new(path).file_stem() {
        Some(stem) => Some(stem.to_string_lossy().into_owned()),
        None => None,
    }
}

} // verus!
