//! Document identifiers and the files that they name.
//!
//! A document is known by its URL, held as text. Which file a URL names, and
//! which URL names a file, is worked out by the `url` crate as `lsp-types`
//! hands it on; each of the two has a name for its result.

use lsp_types::Url;
use vstd::prelude::*;

verus! {

/// What `Url::to_file_path` returns for the URL that is written `uri`: the
/// path of the file that the URL names, in the notation of the platform.
/// `None` where `uri` is not the text of a URL, where the URL names no local
/// file, or where the path is not text.
pub uninterp spec fn file_path_of_uri(uri: Seq<char>) -> Option<Seq<char>>;

/// What `Url::from_file_path` returns for `path`, written out: the URL that
/// names the file at `path`. `None` where the path is not absolute.
pub uninterp spec fn uri_of_file_path(path: Seq<char>) -> Option<Seq<char>>;

/// Reads `uri` as a URL and calls `Url::to_file_path` on it. The contract
/// only names the result.
#[verifier::external_body]
pub(crate) fn file_path(uri: &str) -> (path: Option<String>)
    ensures
        path.deep_view() == file_path_of_uri(uri@),
{
    match Url::parse(uri) {
        Ok(url) => match url.to_file_path() {
            Ok(path) => path.into_os_string().into_string().ok(),
            Err(_) => None,
        },
        Err(_) => None,
    }
}

/// Calls `Url::from_file_path` on `path` and writes the URL out. The contract
/// only names the result.
#[verifier::external_body]
pub(crate) fn file_uri(path: &str) -> (uri: Option<String>)
    ensures
        uri.deep_view() == uri_of_file_path(path@),
{
    match Url::from_file_path(path) {
        Ok(url) => Some(url.into()),
        Err(_) => None,
    }
}

} // verus!
