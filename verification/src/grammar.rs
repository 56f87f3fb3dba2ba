//! The grammar of one line of the include section, and the module that a
//! reference names.

use crate::text::{chars_of, first_from, lemma_first_from_is, string_of};
use vstd::prelude::*;
use vstd::string::StringExecFns;

verus! {

/// The characters that may separate the dash from the reference: space, tab,
/// carriage return and line feed.
pub open spec fn is_blank(c: char) -> bool {
    c == ' ' || c == '\t' || c == '\r' || c == '\n'
}

/// The letters and digits of ASCII.
pub open spec fn is_alphanumeric(c: char) -> bool {
    ('a' <= c && c <= 'z') || ('A' <= c && c <= 'Z') || ('0' <= c && c <= '9')
}

/// The predicate that holds of every character but the blanks.
pub open spec fn not_blank() -> spec_fn(char) -> bool {
    |c: char| !is_blank(c)
}

/// The predicate that holds of every character but the ASCII letters and
/// digits.
pub open spec fn not_alphanumeric() -> spec_fn(char) -> bool {
    |c: char| !is_alphanumeric(c)
}

/// Whether the line lists a reference: exactly two leading spaces, a dash,
/// and at least one blank.
pub open spec fn is_reference_line(line: Seq<char>) -> bool {
    line.len() >= 4 && line[0] == ' ' && line[1] == ' ' && line[2] == '-' && is_blank(line[3])
}

/// Where the reference of a line begins: behind the first run of blanks that
/// follows the dash.
pub open spec fn reference_start(line: Seq<char>) -> int {
    first_from(line, not_blank(), 3)
}

/// The reference that the line lists: the rest of the line behind the first
/// run of blanks that follows the dash, as it stands. `None` where the line
/// lists none.
pub open spec fn line_reference(line: Seq<char>) -> Option<Seq<char>> {
    if is_reference_line(line) {
        Some(line.subrange(reference_start(line), line.len() as int))
    } else {
        None
    }
}

/// Where the run of letters and digits behind a leading dot ends.
pub open spec fn shorthand_end(reference: Seq<char>) -> int {
    first_from(reference, not_alphanumeric(), 1)
}

/// The module that a reference in the shorthand for the current directory
/// names: the run of letters and digits that follows its leading dot. `None`
/// where the reference has no leading dot or no letter or digit right behind
/// it.
pub open spec fn shorthand_module(reference: Seq<char>) -> Option<Seq<char>> {
    if reference.len() >= 2 && reference[0] == '.' && is_alphanumeric(reference[1]) {
        Some(reference.subrange(1, shorthand_end(reference)))
    } else {
        None
    }
}

/// The module that a reference names: what the shorthand gives, and otherwise
/// the whole reference.
pub open spec fn module_name(reference: Seq<char>) -> Seq<char> {
    match shorthand_module(reference) {
        Some(module) => module,
        None => reference,
    }
}

/// The extension of the files that hold a module.
pub open spec fn extension() -> Seq<char> {
    ".grlx"@
}

/// The file that holds the module a reference names, relative to the
/// directory of the document that lists it.
pub open spec fn module_file(reference: Seq<char>) -> Seq<char> {
    module_name(reference) + extension()
}

/// Whether `c` is a blank.
pub fn blank(c: char) -> (b: bool)
    ensures
        b == is_blank(c),
{
    c == ' ' || c == '\t' || c == '\r' || c == '\n'
}

/// Whether `c` is an ASCII letter or digit.
pub fn alphanumeric(c: char) -> (b: bool)
    ensures
        b == is_alphanumeric(c),
{
    ('a' <= c && c <= 'z') || ('A' <= c && c <= 'Z') || ('0' <= c && c <= '9')
}

/// The index at which the reference of `line` begins, where it lists one.
pub fn find_reference(line: &[char]) -> (start: Option<usize>)
    ensures
        start is Some <==> is_reference_line(line@),
        start matches Some(at) ==> at == reference_start(line@) && 4 <= at <= line.len(),
{
    if line.len() < 4 || line[0] != ' ' || line[1] != ' ' || line[2] != '-' || !blank(line[3]) {
        return None;
    }
    let mut at: usize = 4;
    while at < line.len() && blank(line[at])
        invariant
            4 <= at <= line.len(),
            forall|k: int| 3 <= k < at ==> is_blank(#[trigger] line@[k]),
        decreases line.len() - at,
    {
        at = at + 1;
    }
    proof {
        lemma_first_from_is(line@, not_blank(), 3, at as int);
    }
    Some(at)
}

/// The index at which the module of a shorthand reference ends, where
/// `reference` is in the shorthand.
pub fn find_shorthand(reference: &[char]) -> (end: Option<usize>)
    ensures
        end is Some <==> shorthand_module(reference@) is Some,
        end matches Some(at) ==> at == shorthand_end(reference@) && 2 <= at <= reference.len(),
{
    if reference.len() < 2 || reference[0] != '.' || !alphanumeric(reference[1]) {
        return None;
    }
    let mut at: usize = 2;
    while at < reference.len() && alphanumeric(reference[at])
        invariant
            2 <= at <= reference.len(),
            forall|k: int| 1 <= k < at ==> is_alphanumeric(#[trigger] reference@[k]),
        decreases reference.len() - at,
    {
        at = at + 1;
    }
    proof {
        lemma_first_from_is(reference@, not_alphanumeric(), 1, at as int);
    }
    Some(at)
}

/// The name of the file that holds the module which `reference` names.
pub fn file_of_reference(reference: &[char]) -> (file: String)
    ensures
        file@ == module_file(reference@),
{
    let mut file = match find_shorthand(reference) {
        Some(end) => string_of(&reference[1..end]),
        None => string_of(reference),
    };
    file.append(".grlx");
    file
}

/// Reads one line of the include section and gives the reference it lists.
pub fn parse_include_line(input: &str) -> (reference: Option<String>)
    ensures
        reference.deep_view() == line_reference(input@),
{
    let line = chars_of(input);
    match find_reference(line.as_slice()) {
        Some(start) => Some(string_of(&line.as_slice()[start..line.len()])),
        None => None,
    }
}

/// Reads a reference in the shorthand for the current directory and gives the
/// module it names.
pub fn parse_current(input: &str) -> (module: Option<String>)
    ensures
        module.deep_view() == shorthand_module(input@),
{
    let reference = chars_of(input);
    match find_shorthand(reference.as_slice()) {
        Some(end) => Some(string_of(&reference.as_slice()[1..end])),
        None => None,
    }
}

} // verus!
