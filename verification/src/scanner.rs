//! The scan of a document: which of its lines list a reference, and the path
//! where each referenced module is looked for.

use crate::grammar::{
    file_of_reference, find_reference, is_blank, is_reference_line, line_reference, module_file,
    not_blank, reference_start,
};
use crate::mapping::{ascending, lemma_listing_exists, listing_of, DocumentMapping};
use crate::paths::{join, joined_path};
use crate::table::table_of;
use crate::text::{
    chars_of, find_line_break, first_from, has_prefix, lemma_first_from, lemma_first_from_is,
    line_body, lines, lines_from, starts_with,
};
use vstd::prelude::*;

verus! {

/// What a line begins with where it opens the include section.
pub open spec fn opening_marker() -> Seq<char> {
    "include:"@
}

/// What a line begins with where it closes the include section.
pub open spec fn closing_marker() -> Seq<char> {
    "steps:"@
}

/// The predicate that holds of the lines that open the section.
pub open spec fn opens_section() -> spec_fn(Seq<char>) -> bool {
    |line: Seq<char>| has_prefix(line, opening_marker())
}

/// The predicate that holds of the lines that close the section.
pub open spec fn closes_section() -> spec_fn(Seq<char>) -> bool {
    |line: Seq<char>| has_prefix(line, closing_marker())
}

/// The index of the line that opens the section: the first that begins with
/// the opening marker. The number of lines where none does.
pub open spec fn section_start(lines: Seq<Seq<char>>) -> int {
    first_from(lines, opens_section(), 0)
}

/// The index of the line that closes the section: the first behind the
/// opening line that begins with the closing marker. The number of lines
/// where none does.
pub open spec fn section_end(lines: Seq<Seq<char>>) -> int {
    first_from(lines, closes_section(), section_start(lines))
}

/// Whether line `i` lies inside the section, between the line that opens it
/// and the line that closes it.
pub open spec fn in_section(lines: Seq<Seq<char>>, i: int) -> bool {
    section_start(lines) < i < section_end(lines)
}

/// Whether line `i` lists a reference that counts: it lies inside the
/// section and is written as the grammar asks.
pub open spec fn lists_reference(lines: Seq<Seq<char>>, i: int) -> bool {
    in_section(lines, i) && is_reference_line(lines[i])
}

/// The path where the module that `line` refers to is looked for: the file of
/// the module, joined to the directory of the document.
pub open spec fn candidate_path(base: Seq<char>, line: Seq<char>) -> Seq<char> {
    joined_path(base, module_file(line_reference(line).unwrap()))
}

/// The mapping of a document with the given text that lies in the directory
/// `base`: from the number of each line that lists a reference, counted from
/// zero, to the candidate path of that reference.
pub open spec fn scan(text: Seq<char>, base: Seq<char>) -> Map<int, Seq<char>> {
    Map::new(
        |i: int| lists_reference(lines(text), i),
        |i: int| candidate_path(base, lines(text)[i]),
    )
}

/// The entries of that mapping, in the order of their lines.
pub open spec fn scan_listing(text: Seq<char>, base: Seq<char>) -> Seq<(int, Seq<char>)> {
    listing_of(scan(text, base))
}

/// The listing of a scan is ascending and holds the entries of the scan, no
/// more and no less.
pub proof fn lemma_scan_listing(text: Seq<char>, base: Seq<char>)
    ensures
        ascending(scan_listing(text, base)),
        table_of(scan_listing(text, base)) == scan(text, base),
{
    let all = lines(text);
    lemma_first_from(all, opens_section(), 0);
    lemma_first_from(all, closes_section(), section_start(all));
    lemma_listing_exists(scan(text, base), all.len() as int);
}

/// A line inside the section that is written as the grammar asks lists the
/// text behind the first run of blanks that follows its dash, and nothing
/// else of the line; its entry is the candidate path for that text.
pub proof fn lemma_entry_of_reference_line(text: Seq<char>, base: Seq<char>, i: int)
    requires
        in_section(lines(text), i),
        is_reference_line(lines(text)[i]),
    ensures
        ({
            let line = lines(text)[i];
            let start = reference_start(line);
            &&& 3 < start <= line.len()
            &&& forall|k: int| 3 <= k < start ==> is_blank(#[trigger] line[k])
            &&& start < line.len() ==> !is_blank(line[start])
            &&& line_reference(line) == Some(line.skip(start))
            &&& scan(text, base).contains_key(i)
            &&& scan(text, base)[i] == joined_path(base, module_file(line.skip(start)))
        }),
{
    let line = lines(text)[i];
    lemma_first_from(line, not_blank(), 3);
    assert(line.skip(reference_start(line)) =~= line.subrange(
        reference_start(line),
        line.len() as int,
    ));
}

/// A line with no opening line before it gives no entry, however it is
/// written.
pub proof fn lemma_no_entry_before_section(text: Seq<char>, base: Seq<char>, i: int)
    requires
        forall|k: int|
            0 <= k < i && k < lines(text).len() ==> !has_prefix(
                #[trigger] lines(text)[k],
                opening_marker(),
            ),
    ensures
        !scan(text, base).contains_key(i),
{
    let all = lines(text);
    lemma_first_from(all, opens_section(), 0);
    let start = section_start(all);
    lemma_first_from(all, closes_section(), start);
    if in_section(all, i) {
        assert(has_prefix(all[start], opening_marker()));
    }
}

/// A line at or behind a closing line that stands at or behind an opening
/// line gives no entry, however it is written.
pub proof fn lemma_no_entry_after_section(
    text: Seq<char>,
    base: Seq<char>,
    opening: int,
    closing: int,
    i: int,
)
    requires
        0 <= opening <= closing <= i,
        closing < lines(text).len(),
        has_prefix(lines(text)[opening], opening_marker()),
        has_prefix(lines(text)[closing], closing_marker()),
    ensures
        !scan(text, base).contains_key(i),
{
    let all = lines(text);
    lemma_first_from(all, opens_section(), 0);
    let start = section_start(all);
    assert(start <= opening) by {
        if opening < start {
            assert(!has_prefix(all[opening], opening_marker()));
        }
    }
    lemma_first_from(all, closes_section(), start);
    let end = section_end(all);
    assert(end <= closing) by {
        if closing < end {
            assert(!has_prefix(all[closing], closing_marker()));
        }
    }
}

/// Two scans of one text against one directory give the same mapping, entry
/// for entry.
pub proof fn lemma_scan_is_repeatable(
    first: DocumentMapping,
    second: DocumentMapping,
    text: Seq<char>,
    base: Seq<char>,
)
    requires
        first.wf(),
        second.wf(),
        first@ == scan(text, base),
        second@ == scan(text, base),
    ensures
        first@ == second@,
        first.listing() == second.listing(),
{
    first.lemma_listing();
    second.lemma_listing();
}

/// A line that opens the section does not close it.
proof fn lemma_markers_differ(line: Seq<char>)
    requires
        has_prefix(line, opening_marker()),
    ensures
        !has_prefix(line, closing_marker()),
{
    reveal_strlit("include:");
    reveal_strlit("steps:");
    if has_prefix(line, closing_marker()) {
        assert(line.subrange(0, 8)[0] == 'i');
        assert(line.subrange(0, 6)[0] == 's');
    }
}

/// Scans the text of a document that lies in the directory `base_path`.
pub fn parse_includes_map(input: &str, base_path: &str) -> (mapping: DocumentMapping)
    ensures
        mapping.wf(),
        mapping@ == scan(input@, base_path@),
        mapping.listing() == scan_listing(input@, base_path@),
{
    let text = chars_of(input);
    let opening = chars_of("include:");
    let closing = chars_of("steps:");
    let mut mapping = DocumentMapping::new();
    let mut start: usize = 0;
    let mut number: usize = 0;
    let mut opened = false;
    let mut closed = false;
    let ghost all = lines(text@);
    let ghost lo: int = 0;
    let ghost hi: int = 0;
    assert(all.skip(0) =~= all);
    while start < text.len() && !closed
        invariant
            text@ == input@,
            opening@ == opening_marker(),
            closing@ == closing_marker(),
            all == lines(text@),
            start <= text.len(),
            number <= start,
            number <= all.len(),
            all.skip(number as int) == lines_from(text@, start as int),
            0 <= lo <= hi <= number,
            forall|k: int| 0 <= k < lo ==> !has_prefix(#[trigger] all[k], opening_marker()),
            lo < number ==> has_prefix(all[lo], opening_marker()),
            forall|k: int| lo <= k < hi ==> !has_prefix(#[trigger] all[k], closing_marker()),
            hi < number ==> has_prefix(all[hi], closing_marker()),
            opened == (lo < number),
            closed == (hi < number),
            mapping.wf(),
            forall|i: int|
                #![trigger mapping@.contains_key(i)]
                #![trigger all[i]]
                mapping@.contains_key(i) <==> (lo < i < hi && is_reference_line(all[i])),
            forall|i: int|
                mapping@.contains_key(i) ==> #[trigger] mapping@[i] == candidate_path(
                    base_path@,
                    all[i],
                ),
        decreases text.len() - start,
    {
        let cut = find_line_break(text.as_slice(), start);
        let end = if start < cut && cut < text.len() && text[cut - 1] == '\r' {
            cut - 1
        } else {
            cut
        };
        let line = &text.as_slice()[start..end];
        let next = if cut < text.len() {
            cut + 1
        } else {
            cut
        };
        proof {
            let rest = lines_from(text@, start as int);
            assert(line@ == line_body(text@, start as int, cut as int));
            assert(rest == seq![line@] + lines_from(text@, cut + 1));
            assert(lines_from(text@, cut + 1) == lines_from(text@, next as int));
            assert(all.skip(number as int).len() == all.len() - number);
            assert(all.skip(number as int)[0] == line@);
            assert(all[number as int] == line@);
            assert(all.skip(number + 1) =~= all.skip(number as int).skip(1));
            assert(rest.skip(1) =~= lines_from(text@, next as int));
        }
        if !opened {
            if starts_with(line, opening.as_slice()) {
                opened = true;
                proof {
                    lemma_markers_differ(line@);
                    hi = number + 1;
                }
            } else {
                proof {
                    lo = number + 1;
                    hi = number + 1;
                }
            }
        } else if starts_with(line, closing.as_slice()) {
            closed = true;
        } else {
            proof {
                hi = number + 1;
            }
            match find_reference(line) {
                Some(at) => {
                    let file = file_of_reference(&line[at..line.len()]);
                    let path = join(base_path, file.as_str());
                    mapping.push(number, path);
                },
                None => {},
            }
        }
        number = number + 1;
        start = next;
    }
    proof {
        if !closed {
            assert(all.skip(number as int).len() == 0);
        }
        lemma_first_from_is(all, opens_section(), 0, lo);
        lemma_first_from_is(all, closes_section(), lo, hi);
        assert(mapping@ =~= scan(input@, base_path@));
        mapping.lemma_listing();
    }
    mapping
}

} // verus!
