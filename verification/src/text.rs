//! Text as a sequence of characters: searching it, cutting it into lines, and
//! moving between `str`, `String` and character slices.

use vstd::prelude::*;

verus! {

/// `String::push` appends the character `c` to the end of the string and
/// leaves the characters before it as they were.
pub assume_specification[ String::push ](s: &mut String, c: char)
    ensures
        final(s)@ == old(s)@.push(c),
;

/// The least index at or after `from` whose element satisfies `p`, and the
/// length of `s` where no such element follows.
pub open spec fn first_from<T>(s: Seq<T>, p: spec_fn(T) -> bool, from: int) -> int
    decreases s.len() - from,
{
    if from >= s.len() {
        s.len() as int
    } else if p(s[from]) {
        from
    } else {
        first_from(s, p, from + 1)
    }
}

/// `first_from` lies between `from` and the end, passes only elements that
/// fail `p`, and stops on one that satisfies it.
pub proof fn lemma_first_from<T>(s: Seq<T>, p: spec_fn(T) -> bool, from: int)
    requires
        0 <= from <= s.len(),
    ensures
        from <= first_from(s, p, from) <= s.len(),
        forall|k: int| from <= k < first_from(s, p, from) ==> !p(#[trigger] s[k]),
        first_from(s, p, from) < s.len() ==> p(s[first_from(s, p, from)]),
    decreases s.len() - from,
{
    if from < s.len() && !p(s[from]) {
        lemma_first_from(s, p, from + 1);
    }
}

/// An index that ends a run of failures which began at `from` is `first_from`.
pub proof fn lemma_first_from_is<T>(s: Seq<T>, p: spec_fn(T) -> bool, from: int, at: int)
    requires
        0 <= from <= at <= s.len(),
        forall|k: int| from <= k < at ==> !p(#[trigger] s[k]),
        at < s.len() ==> p(s[at]),
    ensures
        first_from(s, p, from) == at,
    decreases at - from,
{
    if from < at {
        lemma_first_from_is(s, p, from + 1, at);
    }
}

/// The predicate that holds of the line feed alone.
pub open spec fn is_line_feed() -> spec_fn(char) -> bool {
    |c: char| c == '\n'
}

/// Where the line that begins at `from` is broken: the index of the next line
/// feed, or the end of the text.
pub open spec fn line_break(text: Seq<char>, from: int) -> int {
    first_from(text, is_line_feed(), from)
}

/// The line that begins at `from` and is broken at `to`, without its
/// terminator: a carriage return just before the line feed belongs to the
/// terminator, one at the end of the text does not.
pub open spec fn line_body(text: Seq<char>, from: int, to: int) -> Seq<char> {
    if from < to < text.len() && text[to - 1] == '\r' {
        text.subrange(from, to - 1)
    } else {
        text.subrange(from, to)
    }
}

/// The lines of the text from index `from` on. A line ends at a line feed or
/// at the end of the text; a final line feed opens no further line.
pub open spec fn lines_from(text: Seq<char>, from: int) -> Seq<Seq<char>>
    decreases text.len() + 1 - from,
    via lines_from_terminates
{
    if 0 <= from < text.len() {
        seq![line_body(text, from, line_break(text, from))] + lines_from(
            text,
            line_break(text, from) + 1,
        )
    } else {
        Seq::empty()
    }
}

#[via_fn]
proof fn lines_from_terminates(text: Seq<char>, from: int) {
    if 0 <= from < text.len() {
        lemma_first_from(text, is_line_feed(), from);
    }
}

/// The lines of a text, in order and without their terminators.
pub open spec fn lines(text: Seq<char>) -> Seq<Seq<char>> {
    lines_from(text, 0)
}

/// Whether `s` begins with `prefix`.
pub open spec fn has_prefix(s: Seq<char>, prefix: Seq<char>) -> bool {
    prefix.len() <= s.len() && s.subrange(0, prefix.len() as int) == prefix
}

/// The characters of `s`, in order.
pub fn chars_of(s: &str) -> (chars: Vec<char>)
    ensures
        chars@ == s@,
{
    let mut chars: Vec<char> = Vec::new();
    for c in it: s.chars()
        invariant
            chars@ == it.seq().take(it.index() as int),
            it.seq() == s@,
    {
        chars.push(c);
    }
    chars
}

/// The string that holds the characters of `chars`, in order.
pub fn string_of(chars: &[char]) -> (s: String)
    ensures
        s@ == chars@,
{
    let mut s = String::new();
    let mut i: usize = 0;
    while i < chars.len()
        invariant
            i <= chars.len(),
            s@ == chars@.subrange(0, i as int),
        decreases chars.len() - i,
    {
        s.push(chars[i]);
        i = i + 1;
    }
    s
}

/// Whether `line` begins with the characters of `prefix`.
pub fn starts_with(line: &[char], prefix: &[char]) -> (found: bool)
    ensures
        found == has_prefix(line@, prefix@),
{
    if prefix.len() > line.len() {
        return false;
    }
    let mut i: usize = 0;
    while i < prefix.len()
        invariant
            i <= prefix.len() <= line.len(),
            line@.subrange(0, i as int) == prefix@.subrange(0, i as int),
        decreases prefix.len() - i,
    {
        if line[i] != prefix[i] {
            assert(line@.subrange(0, prefix.len() as int)[i as int] != prefix@[i as int]);
            return false;
        }
        assert(line@.subrange(0, i + 1) =~= line@.subrange(0, i as int).push(line@[i as int]));
        assert(prefix@.subrange(0, i + 1) =~= prefix@.subrange(0, i as int).push(prefix@[i as int]));
        i = i + 1;
    }
    assert(prefix@.subrange(0, prefix.len() as int) =~= prefix@);
    true
}

/// The index of the first line feed at or after `from`, or the length of the
/// text.
pub fn find_line_break(text: &[char], from: usize) -> (at: usize)
    requires
        from <= text.len(),
    ensures
        at == line_break(text@, from as int),
        from <= at <= text.len(),
{
    let mut at: usize = from;
    while at < text.len() && text[at] != '\n'
        invariant
            from <= at <= text.len(),
            forall|k: int| from <= k < at ==> text@[k] != '\n',
        decreases text.len() - at,
    {
        at = at + 1;
    }
    proof {
        lemma_first_from_is(text@, is_line_feed(), from as int, at as int);
    }
    at
}

} // verus!
