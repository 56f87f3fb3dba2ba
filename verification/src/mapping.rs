//! The table that one document's scan leaves behind: for each line that
//! lists a reference, the path where the referenced module is looked for.

use crate::table::{distinct, lemma_table_holds, lemma_table_push, lists, table_of};
use vstd::prelude::*;

verus! {

/// Whether the lines of a listing strictly increase.
pub open spec fn ascending(listing: Seq<(int, Seq<char>)>) -> bool {
    forall|i: int, j: int| 0 <= i < j < listing.len() ==> listing[i].0 < listing[j].0
}

/// An ascending listing holds no line twice.
pub proof fn lemma_ascending_distinct(listing: Seq<(int, Seq<char>)>)
    requires
        ascending(listing),
    ensures
        distinct(listing),
{
    assert forall|i: int, j: int| 0 <= i < j < listing.len() implies listing[i].0 != listing[j].0 by {
        assert(listing[i].0 < listing[j].0);
    }
}

/// Without its last entry, a listing spells out the table without the key of
/// that entry.
proof fn lemma_table_drop_last(listing: Seq<(int, Seq<char>)>)
    requires
        ascending(listing),
        listing.len() > 0,
    ensures
        ascending(listing.drop_last()),
        table_of(listing.drop_last()) == table_of(listing).remove(listing.last().0),
{
    let shorter = listing.drop_last();
    let last = listing.last();
    assert(ascending(shorter));
    lemma_ascending_distinct(shorter);
    assert(!lists(shorter, last.0)) by {
        if lists(shorter, last.0) {
            let i = choose|i: int| 0 <= i < shorter.len() && #[trigger] shorter[i].0 == last.0;
            assert(listing[i].0 < listing[listing.len() - 1].0);
        }
    }
    lemma_table_push(shorter, last.0, last.1);
    assert(shorter.push((last.0, last.1)) =~= listing);
    assert(table_of(shorter) =~= table_of(listing).remove(last.0));
}

/// The last entry of an ascending listing holds the greatest line of its
/// table.
proof fn lemma_last_is_greatest(listing: Seq<(int, Seq<char>)>, line: int)
    requires
        ascending(listing),
        table_of(listing).contains_key(line),
    ensures
        listing.len() > 0,
        line <= listing.last().0,
{
    let i = choose|i: int| 0 <= i < listing.len() && #[trigger] listing[i].0 == line;
    if i < listing.len() - 1 {
        assert(listing[i].0 < listing[listing.len() - 1].0);
    }
}

/// A table has one ascending listing at most.
pub proof fn lemma_listing_unique(a: Seq<(int, Seq<char>)>, b: Seq<(int, Seq<char>)>)
    requires
        ascending(a),
        ascending(b),
        table_of(a) == table_of(b),
    ensures
        a == b,
    decreases a.len(),
{
    lemma_ascending_distinct(a);
    lemma_ascending_distinct(b);
    if a.len() == 0 {
        if b.len() > 0 {
            lemma_table_holds(b, 0);
            assert(lists(a, b[0].0));
        }
        assert(a =~= b);
    } else {
        lemma_table_holds(a, a.len() - 1);
        lemma_last_is_greatest(b, a.last().0);
        lemma_table_holds(b, b.len() - 1);
        lemma_last_is_greatest(a, b.last().0);
        assert(a.last() == b.last());
        lemma_table_drop_last(a);
        lemma_table_drop_last(b);
        lemma_listing_unique(a.drop_last(), b.drop_last());
        assert(a =~= a.drop_last().push(a.last()));
        assert(b =~= b.drop_last().push(b.last()));
    }
}

/// The ascending listing of a table.
pub open spec fn listing_of(table: Map<int, Seq<char>>) -> Seq<(int, Seq<char>)> {
    choose|listing: Seq<(int, Seq<char>)>| ascending(listing) && table_of(listing) == table
}

/// The entries of a table for the lines below `n`, in ascending order.
spec fn listing_below(table: Map<int, Seq<char>>, n: int) -> Seq<(int, Seq<char>)>
    decreases n,
{
    if n <= 0 {
        Seq::empty()
    } else if table.contains_key(n - 1) {
        listing_below(table, n - 1).push((n - 1, table[n - 1]))
    } else {
        listing_below(table, n - 1)
    }
}

/// `listing_below` is ascending and spells out the table for the lines from
/// zero up to `n`.
proof fn lemma_listing_below(table: Map<int, Seq<char>>, n: int)
    requires
        0 <= n,
    ensures
        ascending(listing_below(table, n)),
        forall|k: int| #[trigger]
            table_of(listing_below(table, n)).contains_key(k) <==> (0 <= k < n
                && table.contains_key(k)),
        forall|k: int|
            0 <= k < n && table.contains_key(k) ==> #[trigger] table_of(listing_below(table, n))[k]
                == table[k],
    decreases n,
{
    if n > 0 {
        lemma_listing_below(table, n - 1);
        let before = listing_below(table, n - 1);
        if table.contains_key(n - 1) {
            lemma_ascending_distinct(before);
            assert(!table_of(before).contains_key(n - 1));
            assert forall|i: int| 0 <= i < before.len() implies (#[trigger] before[i]).0 < n - 1 by {
                lemma_table_holds(before, i);
                assert(table_of(before).contains_key(before[i].0));
            }
            lemma_table_push(before, n - 1, table[n - 1]);
        }
    } else {
        assert forall|k: int| !(#[trigger] table_of(listing_below(table, n)).contains_key(k)) by {
            assert(!lists(listing_below(table, n), k));
        }
    }
}

/// A table whose lines all lie from zero up to `n` has an ascending listing,
/// and `listing_of` is that listing.
pub proof fn lemma_listing_exists(table: Map<int, Seq<char>>, n: int)
    requires
        forall|k: int| table.contains_key(k) ==> 0 <= k < n,
    ensures
        ascending(listing_of(table)),
        table_of(listing_of(table)) == table,
{
    let bound = if n < 0 {
        0
    } else {
        n
    };
    lemma_listing_below(table, bound);
    let found = listing_below(table, bound);
    assert(table_of(found) =~= table);
    assert(ascending(found) && table_of(found) == table);
}

/// The paths of a listing, in its order.
pub open spec fn paths_of(listing: Seq<(int, Seq<char>)>) -> Seq<Seq<char>> {
    Seq::new(listing.len(), |i: int| listing[i].1)
}

/// One reference of a document: the line that lists it, counted from zero,
/// and the path where the module it names is looked for.
pub struct IncludeEntry {
    pub line: usize,
    pub path: String,
}

/// The references of one document, by line.
pub struct DocumentMapping {
    entries: Vec<IncludeEntry>,
}

impl View for DocumentMapping {
    type V = Map<int, Seq<char>>;

    /// From each line that lists a reference to the candidate path of that
    /// reference.
    open spec fn view(&self) -> Map<int, Seq<char>> {
        table_of(self.listing())
    }
}

impl DocumentMapping {
    /// The entries in the order in which they are held, each as its line and
    /// its path.
    pub closed spec fn listing(&self) -> Seq<(int, Seq<char>)> {
        Seq::new(
            self.entries@.len(),
            |i: int| (self.entries@[i].line as int, self.entries@[i].path@),
        )
    }

    /// The entries are held in the order of their lines, each line once.
    pub open spec fn wf(&self) -> bool {
        ascending(self.listing())
    }

    /// The mapping of a document that lists no reference.
    pub fn new() -> (mapping: Self)
        ensures
            mapping.wf(),
            mapping.listing() == Seq::<(int, Seq<char>)>::empty(),
            mapping@ == Map::<int, Seq<char>>::empty(),
    {
        let mapping = DocumentMapping { entries: Vec::new() };
        assert(mapping.listing() =~= Seq::<(int, Seq<char>)>::empty());
        assert(mapping@ =~= Map::<int, Seq<char>>::empty());
        mapping
    }

    /// The number of references.
    pub fn len(&self) -> (n: usize)
        ensures
            n == self.listing().len(),
    {
        self.entries.len()
    }

    /// The entry at position `i`, counted in the order of the lines.
    pub fn entry(&self, i: usize) -> (entry: &IncludeEntry)
        requires
            i < self.listing().len(),
        ensures
            entry.line == self.listing()[i as int].0,
            entry.path@ == self.listing()[i as int].1,
    {
        &self.entries[i]
    }

    /// The paths of all entries, in the order of their lines.
    pub fn paths(&self) -> (paths: Vec<String>)
        ensures
            paths.deep_view() == paths_of(self.listing()),
    {
        let mut paths: Vec<String> = Vec::new();
        let mut i: usize = 0;
        while i < self.entries.len()
            invariant
                i <= self.entries.len(),
                paths@.len() == i,
                forall|k: int| 0 <= k < i ==> (#[trigger] paths@[k])@ == self.listing()[k].1,
            decreases self.entries.len() - i,
        {
            paths.push(self.entries[i].path.clone());
            i = i + 1;
        }
        assert(paths.deep_view() =~= paths_of(self.listing()));
        paths
    }

    /// A well-formed mapping is held as the ascending listing of its table.
    pub proof fn lemma_listing(&self)
        requires
            self.wf(),
        ensures
            self.listing() == listing_of(self@),
    {
        let held = self.listing();
        let chosen = listing_of(self@);
        assert(ascending(held) && table_of(held) == self@);
        lemma_listing_unique(held, chosen);
    }

    /// The candidate path of the reference that `line` lists, if it lists
    /// one.
    pub fn get(&self, line: usize) -> (path: Option<&String>)
        requires
            self.wf(),
        ensures
            path.deep_view() == self@.get(line as int),
    {
        let mut i: usize = 0;
        while i < self.entries.len()
            invariant
                i <= self.entries.len(),
                self.wf(),
                forall|k: int| 0 <= k < i ==> (#[trigger] self.listing()[k]).0 != line,
            decreases self.entries.len() - i,
        {
            if self.entries[i].line == line {
                proof {
                    lemma_ascending_distinct(self.listing());
                    lemma_table_holds(self.listing(), i as int);
                }
                return Some(&self.entries[i].path);
            }
            i = i + 1;
        }
        assert(!lists(self.listing(), line as int));
        None
    }

    /// Adds the reference of a line that lies behind every line held so far.
    pub fn push(&mut self, line: usize, path: String)
        requires
            old(self).wf(),
            forall|held: int| old(self)@.contains_key(held) ==> held < line,
        ensures
            final(self).wf(),
            final(self).listing() == old(self).listing().push((line as int, path@)),
            final(self)@ == old(self)@.insert(line as int, path@),
    {
        proof {
            let held = self.listing();
            lemma_ascending_distinct(held);
            assert(self@ == table_of(held));
            assert forall|i: int| 0 <= i < held.len() implies (#[trigger] held[i]).0 < line by {
                lemma_table_holds(held, i);
                assert(self@.contains_key(held[i].0));
            }
            lemma_table_push(held, line as int, path@);
        }
        self.entries.push(IncludeEntry { line, path });
        assert(self.listing() =~= old(self).listing().push((line as int, path@)));
    }
}

} // verus!
