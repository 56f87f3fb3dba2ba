//! The index of the documents seen so far: for each document, by its
//! identifier, the mapping that the latest scan of its text gave.

use crate::mapping::DocumentMapping;
use crate::paths::{parent, parent_path};
use crate::scanner::{parse_includes_map, scan_listing};
use crate::table::{
    distinct, lemma_table_holds, lemma_table_push, lemma_table_update, lists, table_of,
};
use crate::uris::{file_path, file_path_of_uri};
use vstd::prelude::*;

verus! {

/// A document of the index: its identifier and its mapping.
struct Document {
    id: String,
    mapping: DocumentMapping,
}

/// The mappings of all documents seen so far, by document identifier.
pub struct DocumentIndex {
    documents: Vec<Document>,
}

impl View for DocumentIndex {
    type V = Map<Seq<char>, Seq<(int, Seq<char>)>>;

    /// From the identifier of each document to the listing of its mapping.
    open spec fn view(&self) -> Map<Seq<char>, Seq<(int, Seq<char>)>> {
        table_of(self.listing())
    }
}

impl DocumentIndex {
    /// The documents in the order in which they were first seen, each as its
    /// identifier and the listing of its mapping.
    pub closed spec fn listing(&self) -> Seq<(Seq<char>, Seq<(int, Seq<char>)>)> {
        Seq::new(
            self.documents@.len(),
            |i: int| (self.documents@[i].id@, self.documents@[i].mapping.listing()),
        )
    }

    /// No document is held twice, and each mapping is well formed.
    pub closed spec fn wf(&self) -> bool {
        &&& distinct(self.listing())
        &&& forall|i: int| 0 <= i < self.documents@.len() ==> (#[trigger] self.documents@[i]).mapping.wf()
    }

    /// The index before any document was seen.
    pub fn new() -> (index: Self)
        ensures
            index.wf(),
            index@ == Map::<Seq<char>, Seq<(int, Seq<char>)>>::empty(),
    {
        let index = DocumentIndex { documents: Vec::new() };
        assert(index@ =~= Map::<Seq<char>, Seq<(int, Seq<char>)>>::empty());
        index
    }

    /// The position of the document `id`, if it is held.
    fn position(&self, id: &String) -> (at: Option<usize>)
        ensures
            match at {
                Some(i) => i < self.listing().len() && self.listing()[i as int].0 == id@,
                None => !lists(self.listing(), id@),
            },
    {
        let mut i: usize = 0;
        while i < self.documents.len()
            invariant
                i <= self.documents.len(),
                forall|k: int| 0 <= k < i ==> (#[trigger] self.listing()[k]).0 != id@,
            decreases self.documents.len() - i,
        {
            if self.documents[i].id == *id {
                return Some(i);
            }
            i = i + 1;
        }
        None
    }

    /// The mapping of the document `id`, if the document was seen.
    pub fn get(&self, id: &str) -> (mapping: Option<&DocumentMapping>)
        requires
            self.wf(),
        ensures
            match mapping {
                Some(held) => self@.contains_key(id@) && held.listing() == self@[id@] && held.wf(),
                None => !self@.contains_key(id@),
            },
    {
        let key = id.to_owned();
        match self.position(&key) {
            Some(i) => {
                proof {
                    lemma_table_holds(self.listing(), i as int);
                }
                Some(&self.documents[i].mapping)
            },
            None => None,
        }
    }

    /// Sets the mapping of the document `id`. A mapping held for it before is
    /// dropped whole.
    pub fn insert(&mut self, id: String, mapping: DocumentMapping)
        requires
            old(self).wf(),
            mapping.wf(),
        ensures
            final(self).wf(),
            final(self)@ == old(self)@.insert(id@, mapping.listing()),
    {
        match self.position(&id) {
            Some(i) => {
                proof {
                    lemma_table_update(self.listing(), i as int, mapping.listing());
                }
                self.documents.set(i, Document { id, mapping });
                assert(self.listing() =~= old(self).listing().update(
                    i as int,
                    (old(self).listing()[i as int].0, mapping.listing()),
                ));
            },
            None => {
                proof {
                    lemma_table_push(self.listing(), id@, mapping.listing());
                }
                self.documents.push(Document { id, mapping });
                assert(self.listing() =~= old(self).listing().push((id@, mapping.listing())));
            },
        }
    }
}

/// The directory that holds the document `file_name`: the directory above
/// the file that the identifier names. `None` where the identifier names no
/// file or the file has no directory above it.
pub open spec fn base_directory(file_name: Seq<char>) -> Option<Seq<char>> {
    match file_path_of_uri(file_name) {
        Some(path) => parent_path(path),
        None => None,
    }
}

/// Takes in the text of the document `file_name`: scans it against the
/// directory that holds the document and puts the result in place of what
/// the index held for the document. Where the document has no such
/// directory, the index stays as it is and the answer is `false`.
pub fn update_files(files: &mut DocumentIndex, file_name: String, file: &str) -> (updated: bool)
    requires
        old(files).wf(),
    ensures
        final(files).wf(),
        match base_directory(file_name@) {
            Some(base) => updated && final(files)@ == old(files)@.insert(
                file_name@,
                scan_listing(file@, base),
            ),
            None => !updated && final(files)@ == old(files)@,
        },
{
    let base = match file_path(file_name.as_str()) {
        Some(path) => parent(path.as_str()),
        None => None,
    };
    match base {
        Some(base) => {
            let includes = parse_includes_map(file, base.as_str());
            files.insert(file_name, includes);
            true
        },
        None => false,
    }
}

} // verus!
