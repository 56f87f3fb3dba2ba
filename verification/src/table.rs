//! Tables written out as listings: sequences of keys with their values in
//! which no key stands twice.

use vstd::prelude::*;

verus! {

/// Whether some entry of the listing stands for `key`.
pub open spec fn lists<K, V>(listing: Seq<(K, V)>, key: K) -> bool {
    exists|i: int| 0 <= i < listing.len() && #[trigger] listing[i].0 == key
}

/// Whether no key stands twice in the listing.
pub open spec fn distinct<K, V>(listing: Seq<(K, V)>) -> bool {
    forall|i: int, j: int| 0 <= i < j < listing.len() ==> listing[i].0 != listing[j].0
}

/// The table that a listing spells out: from each listed key to the value
/// listed for it.
pub open spec fn table_of<K, V>(listing: Seq<(K, V)>) -> Map<K, V> {
    Map::new(
        |key: K| lists(listing, key),
        |key: K| listing[choose|i: int| 0 <= i < listing.len() && #[trigger] listing[i].0 == key].1,
    )
}

/// Each entry of a listing without repeated keys is what the table holds for
/// its key.
pub proof fn lemma_table_holds<K, V>(listing: Seq<(K, V)>, i: int)
    requires
        distinct(listing),
        0 <= i < listing.len(),
    ensures
        table_of(listing).contains_key(listing[i].0),
        table_of(listing)[listing[i].0] == listing[i].1,
{
    let key = listing[i].0;
    let j = choose|j: int| 0 <= j < listing.len() && #[trigger] listing[j].0 == key;
    assert(i == j) by {
        if i < j {
            assert(listing[i].0 != listing[j].0);
        } else if j < i {
            assert(listing[j].0 != listing[i].0);
        }
    }
}

/// Appending an entry for a key that is not listed adds that key to the table
/// and changes nothing else.
pub proof fn lemma_table_push<K, V>(listing: Seq<(K, V)>, key: K, value: V)
    requires
        distinct(listing),
        !lists(listing, key),
    ensures
        distinct(listing.push((key, value))),
        table_of(listing.push((key, value))) == table_of(listing).insert(key, value),
{
    let longer = listing.push((key, value));
    assert forall|i: int, j: int| 0 <= i < j < longer.len() implies longer[i].0 != longer[j].0 by {
        if j == listing.len() {
            assert(listing[i].0 != key);
        } else {
            assert(listing[i].0 != listing[j].0);
        }
    }
    assert forall|k: K| #[trigger] lists(longer, k) <==> (k == key || lists(listing, k)) by {
        if lists(longer, k) {
            let i = choose|i: int| 0 <= i < longer.len() && #[trigger] longer[i].0 == k;
            if i < listing.len() {
                assert(listing[i].0 == k);
            }
        }
        if lists(listing, k) {
            let i = choose|i: int| 0 <= i < listing.len() && #[trigger] listing[i].0 == k;
            assert(longer[i].0 == k);
        }
        if k == key {
            assert(longer[listing.len() as int].0 == k);
        }
    }
    assert forall|k: K| lists(longer, k) implies #[trigger] table_of(longer)[k] == table_of(
        listing,
    ).insert(key, value)[k] by {
        let i = choose|i: int| 0 <= i < longer.len() && #[trigger] longer[i].0 == k;
        lemma_table_holds(longer, i);
        if i < listing.len() {
            lemma_table_holds(listing, i);
        }
    }
    assert(table_of(longer) =~= table_of(listing).insert(key, value));
}

/// Replacing the value of entry `i` replaces what the table holds for the key
/// of that entry and changes nothing else.
pub proof fn lemma_table_update<K, V>(listing: Seq<(K, V)>, i: int, value: V)
    requires
        distinct(listing),
        0 <= i < listing.len(),
    ensures
        distinct(listing.update(i, (listing[i].0, value))),
        table_of(listing.update(i, (listing[i].0, value))) == table_of(listing).insert(
            listing[i].0,
            value,
        ),
{
    let key = listing[i].0;
    let changed = listing.update(i, (key, value));
    assert forall|a: int, b: int| 0 <= a < b < changed.len() implies changed[a].0 != changed[b].0 by {
        assert(listing[a].0 != listing[b].0);
    }
    assert forall|k: K| #[trigger] lists(changed, k) <==> lists(listing, k) by {
        if lists(changed, k) {
            let j = choose|j: int| 0 <= j < changed.len() && #[trigger] changed[j].0 == k;
            assert(listing[j].0 == k);
        }
        if lists(listing, k) {
            let j = choose|j: int| 0 <= j < listing.len() && #[trigger] listing[j].0 == k;
            assert(changed[j].0 == k);
        }
    }
    assert(lists(listing, key)) by {
        assert(listing[i].0 == key);
    }
    assert forall|k: K| lists(changed, k) implies #[trigger] table_of(changed)[k] == table_of(
        listing,
    ).insert(key, value)[k] by {
        let j = choose|j: int| 0 <= j < changed.len() && #[trigger] changed[j].0 == k;
        lemma_table_holds(changed, j);
        lemma_table_holds(listing, j);
    }
    assert(table_of(changed) =~= table_of(listing).insert(key, value));
}

} // verus!
