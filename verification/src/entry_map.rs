//! Entry vectors read as maps.
//!
//! The in-memory caches store their records as a vector of entries with
//! unique keys and read it as a `Map` from each entry's mathematical key
//! to its mathematical value. This module holds that reading and its
//! lemmas once, for any entry type: what an update at an index does to
//! the map, what a removal does, and how a scanned prefix relates to the
//! whole.
use vstd::prelude::*;

verus! {

/// One record of an entry vector: a key and a stored value, each with a
/// mathematical reading.
pub trait Entry: Sized {
    type Key;

    type Val;

    /// The mathematical key of the entry.
    spec fn key(&self) -> Self::Key;

    /// The mathematical value of the entry.
    spec fn val(&self) -> Self::Val;
}

/// The map denoted by a sequence of entries; a later entry for a key wins.
pub open spec fn entries_map<E: Entry>(s: Seq<E>) -> Map<E::Key, E::Val>
    decreases s.len(),
{
    if s.len() == 0 {
        Map::empty()
    } else {
        entries_map(s.drop_last()).insert(s.last().key(), s.last().val())
    }
}

/// Each key of the entry sequence occurs once.
pub open spec fn entries_unique<E: Entry>(s: Seq<E>) -> bool {
    forall|i: int, j: int| 0 <= i < j < s.len() ==> s[i].key() != s[j].key()
}

/// The prefix of a unique entry sequence is unique.
pub proof fn lemma_unique_prefix<E: Entry>(s: Seq<E>)
    requires
        entries_unique(s),
        s.len() > 0,
    ensures
        entries_unique(s.drop_last()),
{
    assert(forall|j: int| 0 <= j < s.drop_last().len() ==> #[trigger] s.drop_last()[j] == s[j]);
}

/// A prefix of a unique entry sequence denotes the restriction of the
/// whole map: the key of every later entry is absent from the prefix map.
pub proof fn lemma_prefix_absent<E: Entry>(s: Seq<E>, i: int, j: int)
    requires
        entries_unique(s),
        0 <= i <= j < s.len(),
    ensures
        !entries_map(s.take(i)).contains_key(s[j].key()),
    decreases i,
{
    if i > 0 {
        assert(s.take(i).drop_last() =~= s.take(i - 1));
        assert(s.take(i).last() == s[i - 1]);
        lemma_prefix_absent(s, i - 1, j);
    }
}

/// The map of a prefix agrees with the full map on the prefix's own keys.
pub proof fn lemma_map_of_prefix<E: Entry>(s: Seq<E>, i: int, k: E::Key)
    requires
        entries_unique(s),
        0 <= i <= s.len(),
        entries_map(s.take(i)).contains_key(k),
    ensures
        entries_map(s).contains_key(k),
        entries_map(s)[k] == entries_map(s.take(i))[k],
    decreases s.len() - i,
{
    if i < s.len() {
        assert(s.take(i + 1).drop_last() =~= s.take(i));
        assert(s.take(i + 1).last() == s[i]);
        lemma_prefix_absent(s, i, i);
        lemma_map_of_prefix(s, i + 1, k);
    } else {
        assert(s.take(i) =~= s);
    }
}

/// A key outside every entry of `s` is outside the map of `s`.
pub proof fn lemma_absent_key<E: Entry>(s: Seq<E>, k: E::Key)
    requires
        forall|i: int| 0 <= i < s.len() ==> s[i].key() != k,
    ensures
        !entries_map(s).contains_key(k),
    decreases s.len(),
{
    if s.len() > 0 {
        lemma_absent_key(s.drop_last(), k);
    }
}

/// Updating the entry at `i` (same key) updates the map at that key.
pub proof fn lemma_update_entry<E: Entry>(s: Seq<E>, i: int, e: E)
    requires
        entries_unique(s),
        0 <= i < s.len(),
        e.key() == s[i].key(),
    ensures
        entries_map(s.update(i, e)) =~= entries_map(s).insert(e.key(), e.val()),
        entries_unique(s.update(i, e)),
    decreases s.len(),
{
    let t = s.update(i, e);
    if i == s.len() - 1 {
        assert(t.drop_last() =~= s.drop_last());
        assert(t.last() == e);
    } else {
        assert(t.drop_last() =~= s.drop_last().update(i, e));
        assert(t.last() == s.last());
        lemma_update_entry(s.drop_last(), i, e);
        assert(s.last().key() != e.key());
    }
}

/// Removing the entry at `i` removes exactly its key from the map.
pub proof fn lemma_remove_entry<E: Entry>(s: Seq<E>, i: int)
    requires
        entries_unique(s),
        0 <= i < s.len(),
    ensures
        entries_map(s.remove(i)) =~= entries_map(s).remove(s[i].key()),
        entries_unique(s.remove(i)),
    decreases s.len(),
{
    let k = s[i].key();
    let t = s.remove(i);
    s.remove_ensures(i);
    assert forall|a: int, b: int| 0 <= a < b < t.len() implies t[a].key() != t[b].key() by {
        assert(t[a] == if a < i {
            s[a]
        } else {
            s[a + 1]
        });
        assert(t[b] == if b < i {
            s[b]
        } else {
            s[b + 1]
        });
    }
    if i == s.len() - 1 {
        assert(t =~= s.drop_last());
        assert(forall|j: int|
            0 <= j < s.drop_last().len() ==> #[trigger] s.drop_last()[j].key() != k);
        lemma_absent_key(s.drop_last(), k);
    } else {
        assert(t.drop_last() =~= s.drop_last().remove(i));
        assert(t.last() == s.last());
        lemma_unique_prefix(s);
        lemma_remove_entry(s.drop_last(), i);
        assert(s.last().key() != k);
    }
}

} // verus!
