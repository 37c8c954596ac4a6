//! The in-memory read cache of the persistent store.
//!
//! A cache entry maps a key to an `Option<String>`:
//! - a key absent from the cache has never been looked up;
//! - a key mapped to `None` is a confirmed miss in the durable store;
//! - a key mapped to `Some(v)` is a confirmed hit with value `v`.
//!
//! This three-state design spares the durable store repeated negative
//! lookups. The entry vector is read as a map by [`crate::entry_map`].
use vstd::prelude::*;

use crate::dto::opt_view;
use crate::entry_map::entries_map;
use crate::entry_map::entries_unique;
use crate::entry_map::lemma_absent_key;
use crate::entry_map::lemma_map_of_prefix;
use crate::entry_map::lemma_remove_entry;
use crate::entry_map::lemma_update_entry;
use crate::entry_map::Entry;

verus! {

/// An in-memory map from keys to confirmed lookup outcomes.
pub struct Cache {
    entries: Vec<(String, Option<String>)>,
}

/// A dictionary cache record: keyed by the string's characters, holding
/// the view of the confirmed outcome.
impl Entry for (String, Option<String>) {
    type Key = Seq<char>;

    type Val = Option<Seq<char>>;

    open spec fn key(&self) -> Seq<char> {
        self.0@
    }

    open spec fn val(&self) -> Option<Seq<char>> {
        opt_view(self.1)
    }
}

impl View for Cache {
    type V = Map<Seq<char>, Option<Seq<char>>>;

    closed spec fn view(&self) -> Map<Seq<char>, Option<Seq<char>>> {
        entries_map(self.entries@)
    }
}

impl Cache {
    /// Creates an empty cache: no key has a confirmed outcome yet.
    pub fn new() -> (r: Cache)
        ensures
            r@ == Map::<Seq<char>, Option<Seq<char>>>::empty(),
            r.wf(),
    {
        let r = Cache { entries: Vec::new() };
        proof {
            assert(r@ =~= Map::<Seq<char>, Option<Seq<char>>>::empty());
        }
        r
    }

    /// Each key is recorded at most once.
    pub closed spec fn wf(&self) -> bool {
        entries_unique(self.entries@)
    }

    /// Returns the confirmed outcome recorded for `key`, if any.
    pub fn get(&self, key: &String) -> (r: Option<Option<String>>)
        requires
            self.wf(),
        ensures
            match r {
                Option::Some(v) => self@.contains_key(key@) && self@[key@] == opt_view(v),
                Option::None => !self@.contains_key(key@),
            },
    {
        let n = self.entries.len();
        let mut i: usize = 0;
        while i < n
            invariant
                self.wf(),
                n == self.entries.len(),
                0 <= i <= n,
                forall|j: int| 0 <= j < i ==> self.entries@[j].key() != key@,
            decreases n - i,
        {
            if self.entries[i].0 == *key {
                let v = match &self.entries[i].1 {
                    Option::Some(s) => Option::Some(s.clone()),
                    Option::None => Option::None,
                };
                proof {
                    lemma_map_of_prefix(self.entries@, i + 1, key@);
                    assert(self.entries@.take(i as int + 1).last() == self.entries@[i as int]);
                    assert(self.entries@.take(i as int + 1).drop_last() =~= self.entries@.take(
                        i as int,
                    ));
                }
                return Option::Some(v);
            }
            i += 1;
        }
        proof {
            lemma_absent_key(self.entries@, key@);
        }
        Option::None
    }

    /// Records the outcome `val` for `key`, overwriting any earlier record.
    pub fn set(&mut self, key: String, val: Option<String>)
        requires
            old(self).wf(),
        ensures
            final(self).wf(),
            final(self)@ == old(self)@.insert(key@, opt_view(val)),
    {
        let n = self.entries.len();
        let mut i: usize = 0;
        while i < n
            invariant
                self.wf(),
                self.entries@ == old(self).entries@,
                n == self.entries.len(),
                0 <= i <= n,
                forall|j: int| 0 <= j < i ==> self.entries@[j].key() != key@,
            decreases n - i,
        {
            if self.entries[i].0 == key {
                proof {
                    lemma_update_entry(self.entries@, i as int, (key, val));
                }
                self.entries[i] = (key, val);
                return ;
            }
            i += 1;
        }
        proof {
            lemma_absent_key(self.entries@, key@);
        }
        self.entries.push((key, val));
        proof {
            assert(self.entries@.drop_last() =~= old(self).entries@);
            assert(forall|j: int|
                0 <= j < old(self).entries@.len() ==> old(self).entries@[j].key()
                    != self.entries@.last().key());
        }
    }

    /// Forgets the outcome recorded for `key`, if any: the key returns to
    /// the unknown state.
    pub fn remove(&mut self, key: &String)
        requires
            old(self).wf(),
        ensures
            final(self).wf(),
            final(self)@ == old(self)@.remove(key@),
    {
        let n = self.entries.len();
        let mut i: usize = 0;
        while i < n
            invariant
                self.wf(),
                self.entries@ == old(self).entries@,
                n == self.entries.len(),
                0 <= i <= n,
                forall|j: int| 0 <= j < i ==> self.entries@[j].key() != key@,
            decreases n - i,
        {
            if self.entries[i].0 == *key {
                proof {
                    lemma_remove_entry(self.entries@, i as int);
                }
                self.entries.remove(i);
                return ;
            }
            i += 1;
        }
        proof {
            lemma_absent_key(self.entries@, key@);
            assert(old(self)@.remove(key@) =~= old(self)@);
        }
    }
}

} // verus!
