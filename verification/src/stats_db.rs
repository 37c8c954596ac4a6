//! The durable counter store behind the statistics aggregator.
//!
//! The same design as the string dictionary of [`crate::db`], for the
//! second index of the system: a persy index mapping a one-byte counter
//! tag to an unsigned 64-bit count, read through an in-memory cache whose
//! entries record confirmed outcomes (`None` = confirmed absent).
use vstd::prelude::*;

use crate::db::DbError;
use crate::db::DbResult;
use crate::db::WriteError;
use crate::entry_map::entries_map;
use crate::entry_map::entries_unique;
use crate::entry_map::lemma_absent_key;
use crate::entry_map::lemma_map_of_prefix;
use crate::entry_map::lemma_remove_entry;
use crate::entry_map::lemma_update_entry;
use crate::entry_map::Entry;

verus! {

/// What a counter map holds at a tag.
pub open spec fn clookup(m: Map<u8, u64>, k: u8) -> Option<u64> {
    if m.contains_key(k) {
        Option::Some(m[k])
    } else {
        Option::None
    }
}

/// An in-memory map from counter tags to confirmed lookup outcomes.
pub struct CounterCache {
    entries: Vec<(u8, Option<u64>)>,
}

/// A counter cache record: keyed by the tag, holding the confirmed
/// outcome as it stands.
impl Entry for (u8, Option<u64>) {
    type Key = u8;

    type Val = Option<u64>;

    open spec fn key(&self) -> u8 {
        self.0
    }

    open spec fn val(&self) -> Option<u64> {
        self.1
    }
}

impl View for CounterCache {
    type V = Map<u8, Option<u64>>;

    closed spec fn view(&self) -> Map<u8, Option<u64>> {
        entries_map(self.entries@)
    }
}

impl CounterCache {
    /// Creates an empty cache: no tag has a confirmed outcome yet.
    pub fn new() -> (r: CounterCache)
        ensures
            r@ == Map::<u8, Option<u64>>::empty(),
            r.wf(),
    {
        let r = CounterCache { entries: Vec::new() };
        proof {
            assert(r@ =~= Map::<u8, Option<u64>>::empty());
        }
        r
    }

    /// Each tag is recorded at most once.
    pub closed spec fn wf(&self) -> bool {
        entries_unique(self.entries@)
    }

    /// Returns the confirmed outcome recorded for `key`, if any.
    pub fn get(&self, key: u8) -> (r: Option<Option<u64>>)
        requires
            self.wf(),
        ensures
            match r {
                Option::Some(v) => self@.contains_key(key) && self@[key] == v,
                Option::None => !self@.contains_key(key),
            },
    {
        let n = self.entries.len();
        let mut i: usize = 0;
        while i < n
            invariant
                self.wf(),
                n == self.entries.len(),
                0 <= i <= n,
                forall|j: int| 0 <= j < i ==> self.entries@[j].key() != key,
            decreases n - i,
        {
            if self.entries[i].0 == key {
                let v = self.entries[i].1;
                proof {
                    lemma_map_of_prefix(self.entries@, i + 1, key);
                    assert(self.entries@.take(i as int + 1).last() == self.entries@[i as int]);
                    assert(self.entries@.take(i as int + 1).drop_last() =~= self.entries@.take(
                        i as int,
                    ));
                }
                return Option::Some(v);
            }
            i += 1;
        }
        proof {
            lemma_absent_key(self.entries@, key);
        }
        Option::None
    }

    /// Records the outcome `val` for `key`, overwriting any earlier record.
    pub fn set(&mut self, key: u8, val: Option<u64>)
        requires
            old(self).wf(),
        ensures
            final(self).wf(),
            final(self)@ == old(self)@.insert(key, val),
    {
        let n = self.entries.len();
        let mut i: usize = 0;
        while i < n
            invariant
                self.wf(),
                self.entries@ == old(self).entries@,
                n == self.entries.len(),
                0 <= i <= n,
                forall|j: int| 0 <= j < i ==> self.entries@[j].key() != key,
            decreases n - i,
        {
            if self.entries[i].0 == key {
                proof {
                    lemma_update_entry(self.entries@, i as int, (key, val));
                }
                self.entries[i] = (key, val);
                return ;
            }
            i += 1;
        }
        proof {
            lemma_absent_key(self.entries@, key);
        }
        self.entries.push((key, val));
        proof {
            assert(self.entries@.drop_last() =~= old(self).entries@);
            assert(forall|j: int|
                0 <= j < old(self).entries@.len() ==> old(self).entries@[j].key()
                    != self.entries@.last().key());
        }
    }

    /// Forgets the outcome recorded for `key`, if any: the tag returns to
    /// the unknown state.
    pub fn remove(&mut self, key: u8)
        requires
            old(self).wf(),
        ensures
            final(self).wf(),
            final(self)@ == old(self)@.remove(key),
    {
        let n = self.entries.len();
        let mut i: usize = 0;
        while i < n
            invariant
                self.wf(),
                self.entries@ == old(self).entries@,
                n == self.entries.len(),
                0 <= i <= n,
                forall|j: int| 0 <= j < i ==> self.entries@[j].key() != key,
            decreases n - i,
        {
            if self.entries[i].0 == key {
                proof {
                    lemma_remove_entry(self.entries@, i as int);
                }
                self.entries.remove(i);
                return ;
            }
            i += 1;
        }
        proof {
            lemma_absent_key(self.entries@, key);
            assert(old(self)@.remove(key) =~= old(self)@);
        }
    }
}

/// A durable counter table with a write-through read cache.
pub struct StatsDb {
    name: String,
    db: persy::Persy,
    cache: CounterCache,
    durable: Ghost<Map<u8, u64>>,
}

impl StatsDb {
    /// The model of the durable index: the counts the file holds.
    pub closed spec fn contents(&self) -> Map<u8, u64> {
        self.durable@
    }

    /// The model of the read cache.
    pub closed spec fn cache_map(&self) -> Map<u8, Option<u64>> {
        self.cache@
    }

    /// The name of the durable index.
    pub closed spec fn index_name(&self) -> Seq<char> {
        self.name@
    }

    /// The cache's own well-formedness.
    pub closed spec fn cache_wf(&self) -> bool {
        self.cache.wf()
    }

    /// Every confirmed cache entry agrees with the durable index.
    pub open spec fn wf(&self) -> bool {
        &&& self.cache_wf()
        &&& forall|k: u8|
            self.cache_map().contains_key(k) ==> self.cache_map()[k] == clookup(
                self.contents(),
                k,
            )
    }

    /// Relies on `persy::Transaction::one`: the count the index holds for
    /// the tag, read inside a fresh transaction that is rolled back
    /// explicitly (a rollback failure surfaces as an error, not a panic in
    /// persy's drop).
    #[verifier::external_body]
    fn durable_lookup(&self, key: u8) -> (r: Result<Option<u64>, String>)
        ensures
            match r {
                Ok(v) => v == clookup(self.contents(), key),
                Err(_) => true,
            },
    {
        let mut tx = match self.db.begin() {
            Ok(t) => t,
            Err(e) => return Err(e.to_string()),
        };
        let r = match tx.one::<u8, u64>(&self.name, &key) {
            Ok(v) => Ok(v),
            Err(e) => Err(e.to_string()),
        };
        match tx.rollback() {
            Ok(()) => r,
            Err(e) => Err(e.to_string()),
        }
    }

    /// Relies on `persy::Transaction::put` with value mode Replace, inside
    /// begin/prepare/commit: on success the index maps `key` to `val` and
    /// all other tags are unchanged. A failed begin, put or prepare is
    /// rolled back with nothing applied and the index unchanged; only a
    /// failure at the commit stage may come after the write was applied,
    /// so the index then holds either the old or the new count. A failed
    /// put is rolled back explicitly, not left to persy's panicking drop.
    #[verifier::external_body]
    fn durable_put(&mut self, key: u8, val: u64) -> (r: Result<(), WriteError>)
        ensures
            match r {
                Ok(_) => final(self).contents() == old(self).contents().insert(key, val),
                Err(WriteError::Unapplied(_)) => final(self).contents() == old(self).contents(),
                Err(WriteError::MaybeApplied(_)) => final(self).contents() == old(self).contents()
                    || final(self).contents() == old(self).contents().insert(key, val),
            },
            final(self).cache == old(self).cache,
            final(self).name == old(self).name,
    {
        let mut tx = match self.db.begin() {
            Ok(t) => t,
            Err(e) => return Err(WriteError::Unapplied(e.to_string())),
        };
        if let Err(e) = tx.put::<u8, u64>(&self.name, key, val) {
            let msg = e.to_string();
            let _ = tx.rollback();
            return Err(WriteError::Unapplied(msg));
        }
        match tx.prepare() {
            Ok(f) => f.commit().map_err(|e| WriteError::MaybeApplied(e.to_string())),
            Err(e) => Err(WriteError::Unapplied(e.to_string())),
        }
    }

    /// Relies on `persy::Transaction::create_index`: on success a fresh,
    /// empty index with value mode Replace exists under `self`'s name. On
    /// error, a failure at the commit stage may come after the creation
    /// was applied, so the index either does not exist yet or is the fresh
    /// empty one. A failed creation is rolled back explicitly, not left to
    /// persy's panicking drop.
    #[verifier::external_body]
    fn create_counter_index(&mut self) -> (r: Result<(), String>)
        ensures
            match r {
                Ok(_) => final(self).contents() == Map::<u8, u64>::empty(),
                Err(_) => final(self).contents() == old(self).contents() || final(self).contents()
                    == Map::<u8, u64>::empty(),
            },
            final(self).cache == old(self).cache,
            final(self).name == old(self).name,
    {
        let mut tx = match self.db.begin() {
            Ok(t) => t,
            Err(e) => return Err(e.to_string()),
        };
        if let Err(e) = tx.create_index::<u8, u64>(&self.name, persy::ValueMode::Replace) {
            let msg = e.to_string();
            let _ = tx.rollback();
            return Err(msg);
        }
        match tx.prepare() {
            Ok(f) => f.commit().map_err(|e| e.to_string()),
            Err(e) => Err(e.to_string()),
        }
    }

    /// Attaches to an existing database file. The durable counts are
    /// whatever the file holds; the cache starts empty. The file is
    /// assumed to be one this library created: a replace-mode counter
    /// index under `name`. A foreign persy file (another value mode or
    /// other key/value types) is outside the model of
    /// [`StatsDb::contents`].
    pub fn open(path: &str, name: String) -> (r: DbResult<StatsDb>)
        ensures
            match r {
                Ok(db) => db.wf() && db.cache_map() == Map::<u8, Option<u64>>::empty()
                    && db.index_name() == name@,
                Err(_) => true,
            },
    {
        match crate::db::persy_open(path) {
            Ok(p) => Ok(
                StatsDb { name, db: p, cache: CounterCache::new(), durable: Ghost(arbitrary()) },
            ),
            Err(msg) => Err(DbError::new(msg)),
        }
    }

    /// Initializes a fresh database file with one empty counter index.
    pub fn create(path: &str, name: String) -> (r: DbResult<StatsDb>)
        ensures
            match r {
                Ok(db) => db.wf() && db.contents() == Map::<u8, u64>::empty() && db.cache_map()
                    == Map::<u8, Option<u64>>::empty() && db.index_name() == name@,
                Err(_) => true,
            },
    {
        if let Err(msg) = crate::db::persy_create(path) {
            return Err(DbError::new(msg));
        }
        let mut db = match StatsDb::open(path, name) {
            Ok(db) => db,
            Err(e) => return Err(e),
        };
        match db.create_counter_index() {
            Ok(()) => Ok(db),
            Err(msg) => Err(DbError::new(msg)),
        }
    }

    /// Derives the canonical path `./{name}.db` and opens the file there,
    /// or creates it first when none exists.
    pub fn open_or_create(name: String) -> (r: DbResult<StatsDb>)
        ensures
            match r {
                Ok(db) => db.wf() && db.cache_map() == Map::<u8, Option<u64>>::empty()
                    && db.index_name() == name@,
                Err(_) => true,
            },
    {
        let mut path = String::new();
        path.push_str("./");
        path.push_str(name.as_str());
        path.push_str(".db");
        if crate::db::path_exists(path.as_str()) {
            StatsDb::open(path.as_str(), name)
        } else {
            StatsDb::create(path.as_str(), name)
        }
    }

    /// Returns the count stored for `key`: from the cache when its outcome
    /// is confirmed there, otherwise from the durable index, recording the
    /// outcome in the cache. When the cache already holds the outcome, no
    /// durable read happens and the call cannot fail.
    pub fn get(&mut self, key: u8) -> (r: DbResult<Option<u64>>)
        requires
            old(self).wf(),
        ensures
            final(self).wf(),
            final(self).contents() == old(self).contents(),
            final(self).index_name() == old(self).index_name(),
            match r {
                Ok(v) => v == clookup(old(self).contents(), key)
                    && final(self).cache_map()
                    == old(self).cache_map().insert(key, clookup(old(self).contents(), key)),
                Err(_) => final(self).cache_map() == old(self).cache_map(),
            },
            old(self).cache_map().contains_key(key) ==> r is Ok,
    {
        match self.cache.get(key) {
            Option::Some(v) => {
                proof {
                    assert(old(self).cache_map().insert(key, clookup(old(self).contents(), key))
                        =~= old(self).cache_map());
                }
                Ok(v)
            },
            Option::None => {
                match self.durable_lookup(key) {
                    Ok(v) => {
                        self.cache.set(key, v);
                        Ok(v)
                    },
                    Err(msg) => Err(DbError::new(msg)),
                }
            },
        }
    }

    /// Stores `val` under `key`: upserts the durable index inside one
    /// transaction, then writes the confirmed count through to the cache.
    /// On every failure the engine rolls back, the transaction is dropped
    /// uncommitted and neither the index nor the cache changes; only when
    /// the commit stage itself fails may the write have reached the index,
    /// and then the tag's cache entry is dropped so a later read
    /// re-confirms it against the index.
    pub fn set(&mut self, key: u8, val: u64) -> (r: DbResult<()>)
        requires
            old(self).wf(),
        ensures
            final(self).wf(),
            final(self).index_name() == old(self).index_name(),
            match r {
                Ok(_) => final(self).contents() == old(self).contents().insert(key, val)
                    && final(self).cache_map() == old(self).cache_map().insert(
                    key,
                    Option::Some(val),
                ),
                Err(_) => (final(self).contents() == old(self).contents()
                    && final(self).cache_map() == old(self).cache_map()) || ((final(self).contents()
                    == old(self).contents() || final(self).contents() == old(
                    self,
                ).contents().insert(key, val)) && final(self).cache_map() == old(
                    self,
                ).cache_map().remove(key)),
            },
    {
        match self.durable_put(key, val) {
            Ok(()) => {
                self.cache.set(key, Option::Some(val));
                Ok(())
            },
            Err(WriteError::Unapplied(msg)) => Err(DbError::new(msg)),
            Err(WriteError::MaybeApplied(msg)) => {
                self.cache.remove(key);
                Err(DbError::new(msg))
            },
        }
    }
}

} // verus!
