//! The cache-augmented persistent key/value store.
//!
//! The durable side is a persy file holding one named index that maps
//! string keys to string values with replace semantics. Every durable
//! operation runs inside one persy transaction; a failed transaction is
//! dropped uncommitted, so no partial effect survives. The in-memory
//! [`Cache`] guards the durable index from redundant lookups and remembers
//! confirmed misses.
//!
//! The durable index is modelled by a ghost map from key characters to
//! value characters; the store's invariant ties every cache entry to that
//! map.
use vstd::prelude::*;

use crate::cache::Cache;
use crate::dto::opt_view;

verus! {

/// Declares `persy::Persy`, the handle to the durable storage engine, as
/// an opaque outside type so the stores can hold one.
#[verifier::external_type_specification]
#[verifier::external_body]
pub struct ExPersy(persy::Persy);

/// An error surfaced by the store; `message` describes it.
#[derive(Debug)]
pub struct DbError {
    msg: String,
}

impl View for DbError {
    type V = Seq<char>;

    closed spec fn view(&self) -> Seq<char> {
        self.msg@
    }
}

impl DbError {
    pub fn new(msg: String) -> (r: DbError)
        ensures
            r@ == msg@,
    {
        DbError { msg }
    }

    /// The human-readable description of the error.
    pub fn message(&self) -> (r: &String)
        ensures
            r@ == self@,
    {
        &self.msg
    }
}

pub type DbResult<T> = Result<T, DbError>;

/// How a durable write failed. Every failure the engine rolls back leaves
/// the index unchanged; only a failure at the commit stage can come after
/// the changes were applied, leaving the outcome unknown.
pub(crate) enum WriteError {
    Unapplied(String),
    MaybeApplied(String),
}

/// What a map holds at a key.
pub open spec fn lookup(m: Map<Seq<char>, Seq<char>>, k: Seq<char>) -> Option<Seq<char>> {
    if m.contains_key(k) {
        Option::Some(m[k])
    } else {
        Option::None
    }
}

/// Relies on `persy::Persy::open`: attaches to an existing database file.
#[verifier::external_body]
pub(crate) fn persy_open(path: &str) -> (r: Result<persy::Persy, String>) {
    match persy::Persy::open(path, persy::Config::new()) {
        Ok(p) => Ok(p),
        Err(e) => Err(e.to_string()),
    }
}

/// Relies on `persy::Persy::create`: initializes a fresh database file.
#[verifier::external_body]
pub(crate) fn persy_create(path: &str) -> (r: Result<(), String>) {
    match persy::Persy::create(path) {
        Ok(()) => Ok(()),
        Err(e) => Err(e.to_string()),
    }
}

/// Relies on `std::path::Path::exists`: whether the path is on disk.
#[verifier::external_body]
pub(crate) fn path_exists(path: &str) -> bool {
    std::path::Path::new(path).exists()
}

/// Relies on `String::push_str`: appends the given slice's characters.
pub assume_specification[ String::push_str ](s: &mut String, other: &str)
    ensures
        final(s)@ == old(s)@ + other@,
;

fn clone_opt(o: &Option<String>) -> (r: Option<String>)
    ensures
        opt_view(r) == opt_view(*o),
{
    match o {
        Option::Some(s) => Option::Some(s.clone()),
        Option::None => Option::None,
    }
}

/// A durable string dictionary with a write-through read cache.
pub struct Db {
    name: String,
    db: persy::Persy,
    cache: Cache,
    durable: Ghost<Map<Seq<char>, Seq<char>>>,
}

impl Db {
    /// The model of the durable index: the mapping the file holds.
    pub closed spec fn contents(&self) -> Map<Seq<char>, Seq<char>> {
        self.durable@
    }

    /// The model of the read cache (see [`Cache`] for the three states).
    pub closed spec fn cache_map(&self) -> Map<Seq<char>, Option<Seq<char>>> {
        self.cache@
    }

    /// The name of the durable index.
    pub closed spec fn index_name(&self) -> Seq<char> {
        self.name@
    }

    /// The cache's own well-formedness.
    pub closed spec fn cache_wf(&self) -> bool {
        self.cache.wf()
    }

    /// Every confirmed cache entry agrees with the durable index.
    pub open spec fn wf(&self) -> bool {
        &&& self.cache_wf()
        &&& forall|k: Seq<char>|
            self.cache_map().contains_key(k) ==> self.cache_map()[k] == lookup(
                self.contents(),
                k,
            )
    }

    /// Relies on `persy::Transaction::one`: the value the index holds for
    /// the key, read inside a fresh transaction that is rolled back
    /// explicitly (a rollback failure surfaces as an error, not a panic in
    /// persy's drop).
    #[verifier::external_body]
    fn durable_lookup(&self, key: &String) -> (r: Result<Option<String>, String>)
        ensures
            match r {
                Ok(v) => opt_view(v) == lookup(self.contents(), key@),
                Err(_) => true,
            },
    {
        let mut tx = match self.db.begin() {
            Ok(t) => t,
            Err(e) => return Err(e.to_string()),
        };
        let r = match tx.one::<String, String>(&self.name, key) {
            Ok(v) => Ok(v),
            Err(e) => Err(e.to_string()),
        };
        match tx.rollback() {
            Ok(()) => r,
            Err(e) => Err(e.to_string()),
        }
    }

    /// Relies on `persy::Transaction::put` with value mode Replace, inside
    /// begin/prepare/commit: on success the index maps `key` to `val` and
    /// all other keys are unchanged. A failed begin, put or prepare is
    /// rolled back with nothing applied and the index unchanged; only a
    /// failure at the commit stage may come after the write was applied,
    /// so the index then holds either the old or the new mapping. A failed
    /// put is rolled back explicitly, not left to persy's panicking drop.
    #[verifier::external_body]
    fn durable_put(&mut self, key: &String, val: &String) -> (r: Result<(), WriteError>)
        ensures
            match r {
                Ok(_) => final(self).contents() == old(self).contents().insert(key@, val@),
                Err(WriteError::Unapplied(_)) => final(self).contents() == old(self).contents(),
                Err(WriteError::MaybeApplied(_)) => final(self).contents() == old(self).contents()
                    || final(self).contents() == old(self).contents().insert(key@, val@),
            },
            final(self).cache == old(self).cache,
            final(self).name == old(self).name,
    {
        let mut tx = match self.db.begin() {
            Ok(t) => t,
            Err(e) => return Err(WriteError::Unapplied(e.to_string())),
        };
        if let Err(e) = tx.put::<String, String>(&self.name, key.clone(), val.clone()) {
            let msg = e.to_string();
            let _ = tx.rollback();
            return Err(WriteError::Unapplied(msg));
        }
        match tx.prepare() {
            Ok(f) => f.commit().map_err(|e| WriteError::MaybeApplied(e.to_string())),
            Err(e) => Err(WriteError::Unapplied(e.to_string())),
        }
    }

    /// Relies on `persy::Transaction::create_index`: on success a fresh,
    /// empty index with value mode Replace exists under `self`'s name. On
    /// error, a failure at the commit stage may come after the creation
    /// was applied, so the index either does not exist yet or is the fresh
    /// empty one. A failed creation is rolled back explicitly, not left to
    /// persy's panicking drop.
    #[verifier::external_body]
    fn create_dict_index(&mut self) -> (r: Result<(), String>)
        ensures
            match r {
                Ok(_) => final(self).contents() == Map::<Seq<char>, Seq<char>>::empty(),
                Err(_) => final(self).contents() == old(self).contents() || final(self).contents()
                    == Map::<Seq<char>, Seq<char>>::empty(),
            },
            final(self).cache == old(self).cache,
            final(self).name == old(self).name,
    {
        let mut tx = match self.db.begin() {
            Ok(t) => t,
            Err(e) => return Err(e.to_string()),
        };
        if let Err(e) = tx.create_index::<String, String>(&self.name, persy::ValueMode::Replace) {
            let msg = e.to_string();
            let _ = tx.rollback();
            return Err(msg);
        }
        match tx.prepare() {
            Ok(f) => f.commit().map_err(|e| e.to_string()),
            Err(e) => Err(e.to_string()),
        }
    }

    /// Attaches to an existing database file. The durable contents are
    /// whatever the file holds; the cache starts empty. The file is
    /// assumed to be one this library created: a replace-mode string
    /// index under `name`. A foreign persy file (another value mode or
    /// other key/value types) is outside the model of [`Db::contents`].
    pub fn open(path: &str, name: String) -> (r: DbResult<Db>)
        ensures
            match r {
                Ok(db) => db.wf() && db.cache_map() == Map::<Seq<char>, Option<Seq<char>>>::empty()
                    && db.index_name() == name@,
                Err(_) => true,
            },
    {
        match persy_open(path) {
            Ok(p) => Ok(Db { name, db: p, cache: Cache::new(), durable: Ghost(arbitrary()) }),
            Err(msg) => Err(DbError::new(msg)),
        }
    }

    /// Initializes a fresh database file with one empty index named
    /// `name`, whose value mode replaces on overwrite.
    pub fn create(path: &str, name: String) -> (r: DbResult<Db>)
        ensures
            match r {
                Ok(db) => db.wf() && db.contents() == Map::<Seq<char>, Seq<char>>::empty()
                    && db.cache_map() == Map::<Seq<char>, Option<Seq<char>>>::empty()
                    && db.index_name() == name@,
                Err(_) => true,
            },
    {
        if let Err(msg) = persy_create(path) {
            return Err(DbError::new(msg));
        }
        let mut db = match Db::open(path, name) {
            Ok(db) => db,
            Err(e) => return Err(e),
        };
        match db.create_dict_index() {
            Ok(()) => Ok(db),
            Err(msg) => Err(DbError::new(msg)),
        }
    }

    /// Derives the canonical path `./{name}.db` and opens the file there,
    /// or creates it first when none exists.
    pub fn open_or_create(name: String) -> (r: DbResult<Db>)
        ensures
            match r {
                Ok(db) => db.wf() && db.cache_map() == Map::<Seq<char>, Option<Seq<char>>>::empty()
                    && db.index_name() == name@,
                Err(_) => true,
            },
    {
        let mut path = String::new();
        path.push_str("./");
        path.push_str(name.as_str());
        path.push_str(".db");
        if path_exists(path.as_str()) {
            Db::open(path.as_str(), name)
        } else {
            Db::create(path.as_str(), name)
        }
    }

    /// Returns the value stored for `key`: from the cache when its outcome
    /// is confirmed there, otherwise from the durable index, recording the
    /// outcome in the cache. When the cache already holds the outcome, no
    /// durable read happens and the call cannot fail.
    pub fn get(&mut self, key: &String) -> (r: DbResult<Option<String>>)
        requires
            old(self).wf(),
        ensures
            final(self).wf(),
            final(self).contents() == old(self).contents(),
            final(self).index_name() == old(self).index_name(),
            match r {
                Ok(v) => opt_view(v) == lookup(old(self).contents(), key@)
                    && final(self).cache_map() == old(self).cache_map().insert(
                    key@,
                    lookup(old(self).contents(), key@),
                ),
                Err(_) => final(self).cache_map() == old(self).cache_map(),
            },
            old(self).cache_map().contains_key(key@) ==> r is Ok,
    {
        match self.cache.get(key) {
            Option::Some(v) => {
                proof {
                    assert(old(self).cache_map().insert(key@, lookup(old(self).contents(), key@))
                        =~= old(self).cache_map());
                }
                Ok(v)
            },
            Option::None => {
                match self.durable_lookup(key) {
                    Ok(v) => {
                        let cached = clone_opt(&v);
                        self.cache.set(key.clone(), cached);
                        Ok(v)
                    },
                    Err(msg) => Err(DbError::new(msg)),
                }
            },
        }
    }

    /// Stores `val` under `key`: upserts the durable index inside one
    /// transaction, then writes the confirmed value through to the cache.
    /// On every failure the engine rolls back, the transaction is dropped
    /// uncommitted and neither the index nor the cache changes; only when
    /// the commit stage itself fails may the write have reached the index,
    /// and then the key's cache entry is dropped so a later read
    /// re-confirms it against the index.
    pub fn set(&mut self, key: &String, val: &String) -> (r: DbResult<()>)
        requires
            old(self).wf(),
        ensures
            final(self).wf(),
            final(self).index_name() == old(self).index_name(),
            match r {
                Ok(_) => final(self).contents() == old(self).contents().insert(key@, val@)
                    && final(self).cache_map() == old(self).cache_map().insert(
                    key@,
                    Option::Some(val@),
                ),
                Err(_) => (final(self).contents() == old(self).contents()
                    && final(self).cache_map() == old(self).cache_map()) || ((final(self).contents()
                    == old(self).contents() || final(self).contents() == old(
                    self,
                ).contents().insert(key@, val@)) && final(self).cache_map() == old(
                    self,
                ).cache_map().remove(key@)),
            },
    {
        match self.durable_put(key, val) {
            Ok(()) => {
                self.cache.set(key.clone(), Option::Some(val.clone()));
                Ok(())
            },
            Err(WriteError::Unapplied(msg)) => Err(DbError::new(msg)),
            Err(WriteError::MaybeApplied(msg)) => {
                self.cache.remove(key);
                Err(DbError::new(msg))
            },
        }
    }
}

} // verus!
