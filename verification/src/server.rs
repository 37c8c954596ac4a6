//! The per-request dispatch of the dictionary server.
//!
//! Each connection handler decodes a request, routes it to the store or
//! the statistics table, and builds the response. A Get additionally
//! yields the boolean outcome signal that the handler forwards to the
//! aggregator's queue; a failed forward is reported but never fails the
//! request.
use vstd::prelude::*;

use crate::db::lookup;
use crate::db::Db;
use crate::db::DbResult;
use crate::dto::opt_view;
use crate::dto::ReqModel;
use crate::dto::Request;
use crate::dto::ResModel;
use crate::dto::Response;
use crate::stats::read_stats;
use crate::stats::spec_stats_response;
use crate::stats_db::StatsDb;

verus! {

/// The response and aggregator signal owed for a Get against a dictionary
/// holding `m`: the stored value on a hit, "not found" on a miss.
pub open spec fn spec_get_response(m: Map<Seq<char>, Seq<char>>, k: Seq<char>) -> (ResModel, bool) {
    match lookup(m, k) {
        Option::Some(v) => (
            ResModel::Get { ok: true, val: Option::Some(v), err: Option::None },
            true,
        ),
        Option::None => (
            ResModel::Get { ok: false, val: Option::None, err: Option::Some("not found"@) },
            false,
        ),
    }
}

/// Builds the Get response and aggregator signal from a store outcome:
/// a hit reports the value, a miss reports "not found", and a store error
/// reports the error's description; only a hit signals success.
pub fn get_response(outcome: DbResult<Option<String>>) -> (r: (Response, bool))
    ensures
        match outcome {
            Ok(v) => match v {
                Option::Some(x) => r.0@ == (ResModel::Get {
                    ok: true,
                    val: Option::Some(x@),
                    err: Option::None,
                }) && r.1,
                Option::None => r.0@ == (ResModel::Get {
                    ok: false,
                    val: Option::None,
                    err: Option::Some("not found"@),
                }) && !r.1,
            },
            Err(e) => r.0@ == (ResModel::Get {
                ok: false,
                val: Option::None,
                err: Option::Some(e@),
            }) && !r.1,
        },
{
    match outcome {
        Ok(Option::Some(x)) => (
            Response::Get { ok: true, val: Option::Some(x), err: Option::None },
            true,
        ),
        Ok(Option::None) => (
            Response::Get {
                ok: false,
                val: Option::None,
                err: Option::Some("not found".to_owned()),
            },
            false,
        ),
        Err(e) => {
            let msg = e.message().clone();
            (Response::Get { ok: false, val: Option::None, err: Option::Some(msg) }, false)
        },
    }
}

/// Serves a Get request: reads the store (cache first) and reports the
/// outcome, together with the signal for the statistics aggregator. When
/// the cache already holds a confirmed outcome for the key, the response
/// is exactly the one the dictionary contents owe.
pub fn handle_get(dict: &mut Db, key: &String) -> (r: (Response, bool))
    requires
        old(dict).wf(),
    ensures
        final(dict).wf(),
        final(dict).contents() == old(dict).contents(),
        final(dict).index_name() == old(dict).index_name(),
        r.0@ matches ResModel::Get { ok, val, err },
        r.1 ==> (r.0@, r.1) == spec_get_response(old(dict).contents(), key@),
        (r.0@ matches ResModel::Get { ok: true, .. }) == r.1,
        old(dict).cache_map().contains_key(key@) ==> (r.0@, r.1) == spec_get_response(
            old(dict).contents(),
            key@,
        ) && final(dict).cache_map() == old(dict).cache_map(),
{
    let outcome = dict.get(key);
    proof {
        if old(dict).cache_map().contains_key(key@) {
            assert(old(dict).cache_map().insert(key@, lookup(old(dict).contents(), key@)) =~= old(
                dict,
            ).cache_map());
        }
    }
    get_response(outcome)
}

/// Serves a Set request: upserts the store and reports whether the write
/// committed. On failure the error's description is returned; a failure
/// the engine rolls back changes nothing, and only a commit-stage failure
/// leaves the write possibly applied, with the key's cache entry dropped
/// so a later Get re-confirms it.
pub fn handle_put(dict: &mut Db, key: &String, val: &String) -> (r: Response)
    requires
        old(dict).wf(),
    ensures
        final(dict).wf(),
        final(dict).index_name() == old(dict).index_name(),
        r@ matches ResModel::Put { ok, err },
        r@ matches ResModel::Put { ok: true, err } ==> final(dict).contents() == old(
            dict,
        ).contents().insert(key@, val@) && final(dict).cache_map() == old(
            dict,
        ).cache_map().insert(key@, Option::Some(val@)) && err is None,
        r@ matches ResModel::Put { ok: false, err } ==> ((final(dict).contents() == old(
            dict,
        ).contents() && final(dict).cache_map() == old(dict).cache_map())
            || ((final(dict).contents() == old(dict).contents() || final(dict).contents() == old(
            dict,
        ).contents().insert(key@, val@)) && final(dict).cache_map() == old(
            dict,
        ).cache_map().remove(key@))) && err is Some,
{
    match dict.set(key, val) {
        Ok(()) => Response::Put { ok: true, err: Option::None },
        Err(e) => {
            let msg = e.message().clone();
            Response::Put { ok: false, err: Option::Some(msg) }
        },
    }
}

/// Routes one decoded request: a Get reads the store and yields its
/// aggregator signal, a Set writes the store, and a Stats request reads
/// the two counters. Exactly the Get requests yield a signal.
pub fn handle_request(dict: &mut Db, stats: &mut StatsDb, req: &Request) -> (r: (
    Response,
    Option<bool>,
))
    requires
        old(dict).wf(),
        old(stats).wf(),
    ensures
        final(dict).wf(),
        final(stats).wf(),
        final(dict).index_name() == old(dict).index_name(),
        final(stats).index_name() == old(stats).index_name(),
        final(stats).contents() == old(stats).contents(),
        (r.1 is Some) == (req@ matches ReqModel::Get { .. }),
        match req@ {
            ReqModel::Get { key } => {
                &&& final(dict).contents() == old(dict).contents()
                &&& (r.0@ matches ResModel::Get { ok, val, err })
                &&& (match r.1 {
                    Option::Some(sig) => (sig ==> (r.0@, sig) == spec_get_response(
                        old(dict).contents(),
                        key,
                    )) && ((r.0@ matches ResModel::Get { ok: true, .. }) == sig),
                    Option::None => false,
                })
                &&& old(dict).cache_map().contains_key(key) ==> (r.0@, r.1->Some_0)
                    == spec_get_response(old(dict).contents(), key)
            },
            ReqModel::Put { key, val } => {
                &&& (r.0@ matches ResModel::Put { ok, err })
                &&& ((r.0@ matches ResModel::Put { ok: true, .. }) ==> final(dict).contents()
                    == old(dict).contents().insert(key, val) && final(dict).cache_map() == old(
                    dict,
                ).cache_map().insert(key, Option::Some(val)))
                &&& ((r.0@ matches ResModel::Put { ok: false, .. }) ==> (final(dict).contents()
                    == old(dict).contents() && final(dict).cache_map() == old(dict).cache_map())
                    || ((final(dict).contents() == old(dict).contents() || final(dict).contents()
                    == old(dict).contents().insert(key, val)) && final(dict).cache_map() == old(
                    dict,
                ).cache_map().remove(key)))
            },
            ReqModel::Stats => {
                &&& final(dict).contents() == old(dict).contents()
                &&& final(dict).cache_map() == old(dict).cache_map()
                &&& (r.0@ matches ResModel::Stats { ok, total, good, bad })
                &&& ((r.0@ matches ResModel::Stats { ok: true, .. }) ==> r.0@
                    == spec_stats_response(old(stats).contents()))
                &&& (old(stats).cache_map().contains_key(crate::stats::OK_GET) && old(
                    stats,
                ).cache_map().contains_key(crate::stats::BAD_GET) ==> r.0@ == spec_stats_response(
                    old(stats).contents(),
                ))
            },
        },
{
    match req {
        Request::Get { key } => {
            let (res, sig) = handle_get(dict, key);
            (res, Option::Some(sig))
        },
        Request::Put { key, val } => (handle_put(dict, key, val), Option::None),
        Request::Stats => (read_stats(stats), Option::None),
    }
}

/// Get-after-Set: a Get for `k` right after `v` was written under `k`
/// reports success with exactly `v`.
pub proof fn lemma_get_after_set(m: Map<Seq<char>, Seq<char>>, k: Seq<char>, v: Seq<char>)
    ensures
        spec_get_response(m.insert(k, v), k) == (
            ResModel::Get { ok: true, val: Option::Some(v), err: Option::None },
            true,
        ),
{
}

/// Miss semantics: a Get for a key the dictionary never stored reports a
/// failure carrying exactly "not found".
pub proof fn lemma_get_missing(m: Map<Seq<char>, Seq<char>>, k: Seq<char>)
    requires
        !m.contains_key(k),
    ensures
        spec_get_response(m, k) == (
            ResModel::Get { ok: false, val: Option::None, err: Option::Some("not found"@) },
            false,
        ),
{
}

/// Cache coherence: after two writes under one key, a Get reports the
/// second value; no trace of the first survives, in the dictionary or in
/// the response.
pub proof fn lemma_last_write_wins(
    m: Map<Seq<char>, Seq<char>>,
    k: Seq<char>,
    v1: Seq<char>,
    v2: Seq<char>,
)
    ensures
        m.insert(k, v1).insert(k, v2) == m.insert(k, v2),
        spec_get_response(m.insert(k, v1).insert(k, v2), k) == (
            ResModel::Get { ok: true, val: Option::Some(v2), err: Option::None },
            true,
        ),
{
    assert(m.insert(k, v1).insert(k, v2) =~= m.insert(k, v2));
}

/// Idempotence: writing the same value under the same key twice leaves
/// the dictionary as one write does, so every later Get is unchanged.
pub proof fn lemma_set_idempotent(m: Map<Seq<char>, Seq<char>>, k: Seq<char>, v: Seq<char>)
    ensures
        m.insert(k, v).insert(k, v) == m.insert(k, v),
{
    assert(m.insert(k, v).insert(k, v) =~= m.insert(k, v));
}

} // verus!
