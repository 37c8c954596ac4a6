use std::time::SystemTime;
use std::time::UNIX_EPOCH;

use remote_dict::cache::Cache;
use remote_dict::db::Db;
use remote_dict::dto::Request;
use remote_dict::dto::Response;
use remote_dict::server::get_response;
use remote_dict::server::handle_get;
use remote_dict::server::handle_put;
use remote_dict::server::handle_request;
use remote_dict::db::DbError;
use remote_dict::stats::read_stats;
use remote_dict::stats::record_signal;
use remote_dict::stats::stats_response;
use remote_dict::stats_db::CounterCache;
use remote_dict::stats_db::StatsDb;

fn fresh_path(tag: &str) -> String {
    let nanos = SystemTime::now()
        .duration_since(UNIX_EPOCH)
        .expect("clock before epoch")
        .as_nanos();
    format!("/tmp/remote_dict_{}_{}.db", tag, nanos)
}

fn fresh_dict(tag: &str) -> Db {
    Db::create(&fresh_path(tag), "dict".to_owned()).expect("create dictionary store")
}

fn fresh_stats(tag: &str) -> StatsDb {
    StatsDb::create(&fresh_path(tag), "stats".to_owned()).expect("create stats store")
}

#[test]
fn set_then_get() {
    let mut db = fresh_dict("set_then_get");
    db.set(&"k".to_owned(), &"v".to_owned()).expect("set");
    assert_eq!(db.get(&"k".to_owned()).expect("get"), Some("v".to_owned()));
}

#[test]
fn get_missing_key() {
    let mut db = fresh_dict("get_missing");
    assert_eq!(db.get(&"nope".to_owned()).expect("get"), None);
    // the confirmed miss is remembered: the second read cannot fail either
    assert_eq!(db.get(&"nope".to_owned()).expect("get"), None);
}

#[test]
fn overwrite_returns_last_value() {
    let mut db = fresh_dict("overwrite");
    db.set(&"k".to_owned(), &"v1".to_owned()).expect("set");
    db.set(&"k".to_owned(), &"v2".to_owned()).expect("set");
    assert_eq!(db.get(&"k".to_owned()).expect("get"), Some("v2".to_owned()));
}

#[test]
fn repeated_set_is_idempotent() {
    let mut db = fresh_dict("idempotent");
    db.set(&"k".to_owned(), &"v".to_owned()).expect("set");
    let first = db.get(&"k".to_owned()).expect("get");
    db.set(&"k".to_owned(), &"v".to_owned()).expect("set");
    let second = db.get(&"k".to_owned()).expect("get");
    assert_eq!(first, second);
    assert_eq!(second, Some("v".to_owned()));
}

#[test]
fn values_survive_reopen() {
    let path = fresh_path("reopen");
    {
        let mut db = Db::create(&path, "dict".to_owned()).expect("create");
        db.set(&"k".to_owned(), &"persisted".to_owned()).expect("set");
    }
    let mut db = Db::open(&path, "dict".to_owned()).expect("open");
    assert_eq!(db.get(&"k".to_owned()).expect("get"), Some("persisted".to_owned()));
}

#[test]
fn open_missing_file_fails() {
    let err = Db::open(&fresh_path("no_such"), "dict".to_owned()).err().expect("must fail");
    assert!(!err.message().is_empty());
}

#[test]
fn create_existing_file_fails() {
    let path = fresh_path("create_twice");
    Db::create(&path, "dict".to_owned()).expect("first create");
    assert!(Db::create(&path, "dict".to_owned()).is_err());
}

#[test]
fn handle_get_reports_hit_and_miss() {
    let mut db = fresh_dict("handle_get");
    db.set(&"a".to_owned(), &"1".to_owned()).expect("set");

    let (res, signal) = handle_get(&mut db, &"a".to_owned());
    assert_eq!(res, Response::Get { ok: true, val: Some("1".to_owned()), err: None });
    assert!(signal);

    let (res, signal) = handle_get(&mut db, &"b".to_owned());
    assert_eq!(
        res,
        Response::Get { ok: false, val: None, err: Some("not found".to_owned()) }
    );
    assert!(!signal);
}

#[test]
fn handle_put_reports_success() {
    let mut db = fresh_dict("handle_put");
    let res = handle_put(&mut db, &"a".to_owned(), &"1".to_owned());
    assert_eq!(res, Response::Put { ok: true, err: None });
}

#[test]
fn get_response_from_outcomes() {
    let (res, signal) = get_response(Ok(Some("v".to_owned())));
    assert_eq!(res, Response::Get { ok: true, val: Some("v".to_owned()), err: None });
    assert!(signal);

    let (res, signal) = get_response(Ok(None));
    assert_eq!(
        res,
        Response::Get { ok: false, val: None, err: Some("not found".to_owned()) }
    );
    assert!(!signal);
}

#[test]
fn stats_before_any_signal() {
    // counters are created lazily; before any signal both read as zero
    let mut stats = fresh_stats("stats_empty");
    let res = read_stats(&mut stats);
    assert_eq!(
        res,
        Response::Stats { ok: true, total: Some(0), good: Some(0), bad: Some(0) }
    );
}

#[test]
fn stats_with_only_hits() {
    // one counter was never created; its count is reported as zero
    let mut stats = fresh_stats("stats_hits_only");
    record_signal(&mut stats, true).expect("record");
    record_signal(&mut stats, true).expect("record");
    let res = read_stats(&mut stats);
    assert_eq!(
        res,
        Response::Stats { ok: true, total: Some(2), good: Some(2), bad: Some(0) }
    );
}

#[test]
fn stats_response_from_outcomes() {
    assert_eq!(
        stats_response(Ok(Some(4)), Ok(Some(3))),
        Response::Stats { ok: true, total: Some(7), good: Some(4), bad: Some(3) }
    );
    assert_eq!(
        stats_response(Ok(Some(4)), Ok(None)),
        Response::Stats { ok: true, total: Some(4), good: Some(4), bad: Some(0) }
    );
    assert_eq!(
        stats_response(Err(DbError::new("broken".to_owned())), Ok(Some(3))),
        Response::Stats { ok: false, total: None, good: None, bad: None }
    );
}

#[test]
fn stats_counts_signals_exactly() {
    let mut stats = fresh_stats("stats_counts");
    for ok in [true, true, false, true] {
        record_signal(&mut stats, ok).expect("record");
    }
    let res = read_stats(&mut stats);
    assert_eq!(
        res,
        Response::Stats { ok: true, total: Some(4), good: Some(3), bad: Some(1) }
    );
}

#[test]
fn stats_counts_survive_reopen() {
    let path = fresh_path("stats_reopen");
    {
        let mut stats = StatsDb::create(&path, "stats".to_owned()).expect("create");
        record_signal(&mut stats, true).expect("record");
        record_signal(&mut stats, false).expect("record");
    }
    let mut stats = StatsDb::open(&path, "stats".to_owned()).expect("open");
    let res = read_stats(&mut stats);
    assert_eq!(
        res,
        Response::Stats { ok: true, total: Some(2), good: Some(1), bad: Some(1) }
    );
}

#[test]
fn stats_total_never_exceeds_final() {
    // a statistics read taken mid-stream may undercount, but it is never
    // negative and never exceeds the total of the whole stream
    let mut stats = fresh_stats("stats_bound");
    let signals = [true, false, true, true, false];
    let mut seen_totals: Vec<u64> = Vec::new();
    for ok in signals {
        record_signal(&mut stats, ok).expect("record");
        if let Response::Stats { ok: true, total: Some(total), .. } = read_stats(&mut stats) {
            seen_totals.push(total);
        }
    }
    let final_total = signals.len() as u64;
    for total in seen_totals {
        assert!(total <= final_total);
    }
    match read_stats(&mut stats) {
        Response::Stats { ok: true, total: Some(total), good: Some(good), bad: Some(bad) } => {
            assert_eq!(total, final_total);
            assert_eq!(good, 3);
            assert_eq!(bad, 2);
        }
        other => panic!("unexpected stats response {:?}", other),
    }
}

#[test]
fn full_scenario() {
    // start with an empty store, write once, hit once, miss once, then ask
    // for the statistics
    let mut dict = fresh_dict("scenario_dict");
    let mut stats = fresh_stats("scenario_stats");

    let (res, signal) = handle_request(
        &mut dict,
        &mut stats,
        &Request::Put { key: "a".to_owned(), val: "1".to_owned() },
    );
    assert_eq!(res, Response::Put { ok: true, err: None });
    assert_eq!(signal, None);

    let (res, signal) = handle_request(&mut dict, &mut stats, &Request::Get { key: "a".to_owned() });
    assert_eq!(res, Response::Get { ok: true, val: Some("1".to_owned()), err: None });
    assert_eq!(signal, Some(true));
    record_signal(&mut stats, true).expect("record");

    let (res, signal) = handle_request(&mut dict, &mut stats, &Request::Get { key: "b".to_owned() });
    assert_eq!(
        res,
        Response::Get { ok: false, val: None, err: Some("not found".to_owned()) }
    );
    assert_eq!(signal, Some(false));
    record_signal(&mut stats, false).expect("record");

    let (res, signal) = handle_request(&mut dict, &mut stats, &Request::Stats);
    assert_eq!(
        res,
        Response::Stats { ok: true, total: Some(2), good: Some(1), bad: Some(1) }
    );
    assert_eq!(signal, None);
}

#[test]
fn cache_three_states() {
    let mut cache = Cache::new();
    // unknown: never looked up
    assert_eq!(cache.get(&"k".to_owned()), None);
    // confirmed miss
    cache.set("k".to_owned(), None);
    assert_eq!(cache.get(&"k".to_owned()), Some(None));
    // confirmed hit overwrites the miss
    cache.set("k".to_owned(), Some("v".to_owned()));
    assert_eq!(cache.get(&"k".to_owned()), Some(Some("v".to_owned())));
    // other keys stay unknown
    assert_eq!(cache.get(&"other".to_owned()), None);
}

#[test]
fn counter_cache_three_states() {
    let mut cache = CounterCache::new();
    assert_eq!(cache.get(0), None);
    cache.set(0, None);
    assert_eq!(cache.get(0), Some(None));
    cache.set(0, Some(41));
    cache.set(0, Some(42));
    assert_eq!(cache.get(0), Some(Some(42)));
    assert_eq!(cache.get(1), None);
}
