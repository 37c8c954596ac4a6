//! The statistics aggregator's logic.
//!
//! Two durable counters track the cumulative outcomes of Get requests:
//! one for successful lookups, one for failed ones. Increments arrive as a
//! single serialized stream of boolean signals (`true` = hit); each signal
//! reads the counter, bumps it and writes it back. Counters are created
//! lazily by the first signal of their kind. The table is read by two
//! independent counter lookups when a statistics request is answered.
use vstd::prelude::*;

use crate::db::DbResult;
use crate::dto::ResModel;
use crate::dto::Response;
use crate::stats_db::clookup;
use crate::stats_db::StatsDb;

verus! {

/// The tag of the counter of successful Gets.
pub const OK_GET: u8 = 0;

/// The tag of the counter of failed Gets.
pub const BAD_GET: u8 = 1;

/// The counter tag a Get outcome is charged to.
pub open spec fn tag_of(ok: bool) -> u8 {
    if ok {
        OK_GET
    } else {
        BAD_GET
    }
}

/// The count after one increment: a missing counter counts as zero, and a
/// full counter stays put rather than wrapping.
pub open spec fn bumped(c: Option<u64>) -> u64 {
    match c {
        Option::None => 1,
        Option::Some(n) => if n == u64::MAX {
            u64::MAX
        } else {
            (n + 1) as u64
        },
    }
}

/// The counter table after one signal.
pub open spec fn apply_signal(m: Map<u8, u64>, ok: bool) -> Map<u8, u64> {
    m.insert(tag_of(ok), bumped(clookup(m, tag_of(ok))))
}

/// The counter table after a sequence of signals, applied in order.
pub open spec fn apply_signals(m: Map<u8, u64>, s: Seq<bool>) -> Map<u8, u64>
    decreases s.len(),
{
    if s.len() == 0 {
        m
    } else {
        apply_signal(apply_signals(m, s.drop_last()), s.last())
    }
}

/// The sum of two counts, capped at the counter's width.
pub open spec fn sat_add(a: u64, b: u64) -> u64 {
    if a + b > u64::MAX {
        u64::MAX
    } else {
        (a + b) as u64
    }
}

/// The count a counter table holds for a tag; a counter never created
/// counts as zero.
pub open spec fn count_of(m: Map<u8, u64>, k: u8) -> u64 {
    if m.contains_key(k) {
        m[k]
    } else {
        0
    }
}

/// The count a successful counter read stands for.
pub open spec fn opt_count(c: Option<u64>) -> u64 {
    match c {
        Option::Some(n) => n,
        Option::None => 0,
    }
}

/// The statistics response owed for a counter table when both counter
/// reads succeed: the two counts, zero for a counter never created, and
/// their sum.
pub open spec fn spec_stats_response(m: Map<u8, u64>) -> ResModel {
    ResModel::Stats {
        ok: true,
        total: Option::Some(sat_add(count_of(m, OK_GET), count_of(m, BAD_GET))),
        good: Option::Some(count_of(m, OK_GET)),
        bad: Option::Some(count_of(m, BAD_GET)),
    }
}

/// The statistics response for a storage failure on either counter read.
pub open spec fn failed_stats_response() -> ResModel {
    ResModel::Stats { ok: false, total: Option::None, good: Option::None, bad: Option::None }
}

/// Builds the statistics response from the two counter-read outcomes.
/// Both reads successful: the two counts (an absent record reads as
/// zero) and their capped sum, with `ok: true`. A storage error on
/// either read: the failure response, `ok: false` with no counts.
pub fn stats_response(first: DbResult<Option<u64>>, second: DbResult<Option<u64>>) -> (r: Response)
    ensures
        match (first, second) {
            (Ok(g), Ok(b)) => r@ == (ResModel::Stats {
                ok: true,
                total: Option::Some(sat_add(opt_count(g), opt_count(b))),
                good: Option::Some(opt_count(g)),
                bad: Option::Some(opt_count(b)),
            }),
            _ => r@ == failed_stats_response(),
        },
{
    match (first, second) {
        (Ok(g), Ok(b)) => {
            let gv: u64 = match g {
                Option::Some(n) => n,
                Option::None => 0,
            };
            let bv: u64 = match b {
                Option::Some(n) => n,
                Option::None => 0,
            };
            let total: u64 = if gv > u64::MAX - bv {
                u64::MAX
            } else {
                gv + bv
            };
            Response::Stats {
                ok: true,
                total: Option::Some(total),
                good: Option::Some(gv),
                bad: Option::Some(bv),
            }
        },
        _ => Response::Stats {
            ok: false,
            total: Option::None,
            good: Option::None,
            bad: Option::None,
        },
    }
}

/// Applies one Get-outcome signal to the durable counter table: reads the
/// outcome's counter, bumps it and writes it back. On error the caller
/// reports it; the increment was then either lost or applied (a commit
/// can fail after applying).
pub fn record_signal(stats: &mut StatsDb, ok: bool) -> (r: DbResult<()>)
    requires
        old(stats).wf(),
    ensures
        final(stats).wf(),
        final(stats).index_name() == old(stats).index_name(),
        match r {
            Ok(_) => final(stats).contents() == apply_signal(old(stats).contents(), ok),
            Err(_) => final(stats).contents() == old(stats).contents() || final(stats).contents()
                == apply_signal(old(stats).contents(), ok),
        },
{
    let tag = if ok {
        OK_GET
    } else {
        BAD_GET
    };
    let count = match stats.get(tag) {
        Ok(c) => c,
        Err(e) => return Err(e),
    };
    let next: u64 = match count {
        Option::Some(c) => if c == u64::MAX {
            u64::MAX
        } else {
            c + 1
        },
        Option::None => 1,
    };
    stats.set(tag, next)
}

/// Answers a statistics request by two counter reads against the store.
/// `ok` is true exactly when both reads succeed; the response then
/// reports the two counts, zero for a counter never created, and their
/// sum.
pub fn read_stats(stats: &mut StatsDb) -> (r: Response)
    requires
        old(stats).wf(),
    ensures
        final(stats).wf(),
        final(stats).contents() == old(stats).contents(),
        final(stats).index_name() == old(stats).index_name(),
        r@ matches ResModel::Stats { ok, total, good, bad },
        (r@ matches ResModel::Stats { ok: true, .. }) ==> r@ == spec_stats_response(
            old(stats).contents(),
        ),
        (r@ matches ResModel::Stats { ok: false, .. }) ==> r@ == failed_stats_response(),
        old(stats).cache_map().contains_key(OK_GET) && old(stats).cache_map().contains_key(BAD_GET)
            ==> r@ == spec_stats_response(old(stats).contents()),
{
    let first = stats.get(OK_GET);
    let second = stats.get(BAD_GET);
    stats_response(first, second)
}

/// One more recorded signal extends the sequence: what `record_signal`
/// does step by step is what `apply_signals` says of the whole stream.
pub proof fn lemma_apply_signals_snoc(m: Map<u8, u64>, s: Seq<bool>, ok: bool)
    ensures
        apply_signals(m, s.push(ok)) == apply_signal(apply_signals(m, s), ok),
{
    assert(s.push(ok).drop_last() =~= s);
    assert(s.push(ok).last() == ok);
}

/// How many signals of a sequence are hits.
pub open spec fn count_true(s: Seq<bool>) -> int
    decreases s.len(),
{
    if s.len() == 0 {
        0
    } else {
        count_true(s.drop_last()) + if s.last() {
            1int
        } else {
            0int
        }
    }
}

/// How many signals of a sequence are misses.
pub open spec fn count_false(s: Seq<bool>) -> int
    decreases s.len(),
{
    if s.len() == 0 {
        0
    } else {
        count_false(s.drop_last()) + if s.last() {
            0int
        } else {
            1int
        }
    }
}

/// The two counts are bounded by the number of signals and sum to it.
pub proof fn lemma_counts_split(s: Seq<bool>)
    ensures
        0 <= count_true(s) <= s.len(),
        0 <= count_false(s) <= s.len(),
        count_true(s) + count_false(s) == s.len(),
    decreases s.len(),
{
    if s.len() > 0 {
        lemma_counts_split(s.drop_last());
    }
}

/// After a signal sequence applied to an empty table, each counter exists
/// exactly when a signal of its kind arrived, and then holds that kind's
/// exact count.
pub proof fn lemma_signal_counts(s: Seq<bool>)
    requires
        s.len() <= u64::MAX,
    ensures
        ({
            let m = apply_signals(Map::empty(), s);
            &&& m.contains_key(OK_GET) <==> count_true(s) > 0
            &&& m.contains_key(OK_GET) ==> m[OK_GET] == count_true(s)
            &&& m.contains_key(BAD_GET) <==> count_false(s) > 0
            &&& m.contains_key(BAD_GET) ==> m[BAD_GET] == count_false(s)
        }),
    decreases s.len(),
{
    lemma_counts_split(s);
    if s.len() > 0 {
        lemma_counts_split(s.drop_last());
        lemma_signal_counts(s.drop_last());
    }
}

/// Stats exactness: after sequential Get outcomes with `g` hits and `b`
/// misses land in an empty counter table, a statistics response reports
/// exactly `good = g`, `bad = b` and `total = g + b`, also when one of
/// the counts is zero and its counter was never created.
pub proof fn lemma_stats_exact(s: Seq<bool>)
    requires
        s.len() <= u64::MAX,
    ensures
        spec_stats_response(apply_signals(Map::empty(), s)) == (ResModel::Stats {
            ok: true,
            total: Option::Some(s.len() as u64),
            good: Option::Some(count_true(s) as u64),
            bad: Option::Some(count_false(s) as u64),
        }),
{
    lemma_counts_split(s);
    lemma_signal_counts(s);
}

/// A count taken over a prefix never exceeds the count over the whole.
pub proof fn lemma_count_mono(s: Seq<bool>, i: int)
    requires
        0 <= i <= s.len(),
    ensures
        count_true(s.take(i)) <= count_true(s),
        count_false(s.take(i)) <= count_false(s),
    decreases s.len() - i,
{
    if i < s.len() {
        assert(s.take(i + 1).drop_last() =~= s.take(i));
        lemma_count_mono(s, i + 1);
    } else {
        assert(s.take(i) =~= s);
    }
}

/// The documented statistics race, bounded: a total assembled from the two
/// counters read at two earlier moments of the signal stream never exceeds
/// the true total of the whole stream, and is never negative.
pub proof fn lemma_stats_race_bound(s: Seq<bool>, i: int, j: int)
    requires
        0 <= i <= s.len(),
        0 <= j <= s.len(),
    ensures
        0 <= count_true(s.take(i)) + count_false(s.take(j)),
        count_true(s.take(i)) + count_false(s.take(j)) <= count_true(s) + count_false(s),
{
    lemma_counts_split(s.take(i));
    lemma_counts_split(s.take(j));
    lemma_count_mono(s, i);
    lemma_count_mono(s, j);
    lemma_counts_split(s);
}

} // verus!
