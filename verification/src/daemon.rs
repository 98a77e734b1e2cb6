//! The daemon's dealings with the registry outside of requests: writing hits down,
//! and what happens to the rows when it starts and stops.

use rusqlite::Connection;
use vstd::prelude::*;

use crate::db;
use crate::db::{
    fails_on_the_way, gone_ids, ids_before, last_id, live, names_sources, no_rows, registry_sound,
    rows, slides, some_failure, sqlite_fails, touch_overflows, touched, updated, user_version, DbError, Row,
    SourceState, TARGET_USER_VERSION,
};
use crate::laws::swept;
use crate::ttl::{due, Duration, TouchDebouncer};

verus! {

/// The seconds between two sweeps of a running daemon.
pub const REAPER_INTERVAL_SECS: u64 = 300;

/// Brings the database up to date and names the sources that are to be looked at
/// before the rows are pruned.
pub fn start_up(conn: &mut Connection) -> (res: Result<Vec<(i64, String)>, DbError>)
    ensures
        res matches Ok(v) ==> {
            &&& names_sources(v@, rows(*final(conn)))
            &&& user_version(*final(conn)) >= TARGET_USER_VERSION
            &&& user_version(*old(conn)) < TARGET_USER_VERSION ==> {
                &&& v@.len() == 0
                &&& user_version(*old(conn)) == 0
                &&& user_version(*final(conn)) == 1
                &&& rows(*final(conn)) == no_rows()
                &&& last_id(*final(conn)) == 0
            }
            &&& registry_sound(*old(conn)) ==> registry_sound(*final(conn))
        },
        user_version(*old(conn)) >= TARGET_USER_VERSION ==> *final(conn) == *old(conn),
        user_version(*old(conn)) < 0 ==> res is Err && *final(conn) == *old(conn),
        res matches Err(e) ==> fails_on_the_way(e) || e is NoMigration,
        res matches Err(DbError::NoMigration(v)) ==> v == user_version(*old(conn)) + 1 && v <= 0,
{
    match db::migrate(conn) {
        Err(e) => Err(e),
        Ok(()) => {
            let found = db::sources(conn);
            proof {
                if found is Err {
                    assert(sqlite_fails(*conn, found->Err_0));
                }
                if found is Ok && user_version(*old(conn)) < TARGET_USER_VERSION {
                    let v = found->Ok_0@;
                    if v.len() > 0 {
                        assert(rows(*conn).dom().contains(v[0].0));
                    }
                }
            }
            found
        },
    }
}

/// Takes note of a hit on registration `id`, and writes it where it is due. `at`
/// is the time since the daemon started, `now` the time of the registry. Says
/// whether the hit was due.
pub fn hit(
    touch: &mut TouchDebouncer,
    conn: &mut Connection,
    id: i64,
    ttl_seconds: Option<i64>,
    at: Duration,
    now: i64,
) -> (res: Result<bool, DbError>)
    requires
        old(touch).well_formed(),
    ensures
        final(touch).well_formed(),
        final(touch).window() == old(touch).window(),
        ({
            let d = due(old(touch).pending(), old(touch).window(), id, ttl_seconds, at.total());
            &&& final(touch).pending() == if d {
                old(touch).pending().insert(id, at.total() as u128)
            } else {
                old(touch).pending()
            }
            &&& !d ==> res == Ok::<bool, DbError>(false) && *final(conn) == *old(conn)
            &&& d && res is Ok ==> res->Ok_0 && rows(*final(conn)) == updated(
                rows(*old(conn)),
                id,
                |r: Row| touched(r, now),
            ) && last_id(*final(conn)) == last_id(*old(conn))
            &&& !slides(rows(*old(conn)), id, now) ==> *final(conn) == *old(conn)
            &&& d && res is Ok && rows(*old(conn)).dom().contains(id) ==> !touch_overflows(
                rows(*old(conn))[id],
                now,
            )
            &&& res is Ok && registry_sound(*old(conn)) ==> registry_sound(*final(conn))
        }),
        res matches Err(e) ==> sqlite_fails(*old(conn), e) || (e is DeadlineOverflow && *final(conn)
            == *old(conn) && rows(*old(conn)).dom().contains(id) && touch_overflows(
            rows(*old(conn))[id],
            now,
        )),
{
    if !touch.touch(id, ttl_seconds, at) {
        return Ok(false);
    }
    match db::flush_one(conn, id, now) {
        Ok(()) => Ok(true),
        Err(e) => Err(e),
    }
}

/// The rows after hits at `now` on the registrations `ids`.
pub open spec fn all_touched(m: Map<i64, Row>, ids: Set<i64>, now: i64) -> Map<i64, Row> {
    Map::new(
        |id: i64| m.dom().contains(id),
        |id: i64| if ids.contains(id) {
            touched(m[id], now)
        } else {
            m[id]
        },
    )
}

/// Those of the registrations `ids` on which a hit at `now` sets no deadline past
/// the end of time.
pub open spec fn fitting(m: Map<i64, Row>, ids: Set<i64>, now: i64) -> Set<i64> {
    ids.filter(|id: i64| !(m.dom().contains(id) && touch_overflows(m[id], now)))
}

/// The rows after hits at `now` on the registrations `ids` were written, as far as
/// their deadlines can be.
pub open spec fn flushed(m: Map<i64, Row>, ids: Set<i64>, now: i64) -> Map<i64, Row> {
    all_touched(m, fitting(m, ids, now), now)
}

/// SQLite failed in none of the outcomes.
pub open spec fn none_failed(outcomes: Seq<Result<(), DbError>>) -> bool {
    forall|i: int| 0 <= i < outcomes.len() ==> !(#[trigger] outcomes[i] matches Err(
        DbError::Sqlite(_),
    ))
}

/// A hit at `now` on registration `id` was to be written, and this came of it.
pub closed spec fn tried(id: i64, now: i64, outcome: Result<(), DbError>) -> bool {
    exists|c: &mut Connection| #[trigger] call_ensures(db::flush_one, (c, id, now), outcome)
}

/// Writes a hit at `now` on each of the registrations `ids`, and says what came of
/// each. A failure does not keep the others from being written.
pub fn write_hits(conn: &mut Connection, ids: &Vec<i64>, now: i64) -> (outcomes: Vec<
    Result<(), DbError>,
>)
    requires
        ids@.no_duplicates(),
    ensures
        outcomes@.len() == ids@.len(),
        forall|i: int| 0 <= i < outcomes@.len() ==> tried(ids@[i], now, #[trigger] outcomes@[i]),
        forall|i: int|
            0 <= i < outcomes@.len() ==> (#[trigger] outcomes@[i] matches Err(e)
                ==> fails_on_the_way(e) || e is DeadlineOverflow),
        // As long as SQLite does not fail, every outcome and every row is settled.
        forall|i: int|
            0 <= i < outcomes@.len() && none_failed(outcomes@.take(i + 1)) ==> (
            #[trigger] outcomes@[i] is Ok <==> fitting(
                rows(*old(conn)),
                ids@.to_set(),
                now,
            ).contains(ids@[i])),
        none_failed(outcomes@) ==> {
            &&& rows(*final(conn)) == flushed(rows(*old(conn)), ids@.to_set(), now)
            &&& last_id(*final(conn)) == last_id(*old(conn))
            &&& registry_sound(*old(conn)) ==> registry_sound(*final(conn))
        },
        // Nothing is written where no row slides, even where SQLite fails.
        (forall|i: int|
            0 <= i < ids@.len() ==> !slides(rows(*old(conn)), #[trigger] ids@[i], now))
            ==> *final(conn) == *old(conn),
{
    let ghost m = rows(*conn);
    proof {
        assert(flushed(m, ids@.take(0).to_set(), now) =~= m);
    }
    let mut outcomes: Vec<Result<(), DbError>> = Vec::new();
    let mut i: usize = 0;
    while i < ids.len()
        invariant
            0 <= i <= ids.len(),
            outcomes@.len() == i,
            ids@.no_duplicates(),
            m == rows(*old(conn)),
            forall|j: int| 0 <= j < i ==> tried(ids@[j], now, #[trigger] outcomes@[j]),
            forall|j: int|
                0 <= j < i ==> (#[trigger] outcomes@[j] matches Err(e) ==> fails_on_the_way(e) || e
                    is DeadlineOverflow),
            forall|j: int|
                0 <= j < i && none_failed(outcomes@.take(j + 1)) ==> (#[trigger] outcomes@[j] is Ok
                    <==> fitting(m, ids@.to_set(), now).contains(ids@[j])),
            none_failed(outcomes@) ==> {
                &&& rows(*conn) == flushed(m, ids@.take(i as int).to_set(), now)
                &&& last_id(*conn) == last_id(*old(conn))
                &&& registry_sound(*old(conn)) ==> registry_sound(*conn)
            },
            (forall|j: int| 0 <= j < ids@.len() ==> !slides(m, #[trigger] ids@[j], now)) ==> *conn
                == *old(conn),
        decreases ids.len() - i,
    {
        let id: i64 = ids[i];
        let ghost before = outcomes@;
        let ghost there = rows(*conn);
        let outcome: Result<(), DbError> = db::flush_one(conn, id, now);
        proof {
            assert(tried(id, now, outcome));
        }
        outcomes.push(outcome);
        proof {
            let after = outcomes@;
            assert(after.drop_last() =~= before);
            assert(after[i as int] == outcome);
            assert(ids@.to_set().contains(id)) by {
                assert(ids@[i as int] == id);
            }
            if none_failed(after) {
                assert(none_failed(before)) by {
                    assert forall|j: int| 0 <= j < before.len() implies !(
                    #[trigger] before[j] matches Err(DbError::Sqlite(_))) by {
                        assert(after[j] == before[j]);
                    }
                }
                lemma_one_more_flushed(m, ids@, i as int, now);
                if outcome is Ok {
                    assert(rows(*conn) =~= flushed(m, ids@.take(i + 1).to_set(), now));
                }
            }
            assert forall|j: int|
                0 <= j < i + 1 && none_failed(after.take(j + 1)) implies (
            #[trigger] after[j] is Ok <==> fitting(m, ids@.to_set(), now).contains(ids@[j])) by {
                if j < i {
                    assert(after[j] == before[j]);
                    assert(after.take(j + 1) =~= before.take(j + 1));
                } else {
                    assert(after.take(j + 1) =~= after);
                }
            }
        }
        i = i + 1;
    }
    proof {
        assert(ids@.take(i as int) =~= ids@);
    }
    outcomes
}

/// How many of the outcomes are failures.
pub fn count_failed(outcomes: &Vec<Result<(), DbError>>) -> (n: usize)
    ensures
        n == outcomes@.filter(|o: Result<(), DbError>| o is Err).len(),
{
    let ghost bad = |o: Result<(), DbError>| o is Err;
    let mut n: usize = 0;
    let mut i: usize = 0;
    proof {
        reveal(Seq::filter);
    }
    while i < outcomes.len()
        invariant
            0 <= i <= outcomes.len(),
            bad == (|o: Result<(), DbError>| o is Err),
            n <= i,
            n == outcomes@.take(i as int).filter(bad).len(),
        decreases outcomes.len() - i,
    {
        proof {
            lemma_filter_take(outcomes@, bad, i as int);
        }
        if outcomes[i].is_err() {
            n = n + 1;
        }
        i = i + 1;
    }
    proof {
        assert(outcomes@.take(i as int) =~= outcomes@);
    }
    n
}

/// How many of the outcomes are deadlines past the end of time.
pub fn count_overflowed(outcomes: &Vec<Result<(), DbError>>) -> (n: usize)
    ensures
        n == outcomes@.filter(|o: Result<(), DbError>| o == overflow()).len(),
{
    let ghost bad = |o: Result<(), DbError>| o == overflow();
    let mut n: usize = 0;
    let mut i: usize = 0;
    proof {
        reveal(Seq::filter);
    }
    while i < outcomes.len()
        invariant
            0 <= i <= outcomes.len(),
            bad == (|o: Result<(), DbError>| o == overflow()),
            n <= i,
            n == outcomes@.take(i as int).filter(bad).len(),
        decreases outcomes.len() - i,
    {
        proof {
            lemma_filter_take(outcomes@, bad, i as int);
        }
        match &outcomes[i] {
            Err(DbError::DeadlineOverflow) => {
                n = n + 1;
            },
            _ => {},
        }
        i = i + 1;
    }
    proof {
        assert(outcomes@.take(i as int) =~= outcomes@);
    }
    n
}

/// The outcome of a hit whose deadline is past the end of time.
pub open spec fn overflow() -> Result<(), DbError> {
    Err(DbError::DeadlineOverflow)
}

proof fn lemma_filter_take(s: Seq<Result<(), DbError>>, p: spec_fn(Result<(), DbError>) -> bool, i: int)
    requires
        0 <= i < s.len(),
    ensures
        s.take(i + 1).filter(p).len() == s.take(i).filter(p).len() + if p(s[i]) {
            1int
        } else {
            0int
        },
{
    reveal(Seq::filter);
    assert(s.take(i + 1).drop_last() =~= s.take(i));
}

proof fn lemma_one_more_id(ids: Seq<i64>, i: int)
    requires
        0 <= i < ids.len(),
        ids.no_duplicates(),
    ensures
        !ids.take(i).to_set().contains(ids[i]),
        ids.take(i + 1).to_set() == ids.take(i).to_set().insert(ids[i]),
{
    let pre = ids.take(i);
    let post = ids.take(i + 1);
    assert(!pre.to_set().contains(ids[i])) by {
        if pre.to_set().contains(ids[i]) {
            let k = choose|k: int| 0 <= k < pre.len() && pre[k] == ids[i];
            assert(ids[k] == ids[i]);
        }
    }
    assert forall|k: i64| post.to_set().contains(k) <==> pre.to_set().insert(ids[i]).contains(k) by {
        if pre.to_set().contains(k) {
            let j = choose|j: int| 0 <= j < pre.len() && pre[j] == k;
            assert(post[j] == k);
        }
        if k == ids[i] {
            assert(post[i] == k);
        }
        if post.to_set().contains(k) {
            let j = choose|j: int| 0 <= j < post.len() && post[j] == k;
            if j < i {
                assert(pre[j] == k);
            }
        }
    }
    assert(post.to_set() =~= pre.to_set().insert(ids[i]));
}

proof fn lemma_one_more_flushed(m: Map<i64, Row>, ids: Seq<i64>, i: int, now: i64)
    requires
        0 <= i < ids.len(),
        ids.no_duplicates(),
    ensures
        ({
            let pre = flushed(m, ids.take(i).to_set(), now);
            let post = flushed(m, ids.take(i + 1).to_set(), now);
            &&& pre.dom() == m.dom()
            &&& m.dom().contains(ids[i]) ==> pre[ids[i]] == m[ids[i]]
            &&& if fitting(m, ids.to_set(), now).contains(ids[i]) {
                post == updated(pre, ids[i], |r: Row| touched(r, now))
            } else {
                post == pre
            }
        }),
{
    let a = ids.take(i).to_set();
    let b = ids.take(i + 1).to_set();
    lemma_one_more_id(ids, i);
    assert(ids.to_set().contains(ids[i]));
    assert(flushed(m, a, now).dom() =~= m.dom());
    if fitting(m, ids.to_set(), now).contains(ids[i]) {
        assert(flushed(m, b, now) =~= updated(
            flushed(m, a, now),
            ids[i],
            |r: Row| touched(r, now),
        ));
    } else {
        assert(flushed(m, b, now) =~= flushed(m, a, now));
    }
}

proof fn lemma_tally(m: Map<i64, Row>, ids: Seq<i64>, outcomes: Seq<Result<(), DbError>>, now: i64)
    requires
        ids.no_duplicates(),
        outcomes.len() == ids.len(),
        forall|i: int|
            0 <= i < outcomes.len() ==> (#[trigger] outcomes[i] matches Err(e) ==> e is Sqlite || e
                is DeadlineOverflow),
        forall|i: int|
            0 <= i < outcomes.len() && none_failed(outcomes.take(i + 1)) ==> (
            #[trigger] outcomes[i] is Ok <==> fitting(m, ids.to_set(), now).contains(ids[i])),
    ensures
        ({
            let failed = outcomes.filter(|o: Result<(), DbError>| o is Err).len();
            let over = outcomes.filter(|o: Result<(), DbError>| o == overflow()).len();
            &&& over <= failed <= ids.len()
            &&& failed == over ==> none_failed(outcomes)
            &&& failed > over ==> exists|i: int|
                0 <= i < outcomes.len() && #[trigger] outcomes[i] is Err && outcomes[i]
                    != overflow()
            &&& failed == over ==> over == ids.len() - fitting(m, ids.to_set(), now).len()
        }),
{
    let bad = |o: Result<(), DbError>| o is Err;
    let over = |o: Result<(), DbError>| o == overflow();
    lemma_counts(outcomes, outcomes.len() as int);
    assert(outcomes.take(outcomes.len() as int) =~= outcomes);
    if outcomes.filter(bad).len() == outcomes.filter(over).len() {
        assert forall|i: int| 0 <= i < outcomes.len() implies (outcomes[i] is Ok
            <==> fitting(m, ids.to_set(), now).contains(ids[i])) by {
            assert forall|j: int| 0 <= j < i + 1 implies !(
            #[trigger] outcomes.take(i + 1)[j] matches Err(DbError::Sqlite(_))) by {
                assert(outcomes.take(i + 1)[j] == outcomes[j]);
            }
            assert(none_failed(outcomes.take(i + 1)));
        }
        lemma_fitting_count(m, ids, outcomes, now, ids.len() as int);
        assert(ids.take(ids.len() as int) =~= ids);
    }
}

proof fn lemma_counts(outcomes: Seq<Result<(), DbError>>, n: int)
    requires
        0 <= n <= outcomes.len(),
        forall|i: int|
            0 <= i < outcomes.len() ==> (#[trigger] outcomes[i] matches Err(e) ==> e is Sqlite || e
                is DeadlineOverflow),
    ensures
        ({
            let s = outcomes.take(n);
            let failed = s.filter(|o: Result<(), DbError>| o is Err).len();
            let over = s.filter(|o: Result<(), DbError>| o == overflow()).len();
            &&& over <= failed <= n
            &&& failed == over ==> none_failed(s)
            &&& failed > over ==> exists|i: int|
                0 <= i < n && #[trigger] outcomes[i] is Err && outcomes[i] != overflow()
        }),
    decreases n,
{
    let bad = |o: Result<(), DbError>| o is Err;
    let over = |o: Result<(), DbError>| o == overflow();
    if n == 0 {
        reveal(Seq::filter);
    } else {
        lemma_counts(outcomes, n - 1);
        lemma_filter_take(outcomes, bad, n - 1);
        lemma_filter_take(outcomes, over, n - 1);
        let s = outcomes.take(n);
        let pre = outcomes.take(n - 1);
        if s.filter(bad).len() > s.filter(over).len() {
            if outcomes[n - 1] is Err && outcomes[n - 1] != overflow() {
                assert(0 <= n - 1 < n);
            } else {
                let i = choose|i: int|
                    0 <= i < n - 1 && #[trigger] outcomes[i] is Err && outcomes[i] != overflow();
                assert(0 <= i < n && outcomes[i] is Err);
            }
        }
        if s.filter(bad).len() == s.filter(over).len() {
            assert forall|j: int| 0 <= j < s.len() implies !(#[trigger] s[j] matches Err(
                DbError::Sqlite(_),
            )) by {
                assert(s[j] == outcomes[j]);
                if j < n - 1 {
                    assert(pre[j] == s[j]);
                }
            }
        }
    }
}

proof fn lemma_fitting_count(
    m: Map<i64, Row>,
    ids: Seq<i64>,
    outcomes: Seq<Result<(), DbError>>,
    now: i64,
    n: int,
)
    requires
        0 <= n <= ids.len(),
        ids.no_duplicates(),
        outcomes.len() == ids.len(),
        forall|i: int|
            0 <= i < outcomes.len() ==> (outcomes[i] is Ok <==> fitting(
                m,
                ids.to_set(),
                now,
            ).contains(#[trigger] ids[i])),
    ensures
        ({
            let fit = fitting(m, ids.take(n).to_set(), now);
            &&& fit.finite()
            &&& fit.len() + outcomes.take(n).filter(|o: Result<(), DbError>| o is Err).len() == n
        }),
    decreases n,
{
    let bad = |o: Result<(), DbError>| o is Err;
    if n == 0 {
        reveal(Seq::filter);
        assert(fitting(m, ids.take(0).to_set(), now) =~= Set::empty());
    } else {
        lemma_fitting_count(m, ids, outcomes, now, n - 1);
        lemma_filter_take(outcomes, bad, n - 1);
        let id = ids[n - 1];
        let pre = ids.take(n - 1);
        let post = ids.take(n);
        lemma_one_more_id(ids, n - 1);
        assert(ids.to_set().contains(id));
        if outcomes[n - 1] is Ok {
            assert(fitting(m, post.to_set(), now) =~= fitting(m, pre.to_set(), now).insert(id));
        } else {
            assert(fitting(m, post.to_set(), now) =~= fitting(m, pre.to_set(), now));
        }
    }
}

/// What came of writing the hits on record.
#[derive(Debug, Clone, Copy, PartialEq, Eq, Structural)]
pub struct Drained {
    /// How many hits could not be written.
    pub failed: usize,
    /// How many of these would have set a deadline past the end of time. The
    /// others are failures of SQLite.
    pub overflowed: usize,
}

/// Writes every hit on record once more at `now` and forgets them.
pub fn drain(touch: &mut TouchDebouncer, conn: &mut Connection, now: i64) -> (r: Drained)
    requires
        old(touch).well_formed(),
    ensures
        final(touch).well_formed(),
        final(touch).window() == old(touch).window(),
        final(touch).pending() == Map::<i64, u128>::empty(),
        r.overflowed <= r.failed <= old(touch).pending().dom().len(),
        r.failed > r.overflowed ==> some_failure(),
        // SQLite did not fail.
        r.failed == r.overflowed ==> {
            let ids = old(touch).pending().dom();
            &&& rows(*final(conn)) == flushed(rows(*old(conn)), ids, now)
            &&& last_id(*final(conn)) == last_id(*old(conn))
            &&& r.overflowed == ids.len() - fitting(rows(*old(conn)), ids, now).len()
            &&& registry_sound(*old(conn)) ==> registry_sound(*final(conn))
        },
        // Nothing is written where no hit on record slides a row, even where SQLite
        // fails.
        (forall|id: i64| #[trigger]
            old(touch).pending().dom().contains(id) ==> !slides(rows(*old(conn)), id, now))
            ==> *final(conn) == *old(conn),
{
    let ids: Vec<i64> = touch.flush();
    let outcomes: Vec<Result<(), DbError>> = write_hits(conn, &ids, now);
    let r = Drained { failed: count_failed(&outcomes), overflowed: count_overflowed(&outcomes) };
    proof {
        ids@.unique_seq_to_set();
        assert forall|i: int| 0 <= i < ids@.len() implies old(touch).pending().dom().contains(
            #[trigger] ids@[i],
        ) by {
            assert(ids@.to_set().contains(ids@[i]));
        }
        lemma_tally(rows(*old(conn)), ids@, outcomes@, now);
        if r.failed > r.overflowed {
            let i = choose|i: int|
                0 <= i < outcomes@.len() && #[trigger] outcomes@[i] is Err && outcomes@[i]
                    != overflow();
            assert(fails_on_the_way(outcomes@[i]->Err_0));
        }
    }
    r
}

/// What became of the registry when the daemon stopped.
#[derive(Debug)]
pub struct Shutdown {
    /// What came of writing the hits on record.
    pub drained: Drained,
    /// How many expired registrations the last sweep removed.
    pub reaped: Result<u64, DbError>,
}

/// Writes the hits on record at `drained`, then removes what has expired at
/// `reaped`.
pub fn shut_down(touch: &mut TouchDebouncer, conn: &mut Connection, drained: i64, reaped: i64) -> (r:
    Shutdown)
    requires
        old(touch).well_formed(),
    ensures
        final(touch).pending() == Map::<i64, u128>::empty(),
        r.drained.overflowed <= r.drained.failed <= old(touch).pending().dom().len(),
        r.drained.failed == r.drained.overflowed && r.reaped is Ok ==> {
            let left = flushed(rows(*old(conn)), old(touch).pending().dom(), drained);
            &&& rows(*final(conn)) == swept(left, reaped)
            &&& r.reaped->Ok_0 == ids_before(left, reaped).len()
            &&& last_id(*final(conn)) == last_id(*old(conn))
            &&& registry_sound(*old(conn)) ==> registry_sound(*final(conn))
        },
        r.reaped is Ok ==> ids_before(rows(*final(conn)), reaped) == Set::<i64>::empty(),
        r.reaped matches Err(e) ==> fails_on_the_way(e),
        r.drained.failed > r.drained.overflowed ==> some_failure(),
{
    let written: Drained = drain(touch, conn, drained);
    let ghost m = rows(*conn);
    let ghost here = *conn;
    let result: Result<u64, DbError> = db::reap_expired_at(conn, reaped);
    proof {
        if result is Err {
            assert(sqlite_fails(here, result->Err_0));
        }
        if result is Ok {
            assert(rows(*conn) == swept(m, reaped));
            crate::laws::lemma_sweep_leaves_the_live(m, reaped);
        }
    }
    Shutdown { drained: written, reaped: result }
}

/// A flush does not bring an expired registration back: its row stays as it was.
pub proof fn lemma_flush_leaves_the_expired(m: Map<i64, Row>, ids: Set<i64>, now: i64, id: i64)
    requires
        m.dom().contains(id),
        !live(m[id], now),
    ensures
        flushed(m, ids, now).dom().contains(id),
        flushed(m, ids, now)[id] == m[id],
{
}

/// A flush writes each hit on a live registration with a lifetime and a deadline: it
/// expires that lifetime later. No registration comes or goes, and those without a
/// hit on record stay as they were.
pub proof fn lemma_flush_slides_the_live(m: Map<i64, Row>, ids: Set<i64>, now: i64, id: i64)
    requires
        m.dom().contains(id),
    ensures
        flushed(m, ids, now).dom() == m.dom(),
        !ids.contains(id) ==> flushed(m, ids, now)[id] == m[id],
        ids.contains(id) && live(m[id], now) && m[id].ttl_seconds is Some && m[id].expires_at is Some
            && !touch_overflows(m[id], now) ==> flushed(m, ids, now)[id] == (Row {
            last_hit_at: Some(now),
            expires_at: Some((now + m[id].ttl_seconds->0) as i64),
            ..m[id]
        }),
{
    assert(flushed(m, ids, now).dom() =~= m.dom());
}

/// When the daemon has stopped, no registration is left that had expired, whatever
/// hits were on record, and each that never expires is still there as it was.
pub proof fn lemma_stopping_leaves_the_live(
    m: Map<i64, Row>,
    pending: Set<i64>,
    drained: i64,
    reaped: i64,
    id: i64,
)
    ensures
        swept(flushed(m, pending, drained), reaped).dom().contains(id) ==> m.dom().contains(id)
            && live(swept(flushed(m, pending, drained), reaped)[id], reaped),
        m.dom().contains(id) && m[id].expires_at is None ==> swept(
            flushed(m, pending, drained),
            reaped,
        ).dom().contains(id) && swept(flushed(m, pending, drained), reaped)[id] == m[id],
        m.dom().contains(id) && !live(m[id], drained) && drained <= reaped ==> !swept(
            flushed(m, pending, drained),
            reaped,
        ).dom().contains(id),
{
    let t = flushed(m, pending, drained);
    if m.dom().contains(id) && m[id].expires_at is None {
        assert(t[id] == m[id]);
        assert(!ids_before(t, reaped).contains(id));
    }
    if m.dom().contains(id) && !live(m[id], drained) && drained <= reaped {
        assert(t[id] == m[id]);
        assert(ids_before(t, reaped).contains(id));
    }
}

/// The rows after the daemon has stopped and started again: hits on record were
/// written, then what had expired was removed, then at the start what had expired
/// and what was known to be gone.
pub open spec fn restarted(
    m: Map<i64, Row>,
    pending: Set<i64>,
    drained: i64,
    reaped: i64,
    started: i64,
    sources: Seq<(i64, SourceState)>,
) -> Map<i64, Row> {
    let kept = swept(swept(flushed(m, pending, drained), reaped), started);
    kept.remove_keys(gone_ids(sources))
}

/// A registration that had expired when the daemon stopped does not come back when
/// it starts again, even where a hit on it was still on record.
pub proof fn lemma_expired_does_not_survive_restart(
    m: Map<i64, Row>,
    pending: Set<i64>,
    drained: i64,
    reaped: i64,
    started: i64,
    sources: Seq<(i64, SourceState)>,
    id: i64,
)
    requires
        drained <= reaped,
        m.dom().contains(id),
        !live(m[id], drained),
    ensures
        !restarted(m, pending, drained, reaped, started, sources).dom().contains(id),
{
    let t = flushed(m, pending, drained);
    assert(t[id] == m[id]);
    assert(ids_before(t, reaped).contains(id));
}

/// A registration that never expires is the same after a restart, unless its source
/// is gone.
pub proof fn lemma_never_survives_restart(
    m: Map<i64, Row>,
    pending: Set<i64>,
    drained: i64,
    reaped: i64,
    started: i64,
    sources: Seq<(i64, SourceState)>,
    id: i64,
)
    requires
        m.dom().contains(id),
        m[id].expires_at is None,
        !gone_ids(sources).contains(id),
    ensures
        restarted(m, pending, drained, reaped, started, sources).dom().contains(id),
        restarted(m, pending, drained, reaped, started, sources)[id] == m[id],
{
    let t = flushed(m, pending, drained);
    assert(t[id] == m[id]);
    assert(!ids_before(t, reaped).contains(id));
    assert(!ids_before(swept(t, reaped), started).contains(id));
}

/// After a restart every registration is live, and none is new.
pub proof fn lemma_restart_leaves_the_live(
    m: Map<i64, Row>,
    pending: Set<i64>,
    drained: i64,
    reaped: i64,
    started: i64,
    sources: Seq<(i64, SourceState)>,
)
    ensures
        forall|id: i64| #[trigger]
            restarted(m, pending, drained, reaped, started, sources).dom().contains(id)
                ==> m.dom().contains(id) && live(
                restarted(m, pending, drained, reaped, started, sources)[id],
                started,
            ),
{
}

/// A sweep keeps a registration exactly where it has no deadline or one that has not
/// passed.
pub proof fn lemma_what_a_sweep_keeps(m: Map<i64, Row>, now: i64, id: i64)
    ensures
        swept(m, now).dom().contains(id) <==> m.dom().contains(id) && (
        m[id].expires_at matches Some(e) ==> now <= e),
        swept(m, now).dom().contains(id) ==> swept(m, now)[id] == m[id],
        ids_before(m, now).contains(id) <==> m.dom().contains(id) && (
        m[id].expires_at matches Some(e) && e < now),
{
}

/// A flush leaves a hit unwritten only where the deadline would be past the end of
/// time, and gives every other live registration its lifetime again.
pub proof fn lemma_what_a_flush_writes(m: Map<i64, Row>, ids: Set<i64>, now: i64, id: i64)
    requires
        m.dom().contains(id),
        ids.contains(id),
        m[id].expires_at matches Some(e) && now <= e,
        m[id].ttl_seconds is Some,
    ensures
        flushed(m, ids, now).dom().contains(id),
        i64::MIN <= now + m[id].ttl_seconds->0 <= i64::MAX ==> {
            let row = flushed(m, ids, now)[id];
            &&& row.expires_at matches Some(e) && e == now + m[id].ttl_seconds->0
            &&& row.last_hit_at == Some(now)
            &&& row.url_path == m[id].url_path
            &&& row.source_path == m[id].source_path
            &&& row.ttl_seconds == m[id].ttl_seconds
        },
        !(i64::MIN <= now + m[id].ttl_seconds->0 <= i64::MAX) ==> flushed(m, ids, now)[id] == m[id],
{
}

/// A registration whose deadline lies ahead and that has no hit on record is the same
/// after a restart; one whose source is known to be gone is not there.
pub proof fn lemma_what_a_restart_keeps(
    m: Map<i64, Row>,
    pending: Set<i64>,
    drained: i64,
    reaped: i64,
    started: i64,
    sources: Seq<(i64, SourceState)>,
    id: i64,
)
    requires
        m.dom().contains(id),
    ensures
        !pending.contains(id) && (m[id].expires_at matches Some(e) ==> reaped <= e && started <= e)
            && !sources.contains((id, SourceState::NotFound)) ==> restarted(
            m,
            pending,
            drained,
            reaped,
            started,
            sources,
        ).dom().contains(id) && restarted(m, pending, drained, reaped, started, sources)[id]
            == m[id],
        sources.contains((id, SourceState::NotFound)) ==> !restarted(
            m,
            pending,
            drained,
            reaped,
            started,
            sources,
        ).dom().contains(id),
{
    let t = flushed(m, pending, drained);
    if !pending.contains(id) {
        assert(t[id] == m[id]);
    }
}

/// A running daemon sweeps every five minutes.
pub proof fn lemma_time_between_sweeps()
    ensures
        REAPER_INTERVAL_SECS == 5 * 60,
{
}

} // verus!
