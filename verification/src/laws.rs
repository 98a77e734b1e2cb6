//! What holds of the registry as a whole: what a hit may change, that a sweep
//! cannot be seen, that each lookup has one answer, and what registering and
//! removing do to the answers.

use vstd::prelude::*;

use crate::db::{
    answers_request, answers_source, file_at, ids_before, in_table, is_listing, listed_before, live,
    live_ids, missed, mount_of, serves_source, sound, touch_overflows, touched, updated, url_taken,
    Kind, Registration, Row, ServeMatch,
};
use crate::text::has_prefix;

verus! {

// ---------------------------------------------------------------------------
// Hits
// ---------------------------------------------------------------------------

/// A hit does not bring an expired registration back: it changes nothing of it.
pub proof fn lemma_hit_does_not_revive(r: Row, now: i64)
    requires
        !live(r, now),
    ensures
        touched(r, now) == r,
{
}

/// A hit changes nothing of a registration that never expires.
pub proof fn lemma_hit_leaves_never_alone(r: Row, now: i64)
    requires
        r.ttl_seconds is None || r.expires_at is None,
    ensures
        touched(r, now) == r,
{
}

/// A hit on a live registration with a lifetime moves its deadline to one lifetime
/// after the hit.
pub proof fn lemma_hit_slides(r: Row, now: i64)
    requires
        live(r, now),
        r.ttl_seconds is Some,
        r.expires_at is Some,
        !touch_overflows(r, now),
    ensures
        touched(r, now).expires_at == Some((now + r.ttl_seconds->0) as i64),
        touched(r, now).expires_at->0 == now + r.ttl_seconds->0,
        touched(r, now).last_hit_at == Some(now),
        forall|t: i64| live(touched(r, now), t) <==> t <= now + r.ttl_seconds->0,
{
}

/// A hit changes the deadline and the time of the last hit, and nothing else.
pub proof fn lemma_hit_keeps_the_rest(r: Row, now: i64)
    ensures
        touched(r, now) == (Row {
            expires_at: touched(r, now).expires_at,
            last_hit_at: touched(r, now).last_hit_at,
            ..r
        }),
{
}

/// Of several notes that a source is missing the first stands.
pub proof fn lemma_first_missing_note_stands(r: Row, first: i64, later: i64)
    ensures
        missed(missed(r, first), later) == missed(r, first),
{
}

// ---------------------------------------------------------------------------
// Sweeps
// ---------------------------------------------------------------------------

/// The rows that a sweep at `now` leaves.
pub open spec fn swept(m: Map<i64, Row>, now: i64) -> Map<i64, Row> {
    m.remove_keys(ids_before(m, now))
}

/// A sweep leaves exactly the live rows, each as it was.
pub proof fn lemma_sweep_leaves_the_live(m: Map<i64, Row>, now: i64)
    ensures
        swept(m, now).dom() == live_ids(m, now),
        forall|id: i64| #[trigger] swept(m, now).dom().contains(id) ==> swept(m, now)[id] == m[id],
        ids_before(swept(m, now), now) == Set::<i64>::empty(),
{
    assert(swept(m, now).dom() =~= live_ids(m, now));
    assert(ids_before(swept(m, now), now) =~= Set::<i64>::empty());
}

/// A second sweep at the same time removes nothing.
pub proof fn lemma_sweep_twice(m: Map<i64, Row>, now: i64)
    ensures
        swept(swept(m, now), now) == swept(m, now),
{
    lemma_sweep_leaves_the_live(m, now);
    assert(swept(swept(m, now), now) =~= swept(m, now));
}

/// Lookups do not see an expired row: at any time from a sweep on they answer the
/// same whether the sweep was made or not.
pub proof fn lemma_sweep_is_not_seen(m: Map<i64, Row>, sweep: i64, now: i64)
    requires
        sweep <= now,
    ensures
        forall|source: Seq<char>, r: Option<Registration>| #[trigger]
            answers_source(swept(m, sweep), source, now, r) <==> answers_source(m, source, now, r),
        forall|path: Seq<char>, r: Option<ServeMatch>| #[trigger]
            answers_request(swept(m, sweep), path, now, r) <==> answers_request(m, path, now, r),
        forall|v: Seq<Registration>| #[trigger]
            is_listing(swept(m, sweep), now, v) <==> is_listing(m, now, v),
        live_ids(swept(m, sweep), now) == live_ids(m, now),
{
    let s = swept(m, sweep);
    assert forall|source: Seq<char>, k: i64| #[trigger]
        serves_source(s, source, now, k) == serves_source(m, source, now, k) by {}
    assert forall|path: Seq<char>, k: i64| #[trigger]
        file_at(s, path, now, k) == file_at(m, path, now, k) by {}
    assert forall|path: Seq<char>, k: i64| #[trigger]
        mount_of(s, path, now, k) == mount_of(m, path, now, k) by {}
    assert forall|source: Seq<char>, r: Option<Registration>| #[trigger]
        answers_source(s, source, now, r) <==> answers_source(m, source, now, r) by {
        if r is Some {
            assert(serves_source(s, source, now, r->0.id) == serves_source(m, source, now, r->0.id));
        }
        if answers_source(m, source, now, r) {
            assert forall|k: i64| #[trigger] serves_source(s, source, now, k) implies match r {
                Some(x) => x.id <= k,
                None => false,
            } by {
                assert(serves_source(m, source, now, k));
            }
        }
        if answers_source(s, source, now, r) {
            assert forall|k: i64| #[trigger] serves_source(m, source, now, k) implies match r {
                Some(x) => x.id <= k,
                None => false,
            } by {
                assert(serves_source(s, source, now, k));
            }
        }
    }
    assert forall|path: Seq<char>, r: Option<ServeMatch>| #[trigger]
        answers_request(s, path, now, r) <==> answers_request(m, path, now, r) by {
        lemma_request_swept(m, sweep, now, path, r);
    }
    assert forall|v: Seq<Registration>| #[trigger]
        is_listing(s, now, v) <==> is_listing(m, now, v) by {
        if is_listing(m, now, v) {
            assert forall|i: int| 0 <= i < v.len() implies in_table(s, #[trigger] v[i]) && live(
                v[i].row(),
                now,
            ) by {
                assert(in_table(m, v[i]));
            }
            assert forall|id: i64| #[trigger] s.dom().contains(id) && live(s[id], now) implies exists|
                i: int,
            | 0 <= i < v.len() && (#[trigger] v[i]).id == id by {
                assert(m.dom().contains(id));
            }
        }
        if is_listing(s, now, v) {
            assert forall|i: int| 0 <= i < v.len() implies in_table(m, #[trigger] v[i]) && live(
                v[i].row(),
                now,
            ) by {
                assert(in_table(s, v[i]));
            }
            assert forall|id: i64| #[trigger] m.dom().contains(id) && live(m[id], now) implies exists|
                i: int,
            | 0 <= i < v.len() && (#[trigger] v[i]).id == id by {
                assert(s.dom().contains(id));
            }
        }
    }
    assert(live_ids(s, now) =~= live_ids(m, now));
}

proof fn lemma_request_swept(
    m: Map<i64, Row>,
    sweep: i64,
    now: i64,
    path: Seq<char>,
    r: Option<ServeMatch>,
)
    requires
        sweep <= now,
    ensures
        answers_request(swept(m, sweep), path, now, r) <==> answers_request(m, path, now, r),
{
    let s = swept(m, sweep);
    assert forall|k: i64| #[trigger] file_at(s, path, now, k) == file_at(m, path, now, k) by {}
    assert forall|k: i64| #[trigger] mount_of(s, path, now, k) == mount_of(m, path, now, k) by {}
    if answers_request(m, path, now, r) {
        assert forall|k: i64| #[trigger] file_at(s, path, now, k) implies file_at(m, path, now, k) by {}
        if r is Some {
            let id = r->0.registration.id;
            assert(file_at(m, path, now, id) || mount_of(m, path, now, id));
            assert(s.dom().contains(id));
            assert forall|k: i64| #[trigger] mount_of(s, path, now, k) implies mount_of(m, path, now, k)
                && s[k] == m[k] by {}
        }
    }
    if answers_request(s, path, now, r) {
        assert forall|k: i64| #[trigger] file_at(m, path, now, k) implies file_at(s, path, now, k) by {}
        if r is Some {
            assert forall|k: i64| #[trigger] mount_of(m, path, now, k) implies mount_of(s, path, now, k)
                && s[k] == m[k] by {}
        } else {
            assert forall|k: i64| #[trigger] mount_of(m, path, now, k) implies mount_of(s, path, now, k) by {}
        }
    }
}

// ---------------------------------------------------------------------------
// One answer
// ---------------------------------------------------------------------------

/// A source has one live registration to be found.
pub proof fn lemma_one_answer_for_source(
    m: Map<i64, Row>,
    source: Seq<char>,
    now: i64,
    a: Option<Registration>,
    b: Option<Registration>,
)
    requires
        answers_source(m, source, now, a),
        answers_source(m, source, now, b),
    ensures
        a is Some == b is Some,
        a is Some ==> a->0.id == b->0.id && a->0.row() == b->0.row(),
{
    if a is Some {
        assert(serves_source(m, source, now, a->0.id));
    }
    if b is Some {
        assert(serves_source(m, source, now, b->0.id));
    }
}

/// A request has one answer: the same registration, and the same rest of the path.
pub proof fn lemma_one_answer_for_request(
    m: Map<i64, Row>,
    last: int,
    path: Seq<char>,
    now: i64,
    a: Option<ServeMatch>,
    b: Option<ServeMatch>,
)
    requires
        sound(m, last),
        answers_request(m, path, now, a),
        answers_request(m, path, now, b),
    ensures
        a is Some == b is Some,
        a is Some ==> a->0.registration.id == b->0.registration.id && a->0.registration.row()
            == b->0.registration.row(),
        a is Some ==> a->0.suffix is Some == b->0.suffix is Some,
        a is Some && a->0.suffix is Some ==> a->0.suffix->0@ == b->0.suffix->0@,
{
    if a is Some {
        let x = a->0.registration;
        assert(file_at(m, path, now, x.id) || mount_of(m, path, now, x.id));
    }
    if b is Some {
        let y = b->0.registration;
        assert(file_at(m, path, now, y.id) || mount_of(m, path, now, y.id));
    }
    if a is Some && b is Some {
        let x = a->0.registration;
        let y = b->0.registration;
        if a->0.suffix is None {
            assert(file_at(m, path, now, x.id));
            assert(file_at(m, path, now, y.id));
            assert(m.dom().contains(x.id) && m.dom().contains(y.id));
        } else {
            assert(b->0.suffix is Some);
            assert(mount_of(m, path, now, x.id) && mount_of(m, path, now, y.id));
            assert(m[x.id].url_path.len() == m[y.id].url_path.len());
            assert(x.url_path@ =~= path.take(x.url_path@.len() as int));
            assert(y.url_path@ =~= path.take(y.url_path@.len() as int));
            assert(m.dom().contains(x.id) && m.dom().contains(y.id));
            assert(x.id == y.id);
            assert(a->0.suffix->0@ =~= path.skip(x.url_path@.len() as int));
            assert(b->0.suffix->0@ =~= path.skip(y.url_path@.len() as int));
        }
    }
}

/// The live registrations have one listing.
pub proof fn lemma_one_listing(
    m: Map<i64, Row>,
    now: i64,
    a: Seq<Registration>,
    b: Seq<Registration>,
)
    requires
        is_listing(m, now, a),
        is_listing(m, now, b),
    ensures
        a.len() == b.len(),
        forall|i: int|
            0 <= i < a.len() ==> (#[trigger] a[i]).id == b[i].id && a[i].row() == b[i].row(),
    decreases a.len(),
{
    if a.len() == 0 {
        if b.len() > 0 {
            assert(in_table(m, b[0]));
            assert(m.dom().contains(b[0].id) && live(m[b[0].id], now));
        }
    } else {
        assert(in_table(m, a[a.len() - 1]));
        let x = a.last();
        assert(m.dom().contains(x.id) && live(m[x.id], now));
        let j = choose|j: int| 0 <= j < b.len() && (#[trigger] b[j]).id == x.id;
        assert(in_table(m, b[j]));
        if j < b.len() - 1 {
            let y = b.last();
            assert(in_table(m, b[b.len() - 1]));
            assert(listed_before(b[j], b[b.len() - 1]));
            assert(m.dom().contains(y.id) && live(m[y.id], now));
            let i = choose|i: int| 0 <= i < a.len() && (#[trigger] a[i]).id == y.id;
            assert(in_table(m, a[i]));
            assert(a[i].created_at == y.created_at);
            assert(x.created_at == b[j].created_at);
            if i < a.len() - 1 {
                assert(listed_before(a[i], a[a.len() - 1]));
            }
            assert(false);
        }
        let gone = m.remove(x.id);
        lemma_listing_without_last(m, now, a);
        lemma_listing_without_last(m, now, b);
        assert(b.last().id == x.id);
        lemma_one_listing(gone, now, a.drop_last(), b.drop_last());
        assert forall|i: int| 0 <= i < a.len() implies (#[trigger] a[i]).id == b[i].id && a[i].row()
            == b[i].row() by {
            if i < a.len() - 1 {
                assert(a.drop_last()[i] == a[i]);
                assert(b.drop_last()[i] == b[i]);
            }
        }
    }
}

proof fn lemma_listing_without_last(m: Map<i64, Row>, now: i64, v: Seq<Registration>)
    requires
        is_listing(m, now, v),
        v.len() > 0,
    ensures
        is_listing(m.remove(v.last().id), now, v.drop_last()),
{
    let w = v.drop_last();
    let gone = m.remove(v.last().id);
    assert forall|i: int, j: int| 0 <= i < j < w.len() implies listed_before(
        #[trigger] w[i],
        #[trigger] w[j],
    ) by {
        assert(w[i] == v[i] && w[j] == v[j]);
        assert(listed_before(v[i], v[j]));
    }
    assert forall|i: int| 0 <= i < w.len() implies in_table(gone, #[trigger] w[i]) && live(
        w[i].row(),
        now,
    ) by {
        assert(w[i] == v[i]);
        assert(in_table(m, v[i]));
        assert(in_table(m, v[v.len() - 1]));
        assert(listed_before(v[i], v[v.len() - 1]));
        assert(v[i].id != v.last().id);
    }
    assert forall|id: i64| #[trigger] gone.dom().contains(id) && live(gone[id], now) implies exists|
        i: int,
    | 0 <= i < w.len() && (#[trigger] w[i]).id == id by {
        assert(m.dom().contains(id) && live(m[id], now));
        let i = choose|i: int| 0 <= i < v.len() && (#[trigger] v[i]).id == id;
        assert(w[i] == v[i]);
    }
}

// ---------------------------------------------------------------------------
// Registering and removing
// ---------------------------------------------------------------------------

/// Right after a file is registered, a request for its URL path is answered by it.
pub proof fn lemma_new_file_answers(
    m: Map<i64, Row>,
    last: int,
    id: i64,
    row: Row,
    now: i64,
    r: Option<ServeMatch>,
)
    requires
        sound(m, last),
        id > last,
        !url_taken(m, row.url_path),
        row.kind == Kind::File,
        live(row, now),
        answers_request(m.insert(id, row), row.url_path, now, r),
    ensures
        r matches Some(x) && x.registration.id == id && x.registration.row() == row && x.suffix is None,
{
    let n = m.insert(id, row);
    assert(file_at(n, row.url_path, now, id));
    let x = r->0;
    assert(file_at(n, row.url_path, now, x.registration.id));
    if x.registration.id != id {
        assert(m.dom().contains(x.registration.id) && m[x.registration.id].url_path == row.url_path);
    }
}

/// Right after a folder is registered, a request for its URL path is answered by
/// it, with nothing left of the path.
pub proof fn lemma_new_folder_answers(
    m: Map<i64, Row>,
    last: int,
    id: i64,
    row: Row,
    now: i64,
    r: Option<ServeMatch>,
)
    requires
        sound(m, last),
        id > last,
        !url_taken(m, row.url_path),
        row.kind == Kind::Dir,
        live(row, now),
        answers_request(m.insert(id, row), row.url_path, now, r),
    ensures
        r matches Some(x) && x.registration.id == id && x.registration.row() == row
            && x.suffix is Some && x.suffix->0@ == Seq::<char>::empty(),
{
    let n = m.insert(id, row);
    let path = row.url_path;
    assert(has_prefix(path, path)) by {
        assert(path.take(path.len() as int) =~= path);
    }
    assert(mount_of(n, path, now, id));
    assert forall|k: i64| !#[trigger] file_at(n, path, now, k) by {
        if file_at(n, path, now, k) {
            assert(m.dom().contains(k) && m[k].url_path == path);
        }
    }
    let x = r->0;
    let k = x.registration.id;
    if x.suffix is None {
        assert(file_at(n, path, now, k));
    }
    assert(mount_of(n, path, now, k));
    assert(x.registration.url_path@.len() == path.len());
    assert(x.registration.url_path@ =~= path);
    if k != id {
        assert(m.dom().contains(k) && m[k].url_path == path);
    }
    assert(x.suffix->0@ =~= Seq::<char>::empty());
}

/// Right after a folder is registered, every request below its URL path is
/// answered: by it, with what follows its path, unless a file has exactly the
/// requested path or a folder with a longer path begins it.
pub proof fn lemma_new_folder_covers(
    m: Map<i64, Row>,
    last: int,
    id: i64,
    row: Row,
    path: Seq<char>,
    now: i64,
    r: Option<ServeMatch>,
)
    requires
        sound(m, last),
        id > last,
        !url_taken(m, row.url_path),
        row.kind == Kind::Dir,
        live(row, now),
        has_prefix(path, row.url_path),
        answers_request(m.insert(id, row), path, now, r),
    ensures
        r is Some,
        r->0.registration.id == id ==> r->0.suffix is Some && r->0.suffix->0@ == path.skip(
            row.url_path.len() as int,
        ),
        r->0.registration.id != id && r->0.suffix is None ==> file_at(
            m,
            path,
            now,
            r->0.registration.id,
        ),
        r->0.registration.id != id && r->0.suffix is Some ==> mount_of(
            m,
            path,
            now,
            r->0.registration.id,
        ) && r->0.registration.url_path@.len() > row.url_path.len(),
{
    let n = m.insert(id, row);
    assert(mount_of(n, path, now, id));
    let x = r->0;
    let k = x.registration.id;
    if x.suffix is None {
        assert(file_at(n, path, now, k));
    } else {
        assert(mount_of(n, path, now, k));
        assert(x.registration.url_path@ =~= path.take(x.registration.url_path@.len() as int));
        if k == id {
            assert(x.suffix->0@ =~= path.skip(row.url_path.len() as int));
        } else if x.registration.url_path@.len() == row.url_path.len() {
            assert(row.url_path =~= path.take(row.url_path.len() as int));
            assert(m.dom().contains(k) && m[k].url_path == row.url_path);
        }
    }
}

/// Right after a source without a live registration is registered, it is found by
/// its source path.
pub proof fn lemma_new_source_is_found(
    m: Map<i64, Row>,
    id: i64,
    row: Row,
    now: i64,
    r: Option<Registration>,
)
    requires
        !m.dom().contains(id),
        answers_source(m, row.source_path, now, None),
        live(row, now),
        answers_source(m.insert(id, row), row.source_path, now, r),
    ensures
        r matches Some(x) && x.id == id && x.row() == row,
{
    let n = m.insert(id, row);
    assert(serves_source(n, row.source_path, now, id));
    let x = r->0;
    assert(serves_source(n, row.source_path, now, x.id));
    if x.id != id {
        assert(serves_source(m, row.source_path, now, x.id));
    }
}

/// Once a registration is removed, nothing answers with it.
pub proof fn lemma_removed_answers_nothing(m: Map<i64, Row>, id: i64, now: i64)
    ensures
        forall|path: Seq<char>, r: Option<ServeMatch>| #[trigger]
            answers_request(m.remove(id), path, now, r) ==> (r is Some ==> r->0.registration.id
                != id),
        forall|source: Seq<char>, r: Option<Registration>| #[trigger]
            answers_source(m.remove(id), source, now, r) ==> (r is Some ==> r->0.id != id),
        forall|v: Seq<Registration>, i: int|
            is_listing(m.remove(id), now, v) && 0 <= i < v.len() ==> (#[trigger] v[i]).id != id,
{
    assert forall|v: Seq<Registration>, i: int|
        is_listing(m.remove(id), now, v) && 0 <= i < v.len() implies (#[trigger] v[i]).id != id by {
        assert(in_table(m.remove(id), v[i]));
    }
}

/// The URL path of a removed registration is free again.
pub proof fn lemma_removed_path_is_free(m: Map<i64, Row>, last: int, id: i64)
    requires
        sound(m, last),
        m.dom().contains(id),
    ensures
        !url_taken(m.remove(id), m[id].url_path),
{
    let n = m.remove(id);
    if url_taken(n, m[id].url_path) {
        let k = choose|k: i64| #[trigger] n.dom().contains(k) && n[k].url_path == m[id].url_path;
        assert(m.dom().contains(k) && m.dom().contains(id));
    }
}

/// A hit on one registration leaves every other as it was, and no id comes or
/// goes.
pub proof fn lemma_hit_touches_one_row(m: Map<i64, Row>, id: i64, now: i64)
    ensures
        updated(m, id, |r: Row| touched(r, now)).dom() == m.dom(),
        forall|k: i64| #[trigger]
            m.dom().contains(k) && k != id ==> updated(m, id, |r: Row| touched(r, now))[k] == m[k],
{
    assert(updated(m, id, |r: Row| touched(r, now)).dom() =~= m.dom());
}

} // verus!
