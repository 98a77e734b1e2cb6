//! Hits, stopping and starting again.

use rusqlite::Connection;
use servant::daemon::{
    count_failed, count_overflowed, drain, hit, shut_down, start_up, write_hits, Drained,
    REAPER_INTERVAL_SECS,
};
use servant::db::{
    find_by_id, find_for_request_at, insert, list_at, migrate, prune_on_load_at, DbError, Kind,
    NewRegistration, Registration, SourceState,
};
use servant::ttl::{Duration, TouchDebouncer};

fn fresh() -> Connection {
    let mut c = Connection::open_in_memory().unwrap();
    migrate(&mut c).unwrap();
    c
}

fn add(c: &mut Connection, url: &str, expires: Option<i64>, ttl: Option<i64>) -> Registration {
    insert(
        c,
        &NewRegistration {
            url_path: url.into(),
            source_path: format!("/tmp{url}"),
            kind: Kind::File,
            name_slug: None,
            created_at: 0,
            expires_at: expires,
            ttl_seconds: ttl,
        },
    )
    .unwrap()
}

const NONE_LOST: Drained = Drained {
    failed: 0,
    overflowed: 0,
};

#[test]
fn sliding_ttl_keeps_row_alive_then_expires() {
    let mut c = fresh();
    let now = 1000;
    let r = add(&mut c, "/x", Some(now + 2), Some(2));
    let mut touch = TouchDebouncer::spawn_with(Duration::from_millis(100));
    // Hit every 100ms for 2s; should keep moving expires_at forward.
    for i in 0..20u64 {
        let at = Duration::from_millis(100 * i);
        hit(&mut touch, &mut c, r.id, Some(2), at, now + (i / 10) as i64).unwrap();
    }
    assert_eq!(drain(&mut touch, &mut c, now + 2), NONE_LOST);
    let cur = find_by_id(&c, r.id).unwrap().unwrap();
    assert!(cur.expires_at.unwrap() > now + 2);
    assert_eq!(cur.expires_at, Some(now + 4));
    assert!(find_for_request_at(&c, "/x", now + 4).unwrap().is_some());
    assert!(find_for_request_at(&c, "/x", now + 5).unwrap().is_none());
}

#[test]
fn starting_names_the_sources_to_look_at() {
    let mut c = Connection::open_in_memory().unwrap();
    assert!(start_up(&mut c).unwrap().is_empty());
    let a = add(&mut c, "/a", None, None);
    let b = add(&mut c, "/b", Some(1), Some(1));
    assert_eq!(
        start_up(&mut c).unwrap(),
        vec![(a.id, "/tmp/a".to_string()), (b.id, "/tmp/b".to_string())]
    );
    c.pragma_update(None, "user_version", -1i64).unwrap();
    assert!(start_up(&mut c).is_err());
}

#[test]
fn never_ttl_survives_touch() {
    let mut c = fresh();
    let r = add(&mut c, "/n", None, None);
    let mut touch = TouchDebouncer::spawn_with(Duration::from_millis(50));
    for i in 0..5u64 {
        let at = Duration::from_millis(20 * i);
        assert!(!hit(&mut touch, &mut c, r.id, None, at, 10).unwrap());
    }
    assert_eq!(drain(&mut touch, &mut c, 10), NONE_LOST);
    let cur = find_by_id(&c, r.id).unwrap().unwrap();
    assert_eq!(cur.expires_at, None, "never TTL must stay NULL");
    assert_eq!(
        cur.last_hit_at, None,
        "never TTL touches should not issue SQL UPDATEs"
    );
}

#[test]
fn touch_flush_does_not_resurrect_expired_row() {
    let mut c = fresh();
    let now = 1000;
    let r = add(&mut c, "/x", Some(now + 2), Some(2));
    // The hit is written at once and stays on record.
    let mut touch = TouchDebouncer::spawn_with(Duration::from_secs(30));
    assert!(hit(&mut touch, &mut c, r.id, Some(2), Duration::from_secs(0), now).unwrap());
    let before = find_by_id(&c, r.id).unwrap().unwrap();
    assert_eq!(before.expires_at, Some(now + 2));
    // The record is drained well past the deadline.
    assert_eq!(drain(&mut touch, &mut c, now + 4), NONE_LOST);
    let after = find_by_id(&c, r.id).unwrap().unwrap();
    assert_eq!(
        after.expires_at, before.expires_at,
        "flush must not move expires_at on an already-expired row"
    );
    assert_eq!(
        after.last_hit_at, before.last_hit_at,
        "flush must not update last_hit_at on an already-expired row"
    );
}

#[test]
fn expired_short_ttl_does_not_survive_restart() {
    let mut c = fresh();
    let r = add(&mut c, "/a.html", Some(102), Some(2));
    let mut touch = TouchDebouncer::spawn();
    for t in 0..2u64 {
        assert!(find_for_request_at(&c, "/a.html", 100 + t as i64).unwrap().is_some());
        hit(&mut touch, &mut c, r.id, Some(2), Duration::from_secs(t), 100 + t as i64).unwrap();
    }
    // Past its deadline it is not served, before and after a restart.
    assert!(find_for_request_at(&c, "/a.html", 104).unwrap().is_none());
    let down = shut_down(&mut touch, &mut c, 104, 105);
    assert_eq!(down.drained, NONE_LOST);
    assert_eq!(down.reaped.unwrap(), 1);
    migrate(&mut c).unwrap();
    let stats = prune_on_load_at(&mut c, 106, &vec![(r.id, SourceState::Present)]).unwrap();
    assert_eq!((stats.expired, stats.missing_source), (0, 0));
    assert!(list_at(&c, 106).unwrap().is_empty());
    assert!(find_for_request_at(&c, "/a.html", 106).unwrap().is_none());
}

#[test]
fn never_ttl_survives_restart() {
    let mut c = fresh();
    let r = add(&mut c, "/keep.html", None, None);
    let mut touch = TouchDebouncer::spawn();
    hit(&mut touch, &mut c, r.id, None, Duration::from_secs(1), 100).unwrap();
    shut_down(&mut touch, &mut c, 1_000_000, 1_000_000);
    migrate(&mut c).unwrap();
    prune_on_load_at(&mut c, 2_000_000, &vec![(r.id, SourceState::Present)]).unwrap();
    let rows = list_at(&c, 2_000_000).unwrap();
    assert!(rows.iter().any(|r| r.url_path == "/keep.html"));
    assert!(find_for_request_at(&c, "/keep.html", 2_000_000).unwrap().is_some());
}

#[test]
fn hits_within_the_span_are_not_written() {
    let mut c = fresh();
    let r = add(&mut c, "/x", Some(1000), Some(100));
    let mut touch = TouchDebouncer::spawn();
    assert!(hit(&mut touch, &mut c, r.id, Some(100), Duration::from_secs(0), 950).unwrap());
    assert!(!hit(&mut touch, &mut c, r.id, Some(100), Duration::from_secs(29), 979).unwrap());
    assert_eq!(find_by_id(&c, r.id).unwrap().unwrap().expires_at, Some(1050));
    assert!(hit(&mut touch, &mut c, r.id, Some(100), Duration::from_secs(30), 980).unwrap());
    assert_eq!(find_by_id(&c, r.id).unwrap().unwrap().expires_at, Some(1080));
    assert_eq!(REAPER_INTERVAL_SECS, 300);
}

#[test]
fn draining_slides_every_hit_on_record() {
    let mut c = fresh();
    let mut touch = TouchDebouncer::spawn();
    let a = add(&mut c, "/a", Some(1000), Some(100));
    let b = add(&mut c, "/b", Some(1000), Some(200));
    let other = add(&mut c, "/c", Some(1000), Some(300));
    hit(&mut touch, &mut c, a.id, Some(100), Duration::from_secs(1), 900).unwrap();
    hit(&mut touch, &mut c, b.id, Some(200), Duration::from_secs(1), 900).unwrap();
    assert_eq!(drain(&mut touch, &mut c, 950), NONE_LOST);
    let expires = |id: i64| find_by_id(&c, id).unwrap().unwrap().expires_at;
    assert_eq!(expires(a.id), Some(1050));
    assert_eq!(expires(b.id), Some(1150));
    assert_eq!(expires(other.id), Some(1000));
    assert_eq!(drain(&mut touch, &mut c, 960), NONE_LOST);
    assert_eq!(find_by_id(&c, a.id).unwrap().unwrap().expires_at, Some(1050));
}

#[test]
fn hits_that_cannot_be_written_are_counted() {
    let mut c = fresh();
    let mut touch = TouchDebouncer::spawn();
    let a = add(&mut c, "/a", Some(1000), Some(100));
    hit(&mut touch, &mut c, a.id, Some(100), Duration::from_secs(1), 900).unwrap();
    c.pragma_update(None, "query_only", true).unwrap();
    assert!(hit(&mut touch, &mut c, a.id, Some(100), Duration::from_secs(60), 950).is_err());
    let down = shut_down(&mut touch, &mut c, 960, 960);
    assert_eq!(down.drained, Drained { failed: 1, overflowed: 0 });
}

#[test]
fn a_deadline_past_the_end_of_time_keeps_no_other_hit_back() {
    let mut c = fresh();
    let mut touch = TouchDebouncer::spawn();
    let far = add(&mut c, "/far", Some(2000), Some(i64::MAX - 905));
    let near = add(&mut c, "/near", Some(2000), Some(100));
    let gone = add(&mut c, "/gone", Some(940), Some(100));
    let at = Duration::from_secs(1);
    for id in [far.id, near.id, gone.id] {
        assert!(hit(&mut touch, &mut c, id, Some(100), at, 900).unwrap());
    }
    c.execute("UPDATE registrations SET expires_at = 940 WHERE id = ?1", [gone.id])
        .unwrap();
    let before = find_by_id(&c, far.id).unwrap().unwrap();
    assert_eq!(before.expires_at, Some(i64::MAX - 5));
    assert_eq!(
        drain(&mut touch, &mut c, 950),
        Drained {
            failed: 1,
            overflowed: 1
        }
    );
    let expires = |c: &Connection, id: i64| find_by_id(c, id).unwrap().unwrap().expires_at;
    assert_eq!(expires(&c, far.id), Some(i64::MAX - 5));
    assert_eq!(expires(&c, near.id), Some(1050));
    assert_eq!(expires(&c, gone.id), Some(940));
    let late = hit(&mut touch, &mut c, far.id, Some(100), at, 950);
    assert!(matches!(late, Err(DbError::DeadlineOverflow)));
    assert_eq!(expires(&c, far.id), Some(i64::MAX - 5));
}

#[test]
fn outcomes_of_hits_are_counted() {
    let mut c = fresh();
    let a = add(&mut c, "/a", Some(1000), Some(100));
    let b = add(&mut c, "/b", Some(1000), Some(i64::MAX));
    let outcomes = write_hits(&mut c, &vec![b.id, a.id, 99], 950);
    assert!(matches!(outcomes[0], Err(DbError::DeadlineOverflow)));
    assert!(outcomes[1].is_ok() && outcomes[2].is_ok());
    assert_eq!((count_failed(&outcomes), count_overflowed(&outcomes)), (1, 1));
    let failed = vec![
        Ok(()),
        Err(DbError::Sqlite("disk full".to_string())),
        Err(DbError::DeadlineOverflow),
    ];
    assert_eq!((count_failed(&failed), count_overflowed(&failed)), (2, 1));
    assert_eq!((count_failed(&vec![]), count_overflowed(&vec![])), (0, 0));
}

#[test]
fn expired_registrations_are_not_written_even_where_sqlite_fails() {
    let mut c = fresh();
    let mut touch = TouchDebouncer::spawn();
    let a = add(&mut c, "/a", Some(1000), Some(100));
    hit(&mut touch, &mut c, a.id, Some(100), Duration::from_secs(1), 900).unwrap();
    c.pragma_update(None, "query_only", true).unwrap();
    // The deadline has passed, so there is nothing that could fail.
    let late = hit(&mut touch, &mut c, a.id, Some(100), Duration::from_secs(90), 1001);
    assert!(late.unwrap());
    assert_eq!(drain(&mut touch, &mut c, 1001), NONE_LOST);
    let r = find_by_id(&c, a.id).unwrap().unwrap();
    assert_eq!((r.expires_at, r.last_hit_at), (Some(1000), Some(900)));
}
