//! The registry against a real SQLite database in memory.

use rusqlite::Connection;
use servant::db::{
    clear_missing, count, count_at, count_live, delete, file_match, find_by_id, find_by_source,
    find_by_source_at, find_by_url, find_for_request, find_for_request_at, first_live, first_row,
    flush_one, folder_match, insert, list, list_at, live_newest_first, mark_missing, migrate,
    now_unix, prune_on_load, prune_on_load_at, read_back, reap_expired, reap_expired_at,
    row_to_registration, slide, source_paths, sources, to_flush, to_mark, touch, unix_seconds,
    DbError, Kind, NewRegistration, RawRow, SourceState, TARGET_USER_VERSION,
};

fn fresh() -> Connection {
    let mut c = Connection::open_in_memory().unwrap();
    migrate(&mut c).unwrap();
    c
}

fn row(url: &str, source: &str, kind: Kind, expires: Option<i64>, ttl: Option<i64>) -> NewRegistration {
    NewRegistration {
        url_path: url.to_string(),
        source_path: source.to_string(),
        kind,
        name_slug: None,
        created_at: 0,
        expires_at: expires,
        ttl_seconds: ttl,
    }
}

#[test]
fn migration_is_idempotent() {
    let mut c = fresh();
    migrate(&mut c).unwrap();
    let v: i64 = c
        .pragma_query_value(None, "user_version", |r| r.get(0))
        .unwrap();
    assert_eq!(v, TARGET_USER_VERSION);
}

#[test]
fn migration_from_an_unknown_version_is_refused() {
    let mut c = Connection::open_in_memory().unwrap();
    c.pragma_update(None, "user_version", -3i64).unwrap();
    match migrate(&mut c) {
        Err(e) => {
            assert!(matches!(e, DbError::NoMigration(-2)));
            assert_eq!(e.message(), "no migration defined for version -2");
        }
        Ok(()) => panic!("expected an error"),
    }
}

#[test]
fn migration_leaves_a_newer_database_alone() {
    let mut c = Connection::open_in_memory().unwrap();
    c.pragma_update(None, "user_version", 7i64).unwrap();
    migrate(&mut c).unwrap();
    assert!(matches!(find_by_id(&c, 1), Err(DbError::Sqlite(_))));
}

#[test]
fn insert_and_find() {
    let mut c = fresh();
    let n = NewRegistration {
        url_path: "/a.html".into(),
        source_path: "/tmp/a.html".into(),
        kind: Kind::File,
        name_slug: None,
        created_at: 100,
        expires_at: Some(now_unix() + 200),
        ttl_seconds: Some(100),
    };
    let r = insert(&mut c, &n).unwrap();
    assert_eq!(r.url_path, "/a.html");
    assert!(find_by_url(&c, "/a.html").unwrap().is_some());
    assert!(find_by_source(&c, "/tmp/a.html").unwrap().is_some());
}

#[test]
fn unique_url_path() {
    let mut c = fresh();
    let n = NewRegistration {
        url_path: "/x".into(),
        source_path: "/tmp/x".into(),
        kind: Kind::File,
        name_slug: None,
        created_at: 0,
        expires_at: None,
        ttl_seconds: None,
    };
    insert(&mut c, &n).unwrap();
    let dup = NewRegistration {
        source_path: "/tmp/y".into(),
        ..n.clone()
    };
    let res = insert(&mut c, &dup);
    assert!(res.is_err());
    assert!(matches!(res, Err(DbError::Constraint(_))));
    assert_eq!(list_at(&c, 0).unwrap().len(), 1);
}

#[test]
fn touch_bumps_expiry() {
    let mut c = fresh();
    // Row is still live (now=150 < expires_at=200): touch slides forward.
    let r = insert(
        &mut c,
        &NewRegistration {
            url_path: "/a".into(),
            source_path: "/s/a".into(),
            kind: Kind::File,
            name_slug: None,
            created_at: 100,
            expires_at: Some(200),
            ttl_seconds: Some(100),
        },
    )
    .unwrap();
    touch(&mut c, r.id, 150, Some(100)).unwrap();
    let r2 = find_by_id(&c, r.id).unwrap().unwrap();
    assert_eq!(r2.expires_at, Some(250));
    assert_eq!(r2.last_hit_at, Some(150));
}

#[test]
fn touch_does_not_resurrect_expired_row() {
    let mut c = fresh();
    let r = insert(
        &mut c,
        &NewRegistration {
            url_path: "/a".into(),
            source_path: "/s/a".into(),
            kind: Kind::File,
            name_slug: None,
            created_at: 100,
            expires_at: Some(200),
            ttl_seconds: Some(100),
        },
    )
    .unwrap();
    touch(&mut c, r.id, 300, Some(100)).unwrap();
    let r2 = find_by_id(&c, r.id).unwrap().unwrap();
    assert_eq!(
        r2.expires_at,
        Some(200),
        "expired row must not be resurrected"
    );
    assert_eq!(
        r2.last_hit_at, None,
        "last_hit_at must not advance for an expired row"
    );
}

#[test]
fn touch_never_skips_update() {
    let mut c = fresh();
    let r = insert(
        &mut c,
        &NewRegistration {
            url_path: "/a".into(),
            source_path: "/s/a".into(),
            kind: Kind::File,
            name_slug: None,
            created_at: 0,
            expires_at: None,
            ttl_seconds: None,
        },
    )
    .unwrap();
    touch(&mut c, r.id, 500, None).unwrap();
    let r2 = find_by_id(&c, r.id).unwrap().unwrap();
    assert_eq!(r2.expires_at, None);
    assert_eq!(r2.last_hit_at, None);
}

#[test]
fn touch_at_the_very_deadline_still_slides() {
    let mut c = fresh();
    let r = insert(&mut c, &row("/a", "/s/a", Kind::File, Some(200), Some(100))).unwrap();
    touch(&mut c, r.id, 200, Some(100)).unwrap();
    assert_eq!(find_by_id(&c, r.id).unwrap().unwrap().expires_at, Some(300));
}

#[test]
fn touch_past_the_end_of_time_is_refused() {
    let mut c = fresh();
    let r = insert(
        &mut c,
        &row("/a", "/s/a", Kind::File, Some(i64::MAX), Some(i64::MAX)),
    )
    .unwrap();
    match touch(&mut c, r.id, 1, Some(5)) {
        Err(e) => {
            assert!(matches!(e, DbError::DeadlineOverflow));
            assert_eq!(e.message(), "deadline out of range");
        }
        Ok(()) => panic!("expected an error"),
    }
    assert_eq!(
        find_by_id(&c, r.id).unwrap().unwrap().expires_at,
        Some(i64::MAX)
    );
}

#[test]
fn touch_of_an_unknown_id_does_nothing() {
    let mut c = fresh();
    touch(&mut c, 99, 1, Some(5)).unwrap();
    assert_eq!(count_at(&c, 0).unwrap(), 0);
}

#[test]
fn longest_prefix_dir_match() {
    let mut c = fresh();
    insert(
        &mut c,
        &NewRegistration {
            url_path: "/site/".into(),
            source_path: "/s/site".into(),
            kind: Kind::Dir,
            name_slug: None,
            created_at: 0,
            expires_at: None,
            ttl_seconds: None,
        },
    )
    .unwrap();
    insert(
        &mut c,
        &NewRegistration {
            url_path: "/site/sub/".into(),
            source_path: "/s/sub".into(),
            kind: Kind::Dir,
            name_slug: None,
            created_at: 0,
            expires_at: None,
            ttl_seconds: None,
        },
    )
    .unwrap();
    let m = find_for_request(&c, "/site/sub/x.png").unwrap().unwrap();
    assert_eq!(m.registration.url_path, "/site/sub/");
    assert_eq!(m.suffix.as_deref(), Some("x.png"));
}

#[test]
fn underscore_in_url_path_is_not_a_like_wildcard() {
    let mut c = fresh();
    insert(
        &mut c,
        &NewRegistration {
            url_path: "/my_project/".into(),
            source_path: "/s/mp".into(),
            kind: Kind::Dir,
            name_slug: None,
            created_at: 0,
            expires_at: None,
            ttl_seconds: None,
        },
    )
    .unwrap();

    // Exact prefix match still works.
    let ok = find_for_request(&c, "/my_project/index.html")
        .unwrap()
        .unwrap();
    assert_eq!(ok.registration.url_path, "/my_project/");
    assert_eq!(ok.suffix.as_deref(), Some("index.html"));

    // `_` must not act as a single-char wildcard.
    assert!(find_for_request(&c, "/myXproject/index.html")
        .unwrap()
        .is_none());
    assert!(find_for_request(&c, "/my-project/index.html")
        .unwrap()
        .is_none());
}

#[test]
fn overlapping_underscore_dirs_match_only_literal_prefix() {
    let mut c = fresh();
    insert(
        &mut c,
        &NewRegistration {
            url_path: "/my_project/".into(),
            source_path: "/s/underscore".into(),
            kind: Kind::Dir,
            name_slug: None,
            created_at: 0,
            expires_at: None,
            ttl_seconds: None,
        },
    )
    .unwrap();
    insert(
        &mut c,
        &NewRegistration {
            url_path: "/myXproject/".into(),
            source_path: "/s/literal".into(),
            kind: Kind::Dir,
            name_slug: None,
            created_at: 0,
            expires_at: None,
            ttl_seconds: None,
        },
    )
    .unwrap();

    let m = find_for_request(&c, "/myXproject/index.html")
        .unwrap()
        .unwrap();
    assert_eq!(m.registration.url_path, "/myXproject/");
    assert_eq!(m.suffix.as_deref(), Some("index.html"));
}

#[test]
fn percent_in_url_path_is_not_a_like_wildcard() {
    let mut c = fresh();
    insert(
        &mut c,
        &NewRegistration {
            url_path: "/a%b/".into(),
            source_path: "/s/ab".into(),
            kind: Kind::Dir,
            name_slug: None,
            created_at: 0,
            expires_at: None,
            ttl_seconds: None,
        },
    )
    .unwrap();
    let ok = find_for_request(&c, "/a%b/x").unwrap().unwrap();
    assert_eq!(ok.registration.url_path, "/a%b/");
    assert_eq!(ok.suffix.as_deref(), Some("x"));
    // `%` must not match "anything".
    assert!(find_for_request(&c, "/aZZZb/x").unwrap().is_none());
    assert!(find_for_request(&c, "/ab/x").unwrap().is_none());
}

#[test]
fn expired_rows_are_hidden_from_runtime_lookups() {
    let mut c = fresh();
    let now = now_unix();
    insert(
        &mut c,
        &NewRegistration {
            url_path: "/old".into(),
            source_path: "/tmp/old".into(),
            kind: Kind::File,
            name_slug: None,
            created_at: now - 10,
            expires_at: Some(now - 1),
            ttl_seconds: Some(1),
        },
    )
    .unwrap();
    insert(
        &mut c,
        &NewRegistration {
            url_path: "/live".into(),
            source_path: "/tmp/live".into(),
            kind: Kind::File,
            name_slug: None,
            created_at: now,
            expires_at: Some(now + 60),
            ttl_seconds: Some(60),
        },
    )
    .unwrap();

    assert!(find_by_source(&c, "/tmp/old").unwrap().is_none());
    assert!(find_for_request(&c, "/old").unwrap().is_none());
    assert_eq!(count(&c).unwrap(), 1);
    let rows = list(&c).unwrap();
    assert_eq!(rows.len(), 1);
    assert_eq!(rows[0].url_path, "/live");
}

#[test]
fn exact_file_comes_before_folder() {
    let mut c = fresh();
    insert(&mut c, &row("/d/", "/s/d", Kind::Dir, None, None)).unwrap();
    insert(&mut c, &row("/d/f", "/s/f", Kind::File, None, None)).unwrap();
    let m = find_for_request_at(&c, "/d/f", 0).unwrap().unwrap();
    assert_eq!(m.registration.url_path, "/d/f");
    assert_eq!(m.suffix, None);
    let m = find_for_request_at(&c, "/d/g", 0).unwrap().unwrap();
    assert_eq!(m.registration.url_path, "/d/");
    assert_eq!(m.suffix.as_deref(), Some("g"));
    let m = find_for_request_at(&c, "/d/", 0).unwrap().unwrap();
    assert_eq!(m.suffix.as_deref(), Some(""));
}

#[test]
fn expired_folder_gives_way_to_a_shorter_one() {
    let mut c = fresh();
    insert(&mut c, &row("/a/", "/s/a", Kind::Dir, None, None)).unwrap();
    insert(&mut c, &row("/a/b/", "/s/b", Kind::Dir, Some(10), Some(10))).unwrap();
    let at = |t: i64| {
        find_for_request_at(&c, "/a/b/x", t)
            .unwrap()
            .unwrap()
            .registration
            .url_path
    };
    assert_eq!(at(10), "/a/b/");
    assert_eq!(at(11), "/a/");
}

#[test]
fn expired_file_does_not_shadow_a_folder() {
    let mut c = fresh();
    insert(&mut c, &row("/a/", "/s/a", Kind::Dir, None, None)).unwrap();
    insert(&mut c, &row("/a/f", "/s/f", Kind::File, Some(10), Some(10))).unwrap();
    let m = find_for_request_at(&c, "/a/f", 11).unwrap().unwrap();
    assert_eq!(m.registration.url_path, "/a/");
    assert_eq!(m.suffix.as_deref(), Some("f"));
}

#[test]
fn expired_row_keeps_its_url_until_it_is_removed() {
    let mut c = fresh();
    insert(&mut c, &row("/a", "/s/a", Kind::File, Some(10), Some(10))).unwrap();
    assert!(find_by_url(&c, "/a").unwrap().is_some());
    assert_eq!(reap_expired_at(&mut c, 11).unwrap(), 1);
    assert!(find_by_url(&c, "/a").unwrap().is_none());
}

#[test]
fn oldest_live_registration_of_a_source_is_found() {
    let mut c = fresh();
    insert(&mut c, &row("/a", "/s", Kind::File, Some(10), Some(10))).unwrap();
    let second = insert(&mut c, &row("/b", "/s", Kind::File, None, None)).unwrap();
    insert(&mut c, &row("/c", "/s", Kind::File, None, None)).unwrap();
    assert_eq!(
        find_by_source_at(&c, "/s", 5).unwrap().unwrap().url_path,
        "/a"
    );
    assert_eq!(
        find_by_source_at(&c, "/s", 11).unwrap().unwrap().id,
        second.id
    );
}

#[test]
fn newest_registrations_are_listed_first() {
    let mut c = fresh();
    for (url, created) in [("/a", 5), ("/b", 9), ("/c", 5), ("/d", 1)] {
        let mut n = row(url, url, Kind::File, None, None);
        n.created_at = created;
        insert(&mut c, &n).unwrap();
    }
    let urls: Vec<String> = list_at(&c, 0)
        .unwrap()
        .into_iter()
        .map(|r| r.url_path)
        .collect();
    assert_eq!(urls, vec!["/b", "/a", "/c", "/d"]);
}

#[test]
fn every_column_comes_back() {
    let mut c = fresh();
    let n = NewRegistration {
        url_path: "/ü \"quoted\"/".into(),
        source_path: "/tmp/'x'".into(),
        kind: Kind::Dir,
        name_slug: Some("slug".into()),
        created_at: -5,
        expires_at: Some(7),
        ttl_seconds: Some(12),
    };
    let r = insert(&mut c, &n).unwrap();
    let back = find_by_id(&c, r.id).unwrap().unwrap();
    assert_eq!(back.url_path, "/ü \"quoted\"/");
    assert_eq!(back.source_path, "/tmp/'x'");
    assert_eq!(back.source_pathbuf(), "/tmp/'x'");
    assert_eq!(back.kind, Kind::Dir);
    assert_eq!(back.name_slug.as_deref(), Some("slug"));
    assert_eq!(back.created_at, -5);
    assert_eq!(back.expires_at, Some(7));
    assert_eq!(back.ttl_seconds, Some(12));
    assert_eq!(back.last_hit_at, None);
    assert_eq!(back.missing_since, None);
}

#[test]
fn ids_are_not_given_twice() {
    let mut c = fresh();
    let a = insert(&mut c, &row("/a", "/a", Kind::File, None, None)).unwrap();
    assert!(delete(&mut c, a.id).unwrap());
    assert!(!delete(&mut c, a.id).unwrap());
    let b = insert(&mut c, &row("/b", "/b", Kind::File, None, None)).unwrap();
    assert!(b.id > a.id);
}

#[test]
fn first_missing_note_stands_until_it_is_cleared() {
    let mut c = fresh();
    let a = insert(&mut c, &row("/a", "/a", Kind::File, None, None)).unwrap();
    mark_missing(&mut c, a.id, 10).unwrap();
    mark_missing(&mut c, a.id, 20).unwrap();
    assert_eq!(find_by_id(&c, a.id).unwrap().unwrap().missing_since, Some(10));
    clear_missing(&mut c, a.id).unwrap();
    assert_eq!(find_by_id(&c, a.id).unwrap().unwrap().missing_since, None);
    mark_missing(&mut c, a.id, 30).unwrap();
    assert_eq!(find_by_id(&c, a.id).unwrap().unwrap().missing_since, Some(30));
    mark_missing(&mut c, 99, 30).unwrap();
    clear_missing(&mut c, 99).unwrap();
}

#[test]
fn reaper_deletes_expired() {
    let mut c = fresh();
    let now = now_unix();
    insert(
        &mut c,
        &NewRegistration {
            url_path: "/old".into(),
            source_path: "/tmp/old".into(),
            kind: Kind::File,
            name_slug: None,
            created_at: now - 100,
            expires_at: Some(now - 1),
            ttl_seconds: Some(50),
        },
    )
    .unwrap();
    insert(
        &mut c,
        &NewRegistration {
            url_path: "/keep".into(),
            source_path: "/tmp/keep".into(),
            kind: Kind::File,
            name_slug: None,
            created_at: now,
            expires_at: Some(now + 3600),
            ttl_seconds: Some(3600),
        },
    )
    .unwrap();
    insert(
        &mut c,
        &NewRegistration {
            url_path: "/never".into(),
            source_path: "/tmp/never".into(),
            kind: Kind::File,
            name_slug: None,
            created_at: now,
            expires_at: None,
            ttl_seconds: None,
        },
    )
    .unwrap();
    assert_eq!(reap_expired(&mut c).unwrap(), 1);
    let rows = list(&c).unwrap();
    let urls: Vec<&str> = rows.iter().map(|r| r.url_path.as_str()).collect();
    assert!(!urls.contains(&"/old"), "expired row should be reaped");
    assert!(urls.contains(&"/keep"));
    assert!(urls.contains(&"/never"));
    assert!(find_by_url(&c, "/old").unwrap().is_none());
}

#[test]
fn prune_on_load_drops_expired_and_missing_source() {
    let mut c = fresh();
    let now = now_unix();
    // Expired row.
    let old = insert(&mut c, &row("/old", "/x/present.txt", Kind::File, Some(now - 100), Some(60)))
        .unwrap();
    // Live row, but source missing.
    let missing = insert(
        &mut c,
        &row("/missing", "/x/nope.txt", Kind::File, Some(now + 3600), Some(3600)),
    )
    .unwrap();
    // Live row, source present.
    let live = insert(
        &mut c,
        &row("/live", "/x/present.txt", Kind::File, Some(now + 3600), Some(3600)),
    )
    .unwrap();

    let looked_at = sources(&c).unwrap();
    assert_eq!(
        looked_at,
        vec![
            (old.id, "/x/present.txt".to_string()),
            (missing.id, "/x/nope.txt".to_string()),
            (live.id, "/x/present.txt".to_string()),
        ]
    );
    let states = vec![
        (old.id, SourceState::Present),
        (missing.id, SourceState::NotFound),
        (live.id, SourceState::Present),
    ];
    let stats = prune_on_load(&mut c, &states).unwrap();
    assert_eq!(stats.expired, 1);
    assert_eq!(stats.missing_source, 1);

    let rows = list(&c).unwrap();
    assert_eq!(rows.len(), 1);
    assert_eq!(rows[0].url_path, "/live");
}

#[test]
fn pruning_keeps_what_could_not_be_looked_at() {
    let mut c = fresh();
    let a = insert(&mut c, &row("/a", "/a", Kind::File, None, None)).unwrap();
    let b = insert(&mut c, &row("/b", "/b", Kind::File, Some(5), Some(5))).unwrap();
    let states = vec![
        (a.id, SourceState::Unknown),
        (b.id, SourceState::NotFound),
        (77, SourceState::NotFound),
    ];
    let stats = prune_on_load_at(&mut c, 6, &states).unwrap();
    // The expired row is counted once, as expired.
    assert_eq!((stats.expired, stats.missing_source), (1, 0));
    assert_eq!(list_at(&c, 6).unwrap().len(), 1);
}

#[test]
fn sweep_cannot_be_seen_by_lookups() {
    let mut c = fresh();
    insert(&mut c, &row("/a/", "/s/a", Kind::Dir, Some(10), Some(10))).unwrap();
    insert(&mut c, &row("/b", "/s/b", Kind::File, Some(20), Some(20))).unwrap();
    let seen = |c: &Connection| {
        (
            find_for_request_at(c, "/a/x", 15).unwrap().is_some(),
            find_by_source_at(c, "/s/a", 15).unwrap().is_some(),
            count_at(c, 15).unwrap(),
            list_at(c, 15).unwrap().len(),
        )
    };
    let before = seen(&c);
    assert_eq!(before, (false, false, 1, 1));
    reap_expired_at(&mut c, 15).unwrap();
    assert_eq!(seen(&c), before);
    assert_eq!(reap_expired_at(&mut c, 15).unwrap(), 0);
}

#[test]
fn flushed_hit_slides_live_rows_only() {
    let mut c = fresh();
    let a = insert(&mut c, &row("/a", "/a", Kind::File, Some(100), Some(50))).unwrap();
    let b = insert(&mut c, &row("/b", "/b", Kind::File, None, None)).unwrap();
    flush_one(&mut c, a.id, 90).unwrap();
    assert_eq!(find_by_id(&c, a.id).unwrap().unwrap().expires_at, Some(140));
    flush_one(&mut c, a.id, 141).unwrap();
    assert_eq!(find_by_id(&c, a.id).unwrap().unwrap().expires_at, Some(140));
    flush_one(&mut c, b.id, 5).unwrap();
    assert_eq!(find_by_id(&c, b.id).unwrap().unwrap().last_hit_at, None);
    flush_one(&mut c, 99, 5).unwrap();
}

#[test]
fn kinds_have_names() {
    assert_eq!(Kind::File.as_str(), "file");
    assert_eq!(Kind::Dir.as_str(), "dir");
    assert_eq!(Kind::parse("file"), Ok(Kind::File));
    assert_eq!(Kind::parse("dir"), Ok(Kind::Dir));
    assert_eq!(Kind::parse("link"), Err("unknown kind: link".to_string()));
}

#[test]
fn clock_before_the_epoch_reads_as_zero() {
    assert_eq!(unix_seconds(None), 0);
    assert_eq!(unix_seconds(Some(1_700_000_000)), 1_700_000_000);
    assert_eq!(unix_seconds(Some(u64::MAX)), -1);
    assert!(now_unix() > 1_600_000_000);
}

#[test]
fn failures_of_sqlite_are_reported() {
    let mut c = Connection::open_in_memory().unwrap();
    // There is no table yet.
    assert!(matches!(list_at(&c, 0), Err(DbError::Sqlite(_))));
    assert!(matches!(count_at(&c, 0), Err(DbError::Sqlite(_))));
    assert!(matches!(sources(&c), Err(DbError::Sqlite(_))));
    assert!(matches!(find_by_url(&c, "/a"), Err(DbError::Sqlite(_))));
    assert!(matches!(find_by_source_at(&c, "/a", 0), Err(DbError::Sqlite(_))));
    assert!(matches!(find_for_request_at(&c, "/a", 0), Err(DbError::Sqlite(_))));
    assert!(matches!(delete(&mut c, 1), Err(DbError::Sqlite(_))));
    assert!(matches!(reap_expired_at(&mut c, 1), Err(DbError::Sqlite(_))));
    assert!(matches!(clear_missing(&mut c, 1), Err(DbError::Sqlite(_))));
    let n = row("/a", "/a", Kind::File, None, None);
    match insert(&mut c, &n) {
        Err(e) => assert!(e.message().contains("no such table"), "{}", e.message()),
        Ok(_) => panic!("expected an error"),
    }
}

fn raw(id: i64, url: &str, kind: &str, created: i64, expires: Option<i64>) -> RawRow {
    RawRow {
        id,
        url_path: url.to_string(),
        source_path: format!("/s{url}"),
        kind: kind.to_string(),
        name_slug: None,
        created_at: created,
        expires_at: expires,
        ttl_seconds: expires,
        last_hit_at: None,
        missing_since: None,
    }
}

#[test]
fn decisions_on_rows_that_were_read() {
    let rows = vec![
        raw(1, "/a/", "dir", 5, Some(10)),
        raw(2, "/a/b", "file", 5, Some(20)),
        raw(4, "/", "dir", 9, None),
        raw(7, "/x", "file", 1, Some(9)),
    ];
    assert_eq!(first_live(&rows, 10).unwrap().id, 1);
    assert_eq!(first_live(&rows, 11).unwrap().id, 2);
    assert!(first_live(&vec![raw(1, "/a", "file", 0, Some(1))], 2).is_none());
    let ids = |now: i64| -> Vec<i64> {
        live_newest_first(&rows, now).iter().map(|r| r.id).collect()
    };
    assert_eq!(ids(9), vec![4, 1, 2, 7]);
    assert_eq!(ids(15), vec![4, 2]);
    assert_eq!((count_live(&rows, 9), count_live(&rows, 21)), (4, 1));
    let m = file_match(&rows, "/a/b", 20).unwrap();
    assert_eq!((m.registration.id, m.suffix), (2, None));
    assert!(file_match(&rows, "/a/b", 21).is_none());
    assert!(file_match(&rows, "/a/", 0).is_none());
    let m = folder_match(&rows, "/a/c", 10).unwrap();
    assert_eq!((m.registration.id, m.suffix.as_deref()), (1, Some("c")));
    let m = folder_match(&rows, "/a/c", 11).unwrap();
    assert_eq!((m.registration.id, m.suffix.as_deref()), (4, Some("a/c")));
    assert!(folder_match(&Vec::new(), "/a/c", 11).is_none());
}

#[test]
fn deadlines_that_hits_set() {
    let mut c = fresh();
    let mut r = insert(&mut c, &row("/a", "/a", Kind::File, Some(100), Some(30))).unwrap();
    assert_eq!(slide(&r, 90).unwrap(), Some(120));
    assert_eq!(slide(&r, 100).unwrap(), Some(130));
    assert_eq!(slide(&r, 101).unwrap(), None);
    r.ttl_seconds = None;
    assert_eq!(slide(&r, 90).unwrap(), None);
    r.ttl_seconds = Some(i64::MAX);
    assert!(matches!(slide(&r, 90), Err(DbError::DeadlineOverflow)));
    r.expires_at = None;
    assert_eq!(slide(&r, 90).unwrap(), None);
}

#[test]
fn hits_are_flushed_to_live_registrations_with_a_lifetime() {
    let mut c = fresh();
    let a = insert(&mut c, &row("/a", "/s/a", Kind::File, Some(100), Some(50))).unwrap();
    let b = insert(&mut c, &row("/b", "/s/b", Kind::File, None, None)).unwrap();
    assert_eq!(to_flush(&Some(a.clone()), 100), Some(50));
    assert_eq!(to_flush(&Some(a), 101), None);
    assert_eq!(to_flush(&Some(b), 0), None);
    assert_eq!(to_flush(&None, 0), None);
    let far = insert(&mut c, &row("/c", "/s/c", Kind::File, Some(100), Some(i64::MAX))).unwrap();
    assert!(matches!(flush_one(&mut c, far.id, 90), Err(DbError::DeadlineOverflow)));
    assert_eq!(find_by_id(&c, far.id).unwrap().unwrap().expires_at, Some(100));
}

#[test]
fn rows_stand_for_registrations() {
    let rows = vec![raw(3, "/a", "file", 5, Some(9)), raw(4, "/b/", "dir", 6, None)];
    let r = row_to_registration(&rows[1]);
    assert_eq!((r.id, r.url_path.as_str(), r.kind), (4, "/b/", Kind::Dir));
    assert_eq!((r.created_at, r.expires_at), (6, None));
    assert_eq!(first_row(&rows).unwrap().id, 3);
    assert!(first_row(&vec![]).is_none());
    let paths = source_paths(&rows);
    assert_eq!(paths.len(), 2);
    assert_eq!(paths[1], (4, rows[1].source_path.clone()));
}

#[test]
fn lookups_settle_what_is_written() {
    let r = row_to_registration(&raw(3, "/a", "file", 5, Some(9)));
    assert_eq!(read_back(Ok(Some(r.clone()))).unwrap().id, 3);
    assert!(matches!(read_back(Ok(None)), Err(DbError::Vanished)));
    let broken = Err(DbError::Sqlite("disk full".to_string()));
    assert!(matches!(read_back(broken), Err(DbError::Sqlite(m)) if m == "disk full"));
    let mut noted = r.clone();
    noted.missing_since = Some(7);
    assert!(to_mark(&Some(r)));
    assert!(!to_mark(&Some(noted)));
    assert!(!to_mark(&None));
}
