//! Choosing URL paths.

use rusqlite::Connection;
use servant::db::{find_by_url, insert, migrate, DbError, Kind, NewRegistration};
use servant::url_alloc::{
    allocate_url_path, allocate_url_path_at, attempt, base_url_path, candidate_path,
    sanitize_name, source_answer, split_filename, suffix_dir, suffix_file, AllocError, Attempt,
    UrlAllocation,
};

fn fresh() -> Connection {
    let mut c = Connection::open_in_memory().unwrap();
    migrate(&mut c).unwrap();
    c
}

fn take(c: &mut Connection, url: &str, source: &str, kind: Kind, expires: Option<i64>) {
    insert(
        c,
        &NewRegistration {
            url_path: url.into(),
            source_path: source.into(),
            kind,
            name_slug: None,
            created_at: 0,
            expires_at: expires,
            ttl_seconds: expires,
        },
    )
    .unwrap();
}

fn chosen(r: Result<UrlAllocation, AllocError>) -> (String, Option<String>) {
    match r {
        Ok(UrlAllocation::New { url_path, name_slug }) => (url_path, name_slug),
        other => panic!("expected a new path, got {other:?}"),
    }
}

#[test]
fn split_first_dot() {
    assert_eq!(split_filename("foo.tar.gz"), ("foo", Some(".tar.gz")));
    assert_eq!(split_filename("foo.html"), ("foo", Some(".html")));
    assert_eq!(split_filename("foo"), ("foo", None));
    assert_eq!(split_filename(".env"), (".env", None));
}

#[test]
fn suffix_file_double_ext() {
    assert_eq!(suffix_file("/foo.tar.gz", 2), "/foo-2.tar.gz");
    assert_eq!(suffix_file("/a.html", 3), "/a-3.html");
    assert_eq!(suffix_file("/x", 2), "/x-2");
}

#[test]
fn suffix_dir_basic() {
    assert_eq!(suffix_dir("/site/", 2), "/site-2/");
    assert_eq!(suffix_dir("/my.dir/", 9), "/my.dir-9/");
}

#[test]
fn suffix_of_unusual_names() {
    assert_eq!(split_filename(""), ("", None));
    assert_eq!(split_filename("a."), ("a", Some(".")));
    assert_eq!(split_filename("é.ü"), ("é", Some(".ü")));
    assert_eq!(suffix_file("/.env.local", 4), "/.env.local-4");
    assert_eq!(suffix_file("/", 2), "/-2");
    assert_eq!(suffix_dir("//", 2), "/-2/");
    assert_eq!(candidate_path("/a.b", Kind::File, 1), "/a.b");
    assert_eq!(candidate_path("/a.b", Kind::File, 10), "/a-10.b");
    assert_eq!(candidate_path("/a.b/", Kind::Dir, 10), "/a.b-10/");
}

#[test]
fn idempotent_returns_existing() {
    let mut c = fresh();
    take(&mut c, "/x.html", "/tmp/x.html", Kind::File, None);
    match allocate_url_path(&c, "/tmp/x.html", Kind::File, None).unwrap() {
        UrlAllocation::Existing(r) => assert_eq!(r.url_path, "/x.html"),
        UrlAllocation::New { .. } => panic!("expected Existing"),
    }
}

#[test]
fn auto_suffix_on_collision() {
    let mut c = fresh();
    take(&mut c, "/a.html", "/one/a.html", Kind::File, None);
    let alloc = allocate_url_path(&c, "/two/a.html", Kind::File, None).unwrap();
    match alloc {
        UrlAllocation::New { url_path, .. } => assert_eq!(url_path, "/a-2.html"),
        _ => panic!(),
    }
}

#[test]
fn reserved_basename_rejected() {
    let c = fresh();
    let err = allocate_url_path(&c, "/tmp/_servant", Kind::File, None);
    assert!(err.is_err());
}

#[test]
fn bad_name_rejected() {
    let c = fresh();
    let err = allocate_url_path(&c, "/tmp/x", Kind::File, Some("../etc/passwd"));
    assert!(err.is_err());
    let err = allocate_url_path(&c, "/tmp/x", Kind::File, Some("_servant"));
    assert!(err.is_err());
}

#[test]
fn dir_name_gets_trailing_slash() {
    let c = fresh();
    let alloc = allocate_url_path(&c, "/tmp/site", Kind::Dir, None).unwrap();
    if let UrlAllocation::New { url_path, .. } = alloc {
        assert_eq!(url_path, "/site/");
    } else {
        panic!();
    }
}

#[test]
fn refusals_say_why() {
    let c = fresh();
    let msg = |source: &str, name: Option<&str>| {
        allocate_url_path(&c, source, Kind::File, name)
            .unwrap_err()
            .message()
    };
    assert_eq!(msg("/", None), "source path has no final component: /");
    assert_eq!(msg("/a/..", None), "source path has no final component: /a/..");
    assert_eq!(
        msg("/tmp/_servant", None),
        "`_servant` is reserved; use --name to choose another slug"
    );
    assert_eq!(msg("/tmp/x", Some("")), "--name must not be empty");
    assert_eq!(msg("/tmp/x", Some("_servant")), "`_servant` is reserved");
    assert_eq!(
        msg("/tmp/x", Some("a b")),
        "--name must match [A-Za-z0-9._-]+ (got `a b`)"
    );
}

#[test]
fn chosen_name_stands_in_the_path() {
    let c = fresh();
    assert_eq!(
        chosen(allocate_url_path(&c, "/tmp/_servant", Kind::File, Some("v1.0_x-Y"))),
        ("/v1.0_x-Y".to_string(), Some("v1.0_x-Y".to_string()))
    );
    assert_eq!(
        chosen(allocate_url_path(&c, "/", Kind::Dir, Some("root"))),
        ("/root/".to_string(), Some("root".to_string()))
    );
    assert_eq!(sanitize_name("ok").unwrap(), "ok");
    let (base, slug) = base_url_path("/a/b/", Kind::Dir, None).unwrap();
    assert_eq!((base.as_str(), slug), ("/b/", None));
}

#[test]
fn first_free_number_is_taken() {
    let mut c = fresh();
    take(&mut c, "/d/", "/1", Kind::Dir, None);
    take(&mut c, "/d-2/", "/2", Kind::Dir, None);
    take(&mut c, "/d-4/", "/4", Kind::Dir, None);
    let next = chosen(allocate_url_path(&c, "/x/d", Kind::Dir, None));
    assert_eq!(next.0, "/d-3/");
    // A file of the same name is at another path.
    let file = chosen(allocate_url_path(&c, "/x/d", Kind::File, None));
    assert_eq!(file.0, "/d");
}

#[test]
fn expired_registration_keeps_its_path_but_not_its_source() {
    let mut c = fresh();
    take(&mut c, "/a.html", "/one/a.html", Kind::File, Some(10));
    assert!(matches!(
        allocate_url_path_at(&c, "/one/a.html", Kind::File, None, 10),
        Ok(UrlAllocation::Existing(_))
    ));
    assert_eq!(
        chosen(allocate_url_path_at(&c, "/one/a.html", Kind::File, None, 11)).0,
        "/a-2.html"
    );
}

#[test]
fn allocation_gives_up_after_a_thousand_paths() {
    let mut c = fresh();
    take(&mut c, "/f", "/0", Kind::File, None);
    for n in 2..=1000 {
        let url = suffix_file("/f", n);
        take(&mut c, &url, &url, Kind::File, None);
    }
    let e = allocate_url_path(&c, "/x/f", Kind::File, None).unwrap_err();
    assert!(matches!(e, AllocError::Exhausted));
    assert_eq!(
        e.message(),
        "could not allocate a unique URL path after 1000 attempts"
    );
}

#[test]
fn unreadable_registry_is_reported() {
    let c = Connection::open_in_memory().unwrap();
    let e = allocate_url_path(&c, "/x/f", Kind::File, None).unwrap_err();
    assert!(matches!(e, AllocError::Db(_)));
    assert!(e.message().contains("no such table"));
}

#[test]
fn lookups_settle_what_is_tried_next() {
    let mut c = fresh();
    take(&mut c, "/f.html", "/x", Kind::File, None);
    let there = || find_by_url(&c, "/f.html").unwrap();
    assert!(there().is_some());
    let tried = |n, found| attempt("/f.html", Kind::File, n, found);
    assert!(matches!(tried(1, Ok(None)), Attempt::Take(u) if u == "/f.html"));
    assert!(matches!(tried(2, Ok(None)), Attempt::Take(u) if u == "/f-2.html"));
    assert!(matches!(tried(1, Ok(there())), Attempt::Next(2)));
    assert!(matches!(tried(999, Ok(there())), Attempt::Next(1000)));
    assert!(matches!(
        tried(1000, Ok(there())),
        Attempt::Fail(AllocError::Exhausted)
    ));
    assert!(matches!(
        tried(3, Err(DbError::Vanished)),
        Attempt::Fail(AllocError::Db(DbError::Vanished))
    ));
    assert!(matches!(
        attempt("/d/", Kind::Dir, 7, Ok(None)),
        Attempt::Take(u) if u == "/d-7/"
    ));

    assert!(source_answer(Ok(None)).is_none());
    assert!(matches!(
        source_answer(Ok(there())),
        Some(Ok(UrlAllocation::Existing(r))) if r.url_path == "/f.html"
    ));
    assert!(matches!(
        source_answer(Err(DbError::Vanished)),
        Some(Err(AllocError::Db(DbError::Vanished)))
    ));
}
