//! Answers of the serving plane, step by step.

use rusqlite::Connection;
use servant::db::{
    find_by_id, insert, migrate, DbError, Kind, NewRegistration, Registration, ServeMatch,
};
use servant::guards::Canonical;
use servant::serve::{
    apply_headers, cors_preflight, dispatch, fallback, forbidden, gone_html, listing_reply,
    method_not_allowed, next_step, not_found_html, screen_method, server_error, settle, Progress,
    Reply, Route, Stat, Step,
};

fn fresh() -> Connection {
    let mut c = Connection::open_in_memory().unwrap();
    migrate(&mut c).unwrap();
    c
}

fn registration(url: &str, source: &str, kind: Kind) -> Registration {
    Registration {
        id: 1,
        url_path: url.to_string(),
        source_path: source.to_string(),
        kind,
        name_slug: None,
        created_at: 0,
        expires_at: None,
        ttl_seconds: None,
        last_hit_at: None,
        missing_since: None,
    }
}

fn dir_match(suffix: &str) -> ServeMatch {
    ServeMatch {
        registration: registration("/site/", "/srv/site", Kind::Dir),
        suffix: Some(suffix.to_string()),
    }
}

fn found(p: &str) -> Canonical {
    Canonical::Found(p.to_string())
}

fn headers_of(r: &Reply) -> Vec<(&'static str, &'static str)> {
    r.headers.iter().map(|h| (h.name, h.value)).collect()
}

fn answered(s: Step) -> (u16, String) {
    match s {
        Step::Answer(r) => (r.status, r.body),
        other => panic!("expected an answer, got {other:?}"),
    }
}

#[test]
fn fixed_answers() {
    let r = cors_preflight();
    assert_eq!((r.status, r.body.as_str()), (204, ""));
    assert_eq!(
        headers_of(&r),
        vec![
            ("access-control-allow-origin", "*"),
            ("access-control-allow-methods", "GET, HEAD, OPTIONS"),
            ("access-control-allow-headers", "*"),
        ]
    );
    let r = method_not_allowed();
    assert_eq!((r.status, r.body.as_str()), (405, "Method Not Allowed"));
    assert_eq!(headers_of(&r), vec![("allow", "GET, HEAD, OPTIONS")]);
    let r = forbidden();
    assert_eq!((r.status, r.body.as_str()), (403, "Forbidden"));
    assert!(r.headers.is_empty());
    let r = server_error();
    assert_eq!((r.status, r.body.as_str()), (500, "Internal Server Error"));
    let r = listing_reply("<p>".to_string());
    assert_eq!((r.status, r.body.as_str()), (200, "<p>"));
    assert_eq!(
        headers_of(&r),
        vec![("content-type", "text/html; charset=utf-8")]
    );
}

#[test]
fn pages_escape_what_they_quote() {
    let r = not_found_html("/<b>&\"");
    assert_eq!(r.status, 404);
    assert_eq!(
        r.body,
        "<h1>404 Not Found</h1><p>servant: no registration for <code>/&lt;b&gt;&amp;\"</code></p>"
    );
    let r = gone_html(&registration("/a", "/s/<x>", Kind::File));
    assert_eq!(r.status, 410);
    assert_eq!(
        r.body,
        "<h1>410 Gone</h1><p>servant: source for <code>/a</code> is no longer available at \
         <code>/s/&lt;x&gt;</code>.</p>"
    );
    assert_eq!(
        headers_of(&r),
        vec![("content-type", "text/html; charset=utf-8")]
    );
}

#[test]
fn only_get_and_head_are_looked_up() {
    assert_eq!(screen_method("OPTIONS").unwrap().status, 204);
    for m in ["POST", "PUT", "DELETE", "PATCH", "get", ""] {
        assert_eq!(screen_method(m).unwrap().status, 405);
    }
    assert!(screen_method("GET").is_none());
    assert!(screen_method("HEAD").is_none());
    let c = fresh();
    let status = |method: &str| match fallback(&c, method, "/a", 0) {
        Route::Answer(r) => r.status,
        Route::Serve(_) => panic!("nothing is registered"),
    };
    assert_eq!(status("OPTIONS"), 204);
    assert_eq!(status("POST"), 405);
    assert_eq!(status("GET"), 404);
    assert_eq!(status("HEAD"), 404);
    let broken = Connection::open_in_memory().unwrap();
    assert!(matches!(fallback(&broken, "GET", "/a", 0), Route::Answer(r) if r.status == 500));
    assert!(matches!(dispatch(Err(DbError::Vanished), "/a"), Route::Answer(r) if r.status == 500));
}

#[test]
fn file_is_sent_if_it_is_there() {
    let m = ServeMatch {
        registration: registration("/a.html", "/srv/a.html", Kind::File),
        suffix: None,
    };
    let mut p = Progress::start();
    assert!(matches!(next_step(&m, &p), Step::LookAtSource(s) if s == "/srv/a.html"));
    p.source = Some(true);
    assert!(matches!(next_step(&m, &p), Step::SendFile(s) if s == "/srv/a.html"));
    p.source = Some(false);
    assert_eq!(answered(next_step(&m, &p)).0, 410);
}

#[test]
fn folder_is_served_step_by_step() {
    let m = dir_match("sub");
    let mut p = Progress::start();
    assert!(matches!(next_step(&m, &p), Step::LookAtSource(s) if s == "/srv/site"));
    p.source = Some(true);
    assert!(matches!(next_step(&m, &p), Step::Canonicalize(s) if s == "/srv/site"));
    p.canonical.push(found("/data/site"));
    assert!(matches!(next_step(&m, &p), Step::Canonicalize(s) if s == "/data/site/sub"));
    p.canonical.push(found("/data/site/sub"));
    assert!(matches!(next_step(&m, &p), Step::LookAtTarget(s) if s == "/data/site/sub"));
    p.target = Some(Stat::Other);
    assert!(matches!(next_step(&m, &p), Step::SendFile(s) if s == "/data/site/sub"));
    p.target = Some(Stat::Folder);
    assert!(matches!(next_step(&m, &p), Step::LookForIndex(s) if s == "/data/site/sub/index.html"));
    p.index = Some(true);
    assert!(matches!(next_step(&m, &p), Step::SendFile(s) if s == "/data/site/sub/index.html"));
    p.index = Some(false);
    match next_step(&m, &p) {
        Step::ListFolder { path, url_prefix } => {
            assert_eq!(path, "/data/site/sub");
            assert_eq!(url_prefix, "/site/sub/");
        }
        other => panic!("expected a listing, got {other:?}"),
    }
    p.target = Some(Stat::Missing);
    assert!(answered(next_step(&m, &p)).1.contains("<code>/site/sub</code>"));
}

#[test]
fn folder_root_is_listed_under_its_own_path() {
    for m in [
        dir_match(""),
        ServeMatch {
            registration: registration("/site/", "/srv/site", Kind::Dir),
            suffix: None,
        },
    ] {
        let p = Progress {
            source: Some(true),
            canonical: vec![found("/srv/site"), found("/srv/site")],
            target: Some(Stat::Folder),
            index: Some(false),
        };
        assert!(
            matches!(next_step(&m, &p), Step::ListFolder { url_prefix, .. } if url_prefix == "/site/")
        );
    }
}

#[test]
fn folder_that_is_gone_is_answered_as_gone() {
    let mut p = Progress::start();
    p.source = Some(false);
    assert_eq!(answered(next_step(&dir_match("x"), &p)).0, 410);
    // Even where the path could not be served anyway.
    assert_eq!(answered(next_step(&dir_match("../x"), &p)).0, 410);
}

#[test]
fn guards_decide_before_the_file_system() {
    let mut p = Progress::start();
    p.source = Some(true);
    assert_eq!(answered(next_step(&dir_match("../x"), &p)), (403, "Forbidden".to_string()));
    let (status, body) = answered(next_step(&dir_match(".git/config"), &p));
    assert_eq!(status, 404);
    assert!(body.contains("<code>/site/.git/config</code>"));
    p.canonical = vec![found("/srv/site"), found("/etc/passwd")];
    assert_eq!(answered(next_step(&dir_match("link"), &p)).0, 403);
    p.canonical = vec![found("/srv/site"), Canonical::Missing];
    assert_eq!(answered(next_step(&dir_match("none"), &p)).0, 404);
}

#[test]
fn default_headers_do_not_replace_those_of_the_answer() {
    let added = |present: &[&str]| -> Vec<(&'static str, &'static str)> {
        let present: Vec<String> = present.iter().map(|s| s.to_string()).collect();
        apply_headers(&present)
            .iter()
            .map(|h| (h.name, h.value))
            .collect()
    };
    assert_eq!(
        added(&[]),
        vec![
            ("cache-control", "no-cache"),
            ("access-control-allow-origin", "*"),
            ("access-control-allow-methods", "GET, HEAD, OPTIONS"),
            ("accept-ranges", "bytes"),
        ]
    );
    assert_eq!(
        added(&["content-type", "accept-ranges", "cache-control"]),
        vec![
            ("access-control-allow-origin", "*"),
            ("access-control-allow-methods", "GET, HEAD, OPTIONS"),
        ]
    );
}

#[test]
fn answers_are_noted_in_the_registry() {
    let mut c = fresh();
    let r = insert(
        &mut c,
        &NewRegistration {
            url_path: "/a".into(),
            source_path: "/s".into(),
            kind: Kind::File,
            name_slug: None,
            created_at: 0,
            expires_at: None,
            ttl_seconds: None,
        },
    )
    .unwrap();
    let missing = |c: &Connection| find_by_id(c, r.id).unwrap().unwrap().missing_since;
    for (status, touch) in [(200u16, true), (206, true), (299, true), (304, false), (404, false)] {
        let after = settle(&mut c, &r, status, 10);
        assert_eq!(after.touch, touch);
        assert!(after.noted.is_ok());
        assert_eq!(missing(&c), None);
    }
    let after = settle(&mut c, &r, 410, 10);
    assert!(!after.touch);
    assert_eq!(missing(&c), Some(10));
    let marked = find_by_id(&c, r.id).unwrap().unwrap();
    // A registration that was read before the note does not clear it.
    settle(&mut c, &r, 200, 20);
    assert_eq!(missing(&c), Some(10));
    assert!(settle(&mut c, &marked, 200, 20).touch);
    assert_eq!(missing(&c), None);
    c.pragma_update(None, "query_only", true).unwrap();
    assert!(settle(&mut c, &r, 410, 10).noted.is_err());
}
