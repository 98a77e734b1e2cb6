//! Requests of the control plane against a real SQLite database in memory.

use rusqlite::Connection;
use servant::config::default_ttl;
use servant::control::{
    found_or_missing, health, health_response, insert_response, list, list_response, refreshed,
    register, removal_response, resolve_ttl, rm_by_id, rm_by_source, rm_by_url, ErrorBody,
    RegisterRequest, RegistrationView, TtlRequest,
};
use servant::db::{find_by_id, insert, migrate, DbError, Kind, NewRegistration};
use servant::serve::{fallback, Route};
use servant::ttl::{Duration, Ttl};

fn fresh() -> Connection {
    let mut c = Connection::open_in_memory().unwrap();
    migrate(&mut c).unwrap();
    c
}

fn request(path: &str, kind: &str, ttl: TtlRequest, name: Option<&str>) -> RegisterRequest {
    RegisterRequest {
        path: path.to_string(),
        kind: kind.to_string(),
        ttl,
        name: name.map(|n| n.to_string()),
    }
}

fn said(e: ErrorBody) -> (u16, &'static str, String) {
    (e.status, e.code, e.error)
}

#[test]
fn serve_ls_rm_roundtrip() {
    let mut c = fresh();
    let ttl = default_ttl();
    let req = request("/home/u/a.html", "file", TtlRequest::Default, None);
    let r1 = register(&mut c, &ttl, &req, 1000).unwrap();
    assert_eq!(r1.registration.url_path, "/a.html");
    assert!(!r1.reused);

    // Re-register → reused.
    let req2 = request("/home/u/a.html", "file", TtlRequest::Default, None);
    let r2 = register(&mut c, &ttl, &req2, 2000).unwrap();
    assert!(r2.reused, "re-register must be idempotent");
    assert_eq!(r2.registration.url_path, "/a.html");
    assert_eq!(r2.registration.id, r1.registration.id);
    assert_eq!(r2.registration.expires_at, Some(2000 + 86_400));
    assert_eq!(r2.registration.last_hit_at, Some(2000));

    // List shows one row.
    let rows = list(&c, 2000).unwrap();
    assert_eq!(rows.len(), 1);

    // A request for the URL is answered by it.
    match fallback(&c, "GET", "/a.html", 2000) {
        Route::Serve(m) => assert_eq!(m.registration.source_path, "/home/u/a.html"),
        Route::Answer(r) => panic!("expected the registration, got {r:?}"),
    }

    // Rm by id.
    let removed = rm_by_id(&mut c, r1.registration.id, 2000).unwrap();
    assert_eq!(removed.url_path, "/a.html");
    let rows = list(&c, 2000).unwrap();
    assert_eq!(rows.len(), 0);
}

#[test]
fn registered_row_holds_what_was_asked_for() {
    let mut c = fresh();
    let req = request("/srv/site", "dir", TtlRequest::Seconds(90), Some("docs"));
    let r = register(&mut c, &Ttl::Never, &req, 500).unwrap().registration;
    assert_eq!(r.url_path, "/docs/");
    assert_eq!(r.source_path, "/srv/site");
    assert_eq!(r.kind, "dir");
    assert_eq!(r.name_slug.as_deref(), Some("docs"));
    assert_eq!(r.created_at, 500);
    assert_eq!(r.expires_at, Some(590));
    assert_eq!(r.ttl_seconds, Some(90));
    assert_eq!(r.last_hit_at, None);
    assert_eq!(r.missing_since, None);
    assert!(!r.missing);
    assert_eq!(r.expires_in_secs, Some(90));
}

#[test]
fn registering_again_does_not_change_name_or_lifetime() {
    let mut c = fresh();
    let first = request("/srv/x", "file", TtlRequest::Seconds(100), None);
    let a = register(&mut c, &Ttl::Never, &first, 10).unwrap();
    let again = request("/srv/x", "dir", TtlRequest::Never, Some("other"));
    let b = register(&mut c, &Ttl::Never, &again, 20).unwrap();
    assert!(b.reused);
    assert_eq!(b.registration.id, a.registration.id);
    assert_eq!(b.registration.url_path, "/x");
    assert_eq!(b.registration.kind, "file");
    assert_eq!(b.registration.ttl_seconds, Some(100));
    assert_eq!(b.registration.expires_at, Some(120));
}

#[test]
fn expired_source_is_registered_anew() {
    let mut c = fresh();
    let req = request("/srv/x", "file", TtlRequest::Seconds(100), None);
    register(&mut c, &Ttl::Never, &req, 10).unwrap();
    let b = register(&mut c, &Ttl::Never, &req, 111).unwrap();
    assert!(!b.reused);
    assert_eq!(b.registration.url_path, "/x-2");
}

#[test]
fn never_registrations_are_reused_unchanged() {
    let mut c = fresh();
    let req = request("/srv/x", "file", TtlRequest::Never, None);
    register(&mut c, &default_ttl(), &req, 10).unwrap();
    let b = register(&mut c, &default_ttl(), &req, 1_000_000).unwrap();
    assert!(b.reused);
    assert_eq!(b.registration.expires_at, None);
    assert_eq!(b.registration.expires_in_secs, None);
    assert_eq!(b.registration.last_hit_at, None);
}

#[test]
fn bad_requests_are_refused() {
    let mut c = fresh();
    let mut refused = |path: &str, kind: &str, name: Option<&str>| {
        let req = request(path, kind, TtlRequest::Default, name);
        said(register(&mut c, &Ttl::Never, &req, 10).unwrap_err())
    };
    assert_eq!(
        refused("a.html", "link", None),
        (400, "non_absolute_path", "path must be absolute".to_string())
    );
    assert_eq!(
        refused("", "file", None),
        (400, "non_absolute_path", "path must be absolute".to_string())
    );
    assert_eq!(
        refused("/a", "link", None),
        (400, "bad_kind", "unknown kind: link".to_string())
    );
    assert_eq!(
        refused("/a", "file", Some("a/b")),
        (
            400,
            "alloc",
            "--name must match [A-Za-z0-9._-]+ (got `a/b`)".to_string()
        )
    );
    assert_eq!(list(&c, 10).unwrap().len(), 0);
}

#[test]
fn failures_of_the_registry_are_answered() {
    let mut c = Connection::open_in_memory().unwrap();
    let req = request("/a", "file", TtlRequest::Default, None);
    let e = register(&mut c, &Ttl::Never, &req, 10).unwrap_err();
    assert_eq!((e.status, e.code), (400, "alloc"));
    let e = list(&c, 10).unwrap_err();
    assert_eq!((e.status, e.code), (500, "list"));
    let e = rm_by_id(&mut c, 1, 10).unwrap_err();
    assert_eq!((e.status, e.code), (500, "lookup"));
    let e = rm_by_source(&mut c, "/a", 10).unwrap_err();
    assert_eq!((e.status, e.code), (500, "lookup"));
    let e = rm_by_url(&mut c, "/a", 10).unwrap_err();
    assert_eq!((e.status, e.code), (500, "lookup"));
    assert_eq!(health(&c, 10, "1", 2, 3, "b").registrations, 0);
}

#[test]
fn read_only_registry_refuses_changes() {
    let mut c = fresh();
    let req = request("/a", "file", TtlRequest::Seconds(60), None);
    register(&mut c, &Ttl::Never, &req, 10).unwrap();
    c.pragma_update(None, "query_only", true).unwrap();
    let e = register(&mut c, &Ttl::Never, &req, 20).unwrap_err();
    assert_eq!((e.status, e.code), (500, "touch"));
    let other = request("/b", "file", TtlRequest::Never, None);
    let e = register(&mut c, &Ttl::Never, &other, 20).unwrap_err();
    assert_eq!((e.status, e.code), (500, "insert"));
    let e = rm_by_id(&mut c, 1, 20).unwrap_err();
    assert_eq!((e.status, e.code), (500, "delete"));
    // Removing by source reports what was found even where it stays.
    let r = rm_by_source(&mut c, "/a", 20).unwrap();
    assert_eq!(r.removed.url_path, "/a");
    assert!(matches!(r.outcome, Err(DbError::Sqlite(_))));
    assert_eq!(list(&c, 20).unwrap().len(), 1);
}

#[test]
fn removing_by_source_and_url() {
    let mut c = fresh();
    let a = request("/s/a", "file", TtlRequest::Seconds(50), None);
    let b = request("/s/b", "dir", TtlRequest::Seconds(50), None);
    register(&mut c, &Ttl::Never, &a, 10).unwrap();
    register(&mut c, &Ttl::Never, &b, 10).unwrap();
    assert_eq!(
        said(rm_by_source(&mut c, "/s/none", 20).unwrap_err()),
        (404, "not_found", "no registration for that source".to_string())
    );
    assert_eq!(
        said(rm_by_url(&mut c, "/none", 20).unwrap_err()),
        (404, "not_found", "no registration for that url".to_string())
    );
    assert_eq!(
        said(rm_by_id(&mut c, 77, 20).unwrap_err()),
        (404, "not_found", "no registration with that id".to_string())
    );
    let r = rm_by_source(&mut c, "/s/a", 20).unwrap();
    assert!(matches!(r.outcome, Ok(true)));
    assert_eq!(r.removed.url_path, "/a");
    assert_eq!(r.removed.expires_in_secs, Some(40));
    // An expired registration is gone for its source, not for its URL.
    assert!(rm_by_source(&mut c, "/s/b", 61).is_err());
    let r = rm_by_url(&mut c, "/b/", 61).unwrap();
    assert!(matches!(r.outcome, Ok(true)));
    assert_eq!(r.removed.expires_in_secs, Some(-1));
    assert!(find_by_id(&c, r.removed.id).unwrap().is_none());
}

#[test]
fn listing_reports_every_live_registration() {
    let mut c = fresh();
    for (i, p) in ["/s/a", "/s/b", "/s/c"].iter().enumerate() {
        let ttl = TtlRequest::Seconds(100 * (i as i64 + 1));
        register(&mut c, &Ttl::Never, &request(p, "file", ttl, None), 10 + i as i64).unwrap();
    }
    let views = list(&c, 150).unwrap();
    let seen: Vec<(&str, Option<i64>)> = views
        .iter()
        .map(|v| (v.url_path.as_str(), v.expires_in_secs))
        .collect();
    assert_eq!(seen, vec![("/c", Some(162)), ("/b", Some(61))]);
}

#[test]
fn lifetimes_are_resolved() {
    let day = Ttl::Duration(Duration::from_secs(86_400));
    assert_eq!(
        resolve_ttl(&TtlRequest::Seconds(5), 100, &day),
        (Some(105), Some(5))
    );
    assert_eq!(resolve_ttl(&TtlRequest::Never, 100, &day), (None, None));
    assert_eq!(
        resolve_ttl(&TtlRequest::Default, 100, &day),
        (Some(86_500), Some(86_400))
    );
    assert_eq!(
        resolve_ttl(&TtlRequest::Default, 100, &Ttl::Never),
        (None, None)
    );
    assert_eq!(
        resolve_ttl(&TtlRequest::Seconds(-5), 100, &day),
        (Some(95), Some(-5))
    );
    assert_eq!(
        resolve_ttl(&TtlRequest::Seconds(i64::MAX), 1, &day),
        (Some(i64::MIN), Some(i64::MAX))
    );
}

#[test]
fn views_report_registrations() {
    let mut c = fresh();
    let r = insert(
        &mut c,
        &NewRegistration {
            url_path: "/a".into(),
            source_path: "/s".into(),
            kind: Kind::File,
            name_slug: None,
            created_at: 1,
            expires_at: Some(i64::MIN),
            ttl_seconds: Some(2),
        },
    )
    .unwrap();
    let v = RegistrationView::from(r.clone(), 1);
    assert_eq!(v.expires_in_secs, Some(i64::MAX));
    assert_eq!(v.kind, "file");
    let mut gone = r.clone();
    gone.missing_since = Some(3);
    assert!(RegistrationView::from(gone.clone(), 1).missing);
    // What was read back counts, else what was there.
    assert_eq!(refreshed(Ok(Some(gone)), r.clone()).missing_since, Some(3));
    assert_eq!(refreshed(Ok(None), r.clone()).missing_since, None);
    assert_eq!(refreshed(Err(DbError::Vanished), r).missing_since, None);
    assert_eq!(DbError::Vanished.message(), "inserted row vanished");
}

#[test]
fn health_reports_the_daemon() {
    let mut c = fresh();
    register(&mut c, &Ttl::Never, &request("/s/a", "file", TtlRequest::Never, None), 10).unwrap();
    let h = health(&c, 10, "0.1.0", 42, 4769, "0.0.0.0");
    assert_eq!(h.status, "ok");
    assert_eq!(h.version, "0.1.0");
    assert_eq!(h.uptime_secs, 42);
    assert_eq!(h.registrations, 1);
    assert_eq!(h.port, 4769);
    assert_eq!(h.bind, "0.0.0.0");
    assert_eq!(health_response(Ok(7), "1", 0, 1, "x").registrations, 7);
    assert_eq!(
        health_response(Err(DbError::Vanished), "1", 0, 1, "x").registrations,
        0
    );
}

#[test]
fn answers_follow_from_what_the_registry_says() {
    let mut c = fresh();
    let r = insert(
        &mut c,
        &NewRegistration {
            url_path: "/a".into(),
            source_path: "/s".into(),
            kind: Kind::File,
            name_slug: None,
            created_at: 1,
            expires_at: Some(30),
            ttl_seconds: Some(20),
        },
    )
    .unwrap();
    let broken = || DbError::Sqlite("disk full".to_string());
    let full = |code| (500, code, "disk full".to_string());

    assert_eq!(found_or_missing(Ok(Some(r.clone())), "none").unwrap().id, r.id);
    assert_eq!(
        said(found_or_missing(Ok(None), "none").unwrap_err()),
        (404, "not_found", "none".to_string())
    );
    assert_eq!(said(found_or_missing(Err(broken()), "none").unwrap_err()), full("lookup"));

    let v = removal_response(Ok(true), r.clone(), 10).unwrap();
    assert_eq!((v.id, v.expires_in_secs), (r.id, Some(20)));
    assert_eq!(said(removal_response(Err(broken()), r.clone(), 10).unwrap_err()), full("delete"));

    let views = list_response(Ok(vec![r.clone(), r.clone()]), 10).unwrap();
    assert_eq!(views.len(), 2);
    assert_eq!(views[1].url_path, "/a");
    assert_eq!(said(list_response(Err(broken()), 10).unwrap_err()), full("list"));

    let resp = insert_response(Ok(r.clone()), 10).unwrap();
    assert!(!resp.reused);
    assert_eq!((resp.registration.id, resp.registration.expires_at), (r.id, Some(30)));
    assert_eq!(said(insert_response(Err(broken()), 10).unwrap_err()), full("insert"));
}
