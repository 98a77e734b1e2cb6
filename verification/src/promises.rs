//! What the calls of the library promise, said of what goes into a call and what comes
//! out of it.

use rusqlite::Connection;
use vstd::prelude::*;

use crate::behaviour;
use crate::client;
use crate::client::{
    ClientError, ConnectError, ControlClient, ControlRequest, Failure, RmTarget,
};
use crate::control;
use crate::control::{
    ErrorBody, HealthResponse, RegisterRequest, RegisterResponse, RegistrationView, Removal,
    TtlRequest,
};
use crate::db;
use crate::db::{
    in_table, read_fails, rows, sqlite_fails, DbError, Kind, NewRegistration, PruneStats,
    Registration, Row, ServeMatch, SourceState,
};
use crate::guards;
use crate::guards::{components, harmless, Canonical, GuardOutcome, GuardStep};
use crate::output::json_string;
use crate::paths;
use crate::paths::absolute;
use crate::serve;
use crate::serve::{Aftermath, Header, Progress, Reply, Route, Stat, Step};
use crate::text;
use crate::text::{digits, has_prefix, views};
use crate::ttl::{Duration, Ttl};
use crate::url_alloc;
use crate::url_alloc::{AllocError, UrlAllocation};

verus! {

// ---------------------------------------------------------------------------
// Serving
// ---------------------------------------------------------------------------

/// A GET or HEAD for the URL path of a live file is handed to that file, unless SQLite
/// failed in looking it up.
pub proof fn lemma_request_for_a_file(
    conn: Connection,
    method: &str,
    path: &str,
    now: i64,
    r: Route,
    id: i64,
)
    requires
        call_ensures(serve::fallback, (&conn, method, path, now), r),
        method@ == "GET"@ || method@ == "HEAD"@,
        rows(conn).dom().contains(id),
        rows(conn)[id].kind == Kind::File,
        rows(conn)[id].url_path == path@,
        rows(conn)[id].expires_at matches Some(e) ==> now <= e,
    ensures
        match r {
            Route::Serve(m) => m.registration.kind == Kind::File && m.registration.url_path@ == path@
                && m.suffix is None && rows(conn).dom().contains(m.registration.id)
                && m.registration.source_path@ == rows(conn)[m.registration.id].source_path,
            Route::Answer(x) => x.status == 500 && exists|f: DbError| #[trigger]
                read_fails(conn, f),
        },
{
    serve::lemma_serving_is_read_only(method@);
    match r {
        Route::Serve(m) => {
            behaviour::lemma_file_answers_its_path(rows(conn), path@, now, Some(m), id);
        },
        Route::Answer(x) => {
            if db::answers_request(rows(conn), path@, now, None) {
                behaviour::lemma_file_answers_its_path(rows(conn), path@, now, None, id);
            }
        },
    }
}

/// A GET or HEAD below a live folder, for which there is no live file and no live folder
/// deeper in the path, is handed to that folder together with what follows its URL path,
/// unless SQLite failed in looking it up.
pub proof fn lemma_request_below_a_folder(
    conn: Connection,
    method: &str,
    path: &str,
    now: i64,
    r: Route,
    id: i64,
    rest: Seq<char>,
)
    requires
        call_ensures(serve::fallback, (&conn, method, path, now), r),
        method@ == "GET"@ || method@ == "HEAD"@,
        rows(conn).dom().contains(id),
        rows(conn)[id].kind == Kind::Dir,
        path@ == rows(conn)[id].url_path + rest,
        rows(conn)[id].expires_at matches Some(e) ==> now <= e,
        forall|k: i64| #[trigger]
            rows(conn).dom().contains(k) && rows(conn)[k].kind == Kind::File && rows(
                conn,
            )[k].url_path == path@ ==> (rows(conn)[k].expires_at matches Some(e) && e < now),
        forall|k: i64| #[trigger]
            rows(conn).dom().contains(k) && rows(conn)[k].kind == Kind::Dir && has_prefix(
                path@,
                rows(conn)[k].url_path,
            ) && k != id ==> rows(conn)[k].url_path.len() < rows(conn)[id].url_path.len(),
    ensures
        match r {
            Route::Serve(m) => m.registration.id == id && m.registration.kind == Kind::Dir
                && m.registration.source_path@ == rows(conn)[id].source_path && (
            m.suffix matches Some(s) && s@ == rest),
            Route::Answer(x) => x.status == 500 && exists|f: DbError| #[trigger]
                read_fails(conn, f),
        },
{
    let m = rows(conn);
    let folder = m[id].url_path;
    serve::lemma_serving_is_read_only(method@);
    match r {
        Route::Serve(x) => {
            behaviour::lemma_folder_answers_below_its_path(m, folder, rest, now, Some(x), id);
        },
        Route::Answer(x) => {
            if db::answers_request(m, path@, now, None) {
                behaviour::lemma_folder_answers_below_its_path(m, folder, rest, now, None, id);
            }
        },
    }
}

/// A GET or HEAD that no live file or folder answers is answered as not found, unless
/// SQLite failed in looking it up; and what is handed on is handed to a live one.
pub proof fn lemma_request_for_nothing(
    conn: Connection,
    method: &str,
    path: &str,
    now: i64,
    r: Route,
)
    requires
        call_ensures(serve::fallback, (&conn, method, path, now), r),
        method@ == "GET"@ || method@ == "HEAD"@,
    ensures
        (forall|k: i64| #[trigger]
            rows(conn).dom().contains(k) ==> (rows(conn)[k].expires_at matches Some(e) && e < now)
                || !has_prefix(path@, rows(conn)[k].url_path)) ==> (r matches Route::Answer(x) && (
        (x.status == 404 && text::holds(x.body@, text::escaped(path@, false))) || (x.status == 500 && exists|f: DbError| #[trigger] read_fails(conn, f)))),
        r matches Route::Serve(m) ==> in_table(rows(conn), m.registration) && (
        m.registration.expires_at matches Some(e) ==> now <= e) && path@
            == m.registration.url_path@ + match m.suffix {
            Some(s) => s@,
            None => Seq::empty(),
        },
{
    serve::lemma_serving_is_read_only(method@);
    match r {
        Route::Serve(m) => {
            behaviour::lemma_what_answers(rows(conn), path@, now, Some(m));
            let url = m.registration.url_path@;
            assert(path@ =~= url + match m.suffix {
                Some(s) => s@,
                None => Seq::empty(),
            });
            if forall|k: i64| #[trigger]
                rows(conn).dom().contains(k) ==> (rows(conn)[k].expires_at matches Some(e) && e
                    < now) || !has_prefix(path@, rows(conn)[k].url_path) {
                assert(rows(conn).dom().contains(m.registration.id));
                assert(path@.take(url.len() as int) =~= url);
            }
        },
        Route::Answer(x) => {
            text::lemma_holds(
                "<h1>404 Not Found</h1><p>servant: no registration for <code>"@,
                text::escaped(path@, false),
                "</code></p>"@,
            );
        },
    }
}

/// A preflight request is answered at once, and any other method but GET and HEAD is
/// refused.
pub proof fn lemma_other_methods(conn: Connection, method: &str, path: &str, now: i64, r: Route)
    requires
        call_ensures(serve::fallback, (&conn, method, path, now), r),
    ensures
        method@ == "OPTIONS"@ ==> (r matches Route::Answer(x) && x.status == 204),
        method@ != "OPTIONS"@ && method@ != "GET"@ && method@ != "HEAD"@ ==> (
        r matches Route::Answer(x) && x.status == 405),
{
}

/// What the registry said decides who answers.
pub proof fn lemma_dispatch(path: &str, m: ServeMatch, e: DbError, r: Route)
    ensures
        call_ensures(serve::dispatch, (Ok(Some(m)), path), r) ==> r == Route::Serve(m),
        call_ensures(serve::dispatch, (Ok(None), path), r) ==> (r matches Route::Answer(x)
            && x.status == 404),
        call_ensures(serve::dispatch, (Err(e), path), r) ==> (r matches Route::Answer(x) && x.status
            == 500),
{
}

/// A registered file is looked at and then sent; where it is not there, it is gone.
pub proof fn lemma_steps_for_a_file(m: ServeMatch, p: Progress, r: Step)
    requires
        call_ensures(serve::next_step, (&m, &p), r),
        m.registration.kind == Kind::File,
    ensures
        p.source is None ==> (r matches Step::LookAtSource(s) && s@ == m.registration.source_path@),
        p.source == Some(true) ==> (r matches Step::SendFile(s) && s@
            == m.registration.source_path@),
        p.source == Some(false) ==> (r matches Step::Answer(x) && x.status == 410 && text::holds(
            x.body@,
            text::escaped(m.registration.url_path@, false),
        )),
{
    behaviour::lemma_file_is_sent(m, p);
}

/// For a harmless request below a folder the folder's source is looked at, its canonical
/// path is asked for, and then that of the folder's pieces followed by the pieces of the
/// request, all of them.
pub proof fn lemma_first_steps_for_a_folder(
    m: ServeMatch,
    suffix: String,
    root: String,
    p: Progress,
    r: Step,
)
    requires
        call_ensures(serve::next_step, (&m, &p), r),
        m.registration.kind == Kind::Dir,
        m.suffix == Some(suffix),
        harmless(suffix@),
        root@.len() > 0,
    ensures
        p.source is None ==> (r matches Step::LookAtSource(s) && s@ == m.registration.source_path@),
        p.source == Some(false) ==> (r matches Step::Answer(x) && x.status == 410 && text::holds(
            x.body@,
            text::escaped(m.registration.url_path@, false),
        )),
        p.source == Some(true) && p.canonical@.len() == 0 ==> (r matches Step::Canonicalize(s) && s@
            == m.registration.source_path@),
        p.source == Some(true) && p.canonical@ == seq![Canonical::Found(root)] ==> (
        r matches Step::Canonicalize(q) && components(q@) == components(root@) + components(
            suffix@,
        ) && absolute(q@) == absolute(root@)),
{
    behaviour::lemma_folder_is_looked_up(m, suffix, root, p);
}

/// What a harmless request below a folder leads to inside it is sent: a file as it is,
/// and of a folder its `index.html`, or its listing under the requested URL path.
pub proof fn lemma_last_steps_for_a_folder(
    m: ServeMatch,
    suffix: String,
    root: String,
    found: String,
    below: Seq<Seq<char>>,
    p: Progress,
    r: Step,
)
    requires
        call_ensures(serve::next_step, (&m, &p), r),
        m.registration.kind == Kind::Dir,
        m.suffix == Some(suffix),
        harmless(suffix@),
        p.source == Some(true),
        p.canonical@ == seq![Canonical::Found(root), Canonical::Found(found)],
        absolute(found@) == absolute(root@),
        components(found@) == components(root@) + below,
        found@.len() > 0,
    ensures
        p.target is None ==> (r matches Step::LookAtTarget(s) && s@ == found@),
        p.target == Some(Stat::Other) ==> (r matches Step::SendFile(s) && s@ == found@),
        p.target == Some(Stat::Missing) ==> (r matches Step::Answer(x) && x.status == 404
            && text::holds(x.body@, text::escaped(m.registration.url_path@ + suffix@, false))),
        p.target == Some(Stat::Folder) && p.index is None ==> (r matches Step::LookForIndex(q)
            && components(q@) == components(found@).push("index.html"@)),
        p.target == Some(Stat::Folder) && p.index == Some(true) ==> (r matches Step::SendFile(q)
            && components(q@) == components(found@).push("index.html"@)),
        p.target == Some(Stat::Folder) && p.index == Some(false) ==> (r matches Step::ListFolder {
            path,
            url_prefix,
        } && path@ == found@ && {
            let url = m.registration.url_path@ + suffix@;
            url_prefix@ == if url.len() > 0 && url.last() == '/' {
                url
            } else {
                url + seq!['/']
            }
        }),
{
    behaviour::lemma_folder_is_served(m, suffix, root, found, below, p);
}

/// What leads out of a folder is forbidden, and what is not there is not found.
pub proof fn lemma_refused_steps_for_a_folder(
    m: ServeMatch,
    suffix: String,
    root: String,
    found: String,
    p: Progress,
    r: Step,
)
    requires
        call_ensures(serve::next_step, (&m, &p), r),
        m.registration.kind == Kind::Dir,
        m.suffix == Some(suffix),
        harmless(suffix@),
        p.source == Some(true),
    ensures
        p.canonical@ == seq![Canonical::Found(root), Canonical::Found(found)] && (absolute(found@)
            != absolute(root@) || forall|below: Seq<Seq<char>>|
            components(found@) != #[trigger] (components(root@) + below)) ==> (
        r matches Step::Answer(x) && x.status == 403),
        p.canonical@ == seq![Canonical::Found(root), Canonical::Missing] ==> (
        r matches Step::Answer(x) && x.status == 404),
        p.canonical@ == seq![Canonical::Found(root), Canonical::Failed] ==> (
        r matches Step::Answer(x) && x.status == 403),
{
    behaviour::lemma_folder_refuses(m, suffix, root, found, p);
}

/// The path that is asked for below the canonical folder has exactly the named pieces
/// of the folder followed by those of the request.
pub proof fn lemma_path_below_a_folder(
    mount_root: &str,
    suffix: &str,
    seen: Vec<Canonical>,
    root: String,
    r: GuardStep,
)
    requires
        call_ensures(guards::resolve_under_mount, (mount_root, suffix, &seen), r),
        harmless(suffix@),
        root@.len() > 0,
    ensures
        seen@.len() == 0 ==> (r matches GuardStep::Canonicalize(p) && p@ == mount_root@),
        seen@ == seq![Canonical::Found(root)] ==> (r matches GuardStep::Canonicalize(p)
            && components(p@) == components(root@) + components(suffix@) && absolute(p@) == absolute(
            root@,
        )),
{
    guards::lemma_harmless_request_is_looked_up(
        mount_root@,
        suffix@,
        Canonical::Found(root),
        root@,
    );
    if seen@.len() == 0 {
        assert(seen@ =~= Seq::empty());
    }
}

/// What lies inside the canonical folder is allowed as the file system gave it, and a
/// request with a hidden piece is refused whatever it leads to.
pub proof fn lemma_allowed_below_a_folder(
    mount_root: &str,
    suffix: &str,
    seen: Vec<Canonical>,
    root: String,
    found: String,
    below: Seq<Seq<char>>,
    r: GuardStep,
)
    requires
        call_ensures(guards::resolve_under_mount, (mount_root, suffix, &seen), r),
    ensures
        harmless(suffix@) && seen@ == seq![Canonical::Found(root), Canonical::Found(found)]
            && absolute(found@) == absolute(root@) && components(found@) == components(root@) + below
            ==> (r matches GuardStep::Done(GuardOutcome::Allow(p)) && p@ == found@),
        !harmless(suffix@) ==> (r matches GuardStep::Done(o) && !(o is Allow)),
{
    if harmless(suffix@) && seen@ == seq![Canonical::Found(root), Canonical::Found(found)]
        && absolute(found@) == absolute(root@) && components(found@) == components(root@) + below {
        guards::lemma_inside_is_allowed(mount_root@, suffix@, root, found, below);
    }
    if !harmless(suffix@) {
        let pieces = text::split(guards::inner(suffix@), '/');
        let k = choose|k: int|
            0 <= k < pieces.len() && (#[trigger] pieces[k]).len() > 0 && !(pieces[k][0] != '.'
                && !pieces[k].contains('\0'));
        guards::lemma_harmful_is_refused(mount_root@, suffix@, seen@, k);
    }
}

/// The headers that an answer still gets.
pub proof fn lemma_headers_of_answers(present: Vec<String>, r: Vec<Header>)
    requires
        call_ensures(serve::apply_headers, (&present,), r),
    ensures
        forall|i: int|
            0 <= i < r@.len() ==> !views(present@).contains((#[trigger] r@[i]).name@) && {
                ||| r@[i].name@ == "cache-control"@ && r@[i].value@ == "no-cache"@
                ||| r@[i].name@ == "access-control-allow-origin"@ && r@[i].value@ == "*"@
                ||| r@[i].name@ == "access-control-allow-methods"@ && r@[i].value@
                    == "GET, HEAD, OPTIONS"@
                ||| r@[i].name@ == "accept-ranges"@ && r@[i].value@ == "bytes"@
            },
        !views(present@).contains("cache-control"@) ==> sets(r@, "cache-control"@, "no-cache"@),
        !views(present@).contains("access-control-allow-origin"@) ==> sets(
            r@,
            "access-control-allow-origin"@,
            "*"@,
        ),
        !views(present@).contains("access-control-allow-methods"@) ==> sets(
            r@,
            "access-control-allow-methods"@,
            "GET, HEAD, OPTIONS"@,
        ),
        !views(present@).contains("accept-ranges"@) ==> sets(r@, "accept-ranges"@, "bytes"@),
{
    let v = serve::header_views(r@);
    assert forall|i: int| 0 <= i < r@.len() implies !views(present@).contains(
        (#[trigger] r@[i]).name@,
    ) && {
        ||| r@[i].name@ == "cache-control"@ && r@[i].value@ == "no-cache"@
        ||| r@[i].name@ == "access-control-allow-origin"@ && r@[i].value@ == "*"@
        ||| r@[i].name@ == "access-control-allow-methods"@ && r@[i].value@ == "GET, HEAD, OPTIONS"@
        ||| r@[i].name@ == "accept-ranges"@ && r@[i].value@ == "bytes"@
    } by {
        assert(v[i] == (r@[i].name@, r@[i].value@));
        behaviour::lemma_default_headers(present@, r@[i].name@, r@[i].value@);
    }
    lemma_header_is_set(present@, r@, "cache-control"@, "no-cache"@);
    lemma_header_is_set(present@, r@, "access-control-allow-origin"@, "*"@);
    lemma_header_is_set(present@, r@, "access-control-allow-methods"@, "GET, HEAD, OPTIONS"@);
    lemma_header_is_set(present@, r@, "accept-ranges"@, "bytes"@);
}

/// One of the headers has that name and that value.
pub open spec fn sets(headers: Seq<Header>, name: Seq<char>, value: Seq<char>) -> bool {
    exists|i: int|
        0 <= i < headers.len() && (#[trigger] headers[i]).name@ == name && headers[i].value@ == value
}

proof fn lemma_header_is_set(
    present: Seq<String>,
    headers: Seq<Header>,
    name: Seq<char>,
    value: Seq<char>,
)
    requires
        serve::header_views(headers) == serve::missing_headers(serve::default_headers(), present),
    ensures
        serve::missing_headers(serve::default_headers(), present).contains((name, value)) <==> sets(
            headers,
            name,
            value,
        ),
        serve::missing_headers(serve::default_headers(), present).contains((name, value)) <==> !views(
            present,
        ).contains(name) && {
            ||| name == "cache-control"@ && value == "no-cache"@
            ||| name == "access-control-allow-origin"@ && value == "*"@
            ||| name == "access-control-allow-methods"@ && value == "GET, HEAD, OPTIONS"@
            ||| name == "accept-ranges"@ && value == "bytes"@
        },
{
    behaviour::lemma_default_headers(present, name, value);
    let v = serve::header_views(headers);
    if v.contains((name, value)) {
        let i = choose|i: int| 0 <= i < v.len() && v[i] == (name, value);
        assert(headers[i].name@ == name);
    }
    if sets(headers, name, value) {
        let i = choose|i: int|
            0 <= i < headers.len() && (#[trigger] headers[i]).name@ == name && headers[i].value@
                == value;
        assert(v[i] == (name, value));
    }
}

/// The answers that are not files have the statuses and the bodies that are usual.
pub proof fn lemma_plain_answers(path: &str, reg: Registration, page: String, r: Reply)
    ensures
        call_ensures(serve::cors_preflight, (), r) ==> r.status == 204 && r.body@ == ""@ && sets(
            r.headers@,
            "access-control-allow-origin"@,
            "*"@,
        ) && sets(r.headers@, "access-control-allow-methods"@, "GET, HEAD, OPTIONS"@) && sets(
            r.headers@,
            "access-control-allow-headers"@,
            "*"@,
        ),
        call_ensures(serve::method_not_allowed, (), r) ==> r.status == 405 && sets(
            r.headers@,
            "allow"@,
            "GET, HEAD, OPTIONS"@,
        ),
        call_ensures(serve::not_found_html, (path,), r) ==> r.status == 404 && text::holds(
            r.body@,
            text::escaped(path@, false),
        ),
        call_ensures(serve::gone_html, (&reg,), r) ==> r.status == 410 && text::holds(
            r.body@,
            text::escaped(reg.url_path@, false),
        ) && text::holds(r.body@, text::escaped(reg.source_path@, false)),
        call_ensures(serve::forbidden, (), r) ==> r.status == 403,
        call_ensures(serve::server_error, (), r) ==> r.status == 500,
        call_ensures(serve::listing_reply, (page,), r) ==> r.status == 200 && r.body@ == page@
            && sets(r.headers@, "content-type"@, "text/html; charset=utf-8"@),
{
    let v = serve::header_views(r.headers@);
    if call_ensures(serve::cors_preflight, (), r) {
        assert(v == r.view().headers);
        assert(v[0] == ("access-control-allow-origin"@, "*"@));
        assert(v[1] == ("access-control-allow-methods"@, "GET, HEAD, OPTIONS"@));
        assert(v[2] == ("access-control-allow-headers"@, "*"@));
        assert(r.headers@[0].name@ == "access-control-allow-origin"@);
        assert(r.headers@[1].name@ == "access-control-allow-methods"@);
        assert(r.headers@[2].name@ == "access-control-allow-headers"@);
    }
    if call_ensures(serve::method_not_allowed, (), r) {
        assert(v == r.view().headers);
        assert(v[0] == ("allow"@, "GET, HEAD, OPTIONS"@));
        assert(r.headers@[0].name@ == "allow"@);
    }
    if call_ensures(serve::listing_reply, (page,), r) {
        assert(v == r.view().headers);
        assert(v[0] == ("content-type"@, "text/html; charset=utf-8"@));
        assert(r.headers@[0].name@ == "content-type"@);
    }
    if call_ensures(serve::not_found_html, (path,), r) {
        assert(r.view().body == serve::not_found_view(path@).body);
    }
    if call_ensures(serve::gone_html, (&reg,), r) {
        let c = "<h1>410 Gone</h1><p>servant: source for <code>"@;
        let d = "</code> is no longer available at <code>"@;
        let e = "</code>.</p>"@;
        let url = text::escaped(reg.url_path@, false);
        let source = text::escaped(reg.source_path@, false);
        assert(r.body@ == c + url + d + source + e);
        assert(r.body@ =~= c + url + (d + source + e));
        assert(r.body@ =~= (c + url + d) + source + e);
    }
}

/// A served registration is hit and no longer missing; one whose source is gone is
/// missing from the first time on; no other row changes.
pub proof fn lemma_after_an_answer(reg: Registration, status: u16, now: i64, id: i64)
    ensures
        forall|c: &mut Connection, r: Aftermath| #[trigger]
            call_ensures(serve::settle, (c, &reg, status, now), r) ==> {
                &&& r.touch <==> 200 <= status <= 299
                &&& r.noted matches Err(e) ==> sqlite_fails(*c, e) && (status == 410 || (200 <= status
                    <= 299 && reg.missing_since is Some))
                &&& r.noted is Ok && in_table(rows(*c), reg) ==> {
                    let m = rows(*c);
                    let n = rows(*final(c));
                    &&& n.dom() == m.dom()
                    &&& 200 <= status <= 299 ==> n[reg.id].missing_since is None
                    &&& status == 410 && m[reg.id].missing_since is None ==> n[reg.id].missing_since
                        == Some(now)
                    &&& status == 410 && m[reg.id].missing_since is Some ==> n[reg.id] == m[reg.id]
                    &&& !(200 <= status <= 299) && status != 410 ==> n == m
                    &&& n[reg.id].url_path == m[reg.id].url_path && n[reg.id].expires_at
                        == m[reg.id].expires_at
                    &&& m.dom().contains(id) && id != reg.id ==> n[id] == m[id]
                }
            },
{
    assert forall|c: &mut Connection, r: Aftermath| #[trigger]
        call_ensures(serve::settle, (c, &reg, status, now), r) && r.noted is Ok && in_table(
            rows(*c),
            reg,
        ) implies {
        let m = rows(*c);
        let n = rows(*final(c));
        &&& n.dom() == m.dom()
        &&& m.dom().contains(id) && id != reg.id ==> n[id] == m[id]
    } by {
        serve::lemma_answers_keep_registrations(rows(*c), reg, status, now);
        if rows(*c).dom().contains(id) {
            behaviour::lemma_what_an_answer_notes(rows(*c), reg, status, now, id);
        }
    }
}

// ---------------------------------------------------------------------------
// URL paths
// ---------------------------------------------------------------------------

/// Without a chosen name, the plain URL path is a slash and exactly the last component
/// of the source path, and a slash behind it for a folder.
pub proof fn lemma_plain_url_path(
    source: &str,
    kind: Kind,
    dir: Seq<char>,
    name: Seq<char>,
    r: Result<(String, Option<String>), AllocError>,
)
    requires
        call_ensures(url_alloc::base_url_path, (source, kind, None::<&str>), r),
        source@ == dir + seq!['/'] + name,
        name.len() > 0,
        !name.contains('/'),
        name != "."@,
        name != ".."@,
        name != "_servant"@,
    ensures
        r matches Ok((url, slug)) && slug is None && url@ == match kind {
            Kind::File => seq!['/'] + name,
            Kind::Dir => seq!['/'] + name + seq!['/'],
        },
{
    url_alloc::lemma_plain_path_is_source_name(dir, name);
}

/// A chosen name of letters, digits, dots, underscores and hyphens stands in the URL
/// path as it is; any other is refused.
pub proof fn lemma_chosen_url_path(
    source: &str,
    kind: Kind,
    name: &str,
    r: Result<(String, Option<String>), AllocError>,
)
    requires
        call_ensures(url_alloc::base_url_path, (source, kind, Some(name)), r),
    ensures
        ({
            let good = name@.len() > 0 && name@ != "_servant"@ && forall|i: int|
                0 <= i < name@.len() ==> {
                    ||| 'a' <= #[trigger] name@[i] <= 'z'
                    ||| 'A' <= name@[i] <= 'Z'
                    ||| '0' <= name@[i] <= '9'
                    ||| name@[i] == '.'
                    ||| name@[i] == '_'
                    ||| name@[i] == '-'
                };
            &&& good ==> (r matches Ok((url, slug)) && (slug matches Some(s) && s@ == name@) && url@
                == match kind {
                Kind::File => seq!['/'] + name@,
                Kind::Dir => seq!['/'] + name@ + seq!['/'],
            })
            &&& !good ==> r is Err
        }),
{
    url_alloc::lemma_chosen_name_is_taken(source@, name@);
    reveal_strlit("/");
    assert("/"@ =~= seq!['/']);
}

/// The numbered path of a file has the number before its extension, and that of a
/// folder behind its name; the first path that is tried is the plain one.
pub proof fn lemma_numbered_url_path(
    base: &str,
    stem: Seq<char>,
    extension: Seq<char>,
    n: u32,
    r: String,
)
    requires
        1 <= n,
        stem.len() > 0,
        !stem.contains('.'),
        extension.len() == 0 || extension[0] == '.',
    ensures
        call_ensures(url_alloc::candidate_path, (base, Kind::File, n), r) && base@ == seq!['/']
            + stem + extension ==> r@ == if n == 1 {
            base@
        } else {
            seq!['/'] + stem + seq!['-'] + digits(n as nat) + extension
        },
        call_ensures(url_alloc::candidate_path, (base, Kind::Dir, n), r) && base@ == seq!['/'] + stem
            + extension + seq!['/'] ==> r@ == if n == 1 {
            base@
        } else {
            seq!['/'] + stem + extension + seq!['-'] + digits(n as nat) + seq!['/']
        },
{
    if n >= 2 {
        url_alloc::lemma_numbered_path(stem, extension, n as nat);
    }
}

/// A source with a live registration is not given another path. Any other gets its
/// plain path where that is free.
pub proof fn lemma_path_of_a_source(
    conn: Connection,
    source: &str,
    kind: Kind,
    now: i64,
    dir: Seq<char>,
    name: Seq<char>,
    r: Result<UrlAllocation, AllocError>,
)
    requires
        call_ensures(
            url_alloc::allocate_url_path_at,
            (&conn, source, kind, None::<&str>, now),
            r,
        ),
        source@ == dir + seq!['/'] + name,
        name.len() > 0,
        !name.contains('/'),
        name != "."@,
        name != ".."@,
        name != "_servant"@,
    ensures
        ({
            let m = rows(conn);
            let registered = exists|k: i64| #[trigger]
                m.dom().contains(k) && m[k].source_path == source@ && (
                m[k].expires_at matches Some(e) ==> now <= e);
            let plain = match kind {
                Kind::File => seq!['/'] + name,
                Kind::Dir => seq!['/'] + name + seq!['/'],
            };
            let free = forall|k: i64| #[trigger] m.dom().contains(k) ==> m[k].url_path != plain;
            match r {
                Ok(UrlAllocation::Existing(x)) => registered && in_table(m, x) && x.source_path@
                    == source@ && (x.expires_at matches Some(e) ==> now <= e),
                Ok(UrlAllocation::New { url_path, name_slug }) => !registered && name_slug is None && (
                free ==> url_path@ == plain) && forall|k: i64| #[trigger]
                    m.dom().contains(k) ==> m[k].url_path != url_path@,
                Err(AllocError::Db(e)) => read_fails(conn, e),
                Err(e) => !registered && !free,
            }
        }),
{
    let m = rows(conn);
    url_alloc::lemma_plain_path_is_source_name(dir, name);
    let base = url_alloc::path_of(name, kind);
    match r {
        Ok(UrlAllocation::Existing(x)) => {
            behaviour::lemma_what_a_source_is_registered_as(m, source@, now, Some(x));
        },
        Ok(UrlAllocation::New { url_path, name_slug }) => {
            behaviour::lemma_what_a_source_is_registered_as(m, source@, now, None);
            if !db::url_taken(m, base) {
                url_alloc::lemma_allocated_plain_path(
                    m,
                    dir,
                    name,
                    kind,
                    now,
                    url_path,
                    name_slug,
                );
            }
        },
        Err(AllocError::Db(e)) => {},
        Err(e) => {
            behaviour::lemma_what_a_source_is_registered_as(m, source@, now, None);
            assert(url_alloc::candidate(base, kind, 1) == base);
            if e is Exhausted {
                assert(db::url_taken(m, url_alloc::candidate(base, kind, 1)));
            }
        },
    }
}

/// Where every path that is tried is taken there is none; the last of them has the
/// number 1000.
pub proof fn lemma_no_path_is_left(
    conn: Connection,
    source: &str,
    now: i64,
    dir: Seq<char>,
    stem: Seq<char>,
    extension: Seq<char>,
    n: nat,
    r: Result<UrlAllocation, AllocError>,
)
    requires
        call_ensures(
            url_alloc::allocate_url_path_at,
            (&conn, source, Kind::File, None::<&str>, now),
            r,
        ),
        r == Err::<UrlAllocation, AllocError>(AllocError::Exhausted),
        source@ == dir + seq!['/'] + (stem + extension),
        stem.len() > 0,
        !stem.contains('/'),
        !stem.contains('.'),
        extension.len() == 0 || extension[0] == '.',
        !extension.contains('/'),
        2 <= n <= 1000,
    ensures
        db::url_taken(rows(conn), seq!['/'] + stem + extension),
        db::url_taken(rows(conn), seq!['/'] + stem + seq!['-'] + digits(n) + extension),
{
    let name = stem + extension;
    reveal_strlit(".");
    reveal_strlit("..");
    assert(name[0] == stem[0]);
    if stem[0] == '.' {
        assert(stem.contains(stem[0]));
    }
    assert("."@[0] == '.' && ".."@[0] == '.');
    if name.contains('/') {
        let i = choose|i: int| 0 <= i < name.len() && name[i] == '/';
        if i < stem.len() {
            assert(stem[i] == '/');
        } else {
            assert(extension[i - stem.len()] == '/');
        }
    }
    paths::lemma_name_behind_last_slash(dir, name);
    url_alloc::lemma_numbered_path(stem, extension, n);
    let base = url_alloc::path_of(name, Kind::File);
    reveal_strlit("/");
    assert(base =~= seq!['/'] + stem + extension);
    assert(db::url_taken(rows(conn), url_alloc::candidate(base, Kind::File, 1)));
    assert(db::url_taken(rows(conn), url_alloc::candidate(base, Kind::File, n)));
}

// ---------------------------------------------------------------------------
// The command line and the daemon
// ---------------------------------------------------------------------------

/// The daemon is asked to register the path, kind and name that were given, with the
/// lifetime that was given: so many seconds, never, or its own.
pub proof fn lemma_what_is_asked_of_the_daemon(
    abs: &str,
    kind: Kind,
    asked: Option<Ttl>,
    name: Option<String>,
    d: Duration,
    r: RegisterRequest,
)
    requires
        call_ensures(client::register_request, (abs, kind, asked, name), r),
        d.secs <= i64::MAX,
    ensures
        asked == Some(Ttl::Duration(d)) ==> (r.ttl matches TtlRequest::Seconds(n) && n == d.secs),
        asked == Some(Ttl::Never) ==> r.ttl is Never,
        asked is None ==> r.ttl is Default,
        r.path@ == abs@,
        kind == Kind::File ==> r.kind@ == "file"@,
        kind == Kind::Dir ==> r.kind@ == "dir"@,
        r.name == name,
{
}

/// A registration made at `now` with a lifetime of so many seconds on the command line
/// has the deadline so many seconds later.
pub proof fn lemma_lifetime_from_command_line_to_deadline(
    abs: &str,
    kind: Kind,
    d: Duration,
    name: Option<String>,
    req: RegisterRequest,
    default: Ttl,
    now: i64,
)
    requires
        call_ensures(client::register_request, (abs, kind, Some(Ttl::Duration(d)), name), req),
        d.secs <= i64::MAX,
        now + d.secs <= i64::MAX,
        i64::MIN <= now,
    ensures
        forall|c: &mut Connection, res: Result<RegisterResponse, ErrorBody>| #[trigger]
            call_ensures(control::register, (c, &default, &req, now), res) ==> (res matches Ok(resp)
                ==> (!resp.reused ==> {
                let row = rows(*final(c))[resp.registration.id];
                &&& row.expires_at matches Some(e) && e == now + d.secs
                &&& row.ttl_seconds matches Some(t) && t == d.secs
                &&& row.source_path == abs@
                &&& row.kind == kind
                &&& resp.registration.expires_in_secs matches Some(left) && left == d.secs
            })),
{
    db::lemma_kind_names_differ();
    assert forall|c: &mut Connection, res: Result<RegisterResponse, ErrorBody>| #[trigger]
        call_ensures(control::register, (c, &default, &req, now), res) && res is Ok
            && !res->Ok_0.reused implies {
        let resp = res->Ok_0;
        let row = rows(*final(c))[resp.registration.id];
        &&& row.expires_at matches Some(e) && e == now + d.secs
        &&& row.ttl_seconds matches Some(t) && t == d.secs
        &&& row.source_path == abs@
        &&& row.kind == kind
        &&& resp.registration.expires_in_secs matches Some(left) && left == d.secs
    } by {
        behaviour::lemma_new_registration(
            rows(*c),
            rows(*final(c)),
            req,
            default,
            now,
            res->Ok_0,
        );
    }
}

/// A URL `http://HOST/REST` leads `rm` to the URL path of a slash and exactly REST.
pub proof fn lemma_rm_of_a_url(
    target: &str,
    there: bool,
    host: Seq<char>,
    rest: Seq<char>,
    r: Result<RmTarget, String>,
)
    requires
        call_ensures(client::rm_target, (target, there), r),
        target@ == "http://"@ + host + seq!['/'] + rest,
        !host.contains('/'),
    ensures
        r matches Ok(RmTarget::Url(u)) && u@ == seq!['/'] + rest,
{
    reveal_strlit("http://");
    reveal_strlit("/");
    client::lemma_url_part(host, rest);
    let s = target@;
    assert(s[0] == 'h');
    assert(!text::is_digit(s[0]));
    assert(!text::all_digits(s));
    if has_prefix(s, "/"@) {
        assert(s.take(1)[0] == s[0]);
    }
    assert(s.take(7) =~= "http://"@);
}

/// The public URL that is printed of a URL path leads `rm` to that URL path.
pub proof fn lemma_rm_of_a_printed_url(
    host: &str,
    port: u16,
    url_path: &str,
    url: String,
    target: &str,
    there: bool,
    r: Result<RmTarget, String>,
)
    requires
        call_ensures(client::public_url, (host, port, url_path), url),
        call_ensures(client::rm_target, (target, there), r),
        target@ == url@,
        !host@.contains('/'),
        url_path@.len() > 0,
        url_path@[0] == '/',
    ensures
        url@ == "http://"@ + host@ + seq![':'] + digits(port as nat) + url_path@,
        r matches Ok(RmTarget::Url(u)) && u@ == url_path@,
{
    reveal_strlit(":");
    assert(":"@ =~= seq![':']);
    client::lemma_printed_url_is_removed(host@, port, url_path@, there, r);
}

/// A number leads `rm` to that id, a path to nothing to that URL path, and a path to
/// something, or other text, to that source.
pub proof fn lemma_other_targets_of_rm(
    target: &str,
    there: bool,
    id: i64,
    r: Result<RmTarget, String>,
)
    requires
        call_ensures(client::rm_target, (target, there), r),
        id >= 0,
    ensures
        target@ == digits(id as nat) ==> (r matches Ok(RmTarget::Id(n)) && n == id),
        target@.len() > 0 && target@[0] == '/' && !there ==> (r matches Ok(RmTarget::Url(u)) && u@
            == target@),
        target@.len() > 0 && target@[0] == '/' && there ==> (r matches Ok(RmTarget::Source(p)) && p@
            == target@),
        target@.len() > 0 && !text::is_digit(target@[0]) && target@[0] != '/' && target@[0] != 'h'
            ==> (r matches Ok(RmTarget::Source(p)) && p@ == target@),
{
    client::lemma_rm_targets(id, target@, there, r);
}

/// The requests to the daemon: what is asked, and of what.
pub proof fn lemma_requests_to_the_daemon(
    c: ControlClient,
    id: i64,
    path: &str,
    body: String,
    r: ControlRequest,
)
    ensures
        call_ensures(ControlClient::register, (&c, body), r) ==> r.method@ == "POST"@ && r.path@
            == "/register"@ && (r.body matches Some(b) && b@ == body@),
        call_ensures(ControlClient::list, (&c,), r) ==> r.method@ == "GET"@ && r.path@ == "/list"@
            && r.body is None,
        call_ensures(ControlClient::health, (&c,), r) ==> r.method@ == "GET"@ && r.path@
            == "/health"@ && r.body is None,
        id >= 0 && call_ensures(ControlClient::rm_by_id, (&c, id), r) ==> r.method@ == "DELETE"@
            && r.path@ == "/registrations/"@ + digits(id as nat) && r.body is None,
        call_ensures(ControlClient::rm_by_url, (&c, path), r) ==> r.method@ == "DELETE"@ && r.path@
            == "/by-url"@ && (r.body matches Some(b) && b@ == "{\"url_path\":"@ + json_string(path@)
            + "}"@),
        call_ensures(ControlClient::rm_by_source, (&c, path), r) ==> r.method@ == "DELETE"@
            && r.path@ == "/by-source"@ && (r.body matches Some(b) && b@ == "{\"source_path\":"@
            + json_string(path@) + "}"@),
{
    reveal_strlit("{\"");
    reveal_strlit("\":");
    reveal_strlit("url_path");
    reveal_strlit("source_path");
    reveal_strlit("{\"url_path\":");
    reveal_strlit("{\"source_path\":");
    assert("{\""@ + "url_path"@ + "\":"@ =~= "{\"url_path\":"@);
    assert("{\""@ + "source_path"@ + "\":"@ =~= "{\"source_path\":"@);
}

/// An answer with a good status brings its body, and any other the error in it, or its
/// status.
pub proof fn lemma_answers_of_the_daemon(status: u16, body: Vec<u8>, r: Result<Vec<u8>, String>)
    requires
        call_ensures(client::answer, (status, body), r),
    ensures
        200 <= status <= 299 && body@.len() > 0 ==> (r matches Ok(b) && b@ == body@),
        200 <= status <= 299 && body@.len() == 0 ==> (r matches Ok(b) && b@ == seq![
            110u8,
            117u8,
            108u8,
            108u8,
        ]),
        status < 200 || status > 299 ==> (r matches Err(m) && (client::json_text_at(
            body@,
            "/error"@,
        ) matches Some(e) ==> m@ == e) && (client::json_text_at(body@, "/error"@) is None ==> m@
            == "daemon returned HTTP "@ + client::status_line(status))),
{
}

/// The lines that the commands print name what was served and what was removed.
pub proof fn lemma_lines_of_commands(
    url: &str,
    id: i64,
    left: Option<i64>,
    reused: bool,
    removed: Option<String>,
    r: String,
)
    requires
        id >= 0,
    ensures
        call_ensures(client::serve_line, (url, id, left, reused), r) ==> has_prefix(
            r@,
            "Serving "@ + url@ + "  (id="@ + digits(id as nat),
        ) && (left is None && !reused ==> r@ == "Serving "@ + url@ + "  (id="@ + digits(id as nat)
            + ", expires in never"@ + ")"@) && (reused ==> text::has_suffix(r@, ")  (reused)"@)),
        call_ensures(client::removed_line, (removed,), r) ==> (removed matches Some(u) ==> r@
            == "Removed "@ + u@) && (removed is None ==> r@ == "Removed (unknown)"@),
{
    if call_ensures(client::serve_line, (url, id, left, reused), r) {
        client::lemma_expires_phrase(0);
        let lead = "Serving "@ + url@ + "  (id="@ + digits(id as nat);
        assert(r@.take(lead.len() as int) =~= lead);
        reveal_strlit("");
        assert(lead + ", expires in never"@ + ")"@ + ""@ =~= lead + ", expires in never"@ + ")"@);
        if reused {
            reveal_strlit(")");
            reveal_strlit("  (reused)");
            reveal_strlit(")  (reused)");
            assert(")"@ + "  (reused)"@ =~= ")  (reused)"@);
            let head = lead + client::expires_phrase(left);
            assert(r@ =~= head + ")  (reused)"@);
            assert(r@.skip(r@.len() - ")  (reused)"@.len()) =~= ")  (reused)"@);
        }
    }
    if call_ensures(client::removed_line, (removed,), r) {
        reveal_strlit("Removed ");
        reveal_strlit("(unknown)");
        reveal_strlit("Removed (unknown)");
        assert("Removed "@ + "(unknown)"@ =~= "Removed (unknown)"@);
    }
}

/// The table of registrations has one line for each, in their order, with its id, its
/// public URL and its source.
pub proof fn lemma_table_of_registrations(
    found: Vec<RegistrationView>,
    host: &str,
    port: u16,
    i: int,
    r: Vec<String>,
)
    requires
        call_ensures(client::ls_lines, (&found, host, port), r),
    ensures
        found@.len() == 0 ==> r@.len() == 1 && r@[0]@ == "(no registrations)"@,
        found@.len() > 0 ==> r@.len() == found@.len() + 1,
        0 <= i < found@.len() && found@[i].id >= 0 ==> {
            let v = found@[i];
            &&& has_prefix(r@[i + 1]@, digits(v.id as nat))
            &&& !v.missing ==> text::has_suffix(r@[i + 1]@, v.source_path@)
            &&& v.missing ==> text::has_suffix(r@[i + 1]@, v.source_path@ + "  [MISSING]"@)
            &&& digits(v.id as nat).len() <= 5 ==> {
                let url = "http://"@ + host@ + ":"@ + digits(port as nat) + v.url_path@;
                r@[i + 1]@.subrange(7, 7 + url.len() as int) == url
            }
        },
{
    client::lemma_lines_of_table(found@, host@, port, i);
    let lines = client::table_lines(found@, host@, port);
    assert(views(r@) == lines);
    assert(views(r@).len() == r@.len());
    if found@.len() == 0 {
        assert(views(r@)[0] == r@[0]@);
    }
    if 0 <= i < found@.len() {
        assert(views(r@)[i + 1] == r@[i + 1]@);
        client::lemma_line_of_registration(found@[i], host@, port);
    }
}

// ---------------------------------------------------------------------------
// The registry
// ---------------------------------------------------------------------------

/// The row has no deadline, or one that has not passed.
pub open spec fn lasts(row: Row, now: i64) -> bool {
    row.expires_at matches Some(e) ==> now <= e
}

/// A lookup for a request finds a live file with exactly the path, else a live folder
/// whose URL path begins it, the longest, with what follows it.
pub proof fn lemma_lookup_for_a_request(
    conn: Connection,
    path: &str,
    now: i64,
    res: Result<Option<ServeMatch>, DbError>,
    id: i64,
)
    requires
        call_ensures(db::find_for_request_at, (&conn, path, now), res),
    ensures
        ({
            let m = rows(conn);
            match res {
                Err(e) => read_fails(conn, e),
                Ok(None) => m.dom().contains(id) && lasts(m[id], now) ==> !(m[id].kind == Kind::File
                    && m[id].url_path == path@) && !(m[id].kind == Kind::Dir && has_prefix(
                    path@,
                    m[id].url_path,
                )),
                Ok(Some(x)) => {
                    let row = m[x.registration.id];
                    &&& m.dom().contains(x.registration.id)
                    &&& x.registration.row() == row
                    &&& lasts(row, now)
                    &&& match x.suffix {
                        None => row.kind == Kind::File && row.url_path == path@,
                        Some(s) => row.kind == Kind::Dir && path@ == row.url_path + s@ && (
                        m.dom().contains(id) && lasts(m[id], now) ==> !(m[id].kind == Kind::File
                            && m[id].url_path == path@) && (m[id].kind == Kind::Dir && has_prefix(
                            path@,
                            m[id].url_path,
                        ) ==> m[id].url_path.len() <= row.url_path.len())),
                    }
                },
            }
        }),
{
    let m = rows(conn);
    if res is Ok {
        behaviour::lemma_what_answers(m, path@, now, res->Ok_0);
        if m.dom().contains(id) && lasts(m[id], now) {
            assert(db::file_at(m, path@, now, id) <==> m[id].kind == Kind::File && m[id].url_path
                == path@);
            assert(db::mount_of(m, path@, now, id) <==> m[id].kind == Kind::Dir && has_prefix(
                path@,
                m[id].url_path,
            ));
        }
    }
}

/// A lookup for a source finds the live row with that source, the one with the least
/// id, or none where there is none.
pub proof fn lemma_lookup_for_a_source(
    conn: Connection,
    source: &str,
    now: i64,
    res: Result<Option<Registration>, DbError>,
    id: i64,
)
    requires
        call_ensures(db::find_by_source_at, (&conn, source, now), res),
    ensures
        ({
            let m = rows(conn);
            match res {
                Err(e) => read_fails(conn, e),
                Ok(found) => {
                    &&& m.dom().contains(id) && m[id].source_path == source@ && lasts(m[id], now)
                        ==> (found matches Some(x) && x.id <= id)
                    &&& found matches Some(x) ==> m.dom().contains(x.id) && x.row() == m[x.id]
                        && m[x.id].source_path == source@ && lasts(m[x.id], now)
                },
            }
        }),
{
    if res is Ok {
        behaviour::lemma_what_a_source_is_registered_as(rows(conn), source@, now, res->Ok_0);
    }
}

/// A lookup by id or URL path finds the row, expired or not, or none where there is
/// none.
pub proof fn lemma_lookup_of_a_row(
    conn: Connection,
    id: i64,
    url: &str,
    res: Result<Option<Registration>, DbError>,
    k: i64,
)
    ensures
        call_ensures(db::find_by_id, (&conn, id), res) ==> match res {
            Err(e) => read_fails(conn, e),
            Ok(None) => !rows(conn).dom().contains(id),
            Ok(Some(x)) => rows(conn).dom().contains(id) && x.id == id && x.row() == rows(conn)[id],
        },
        call_ensures(db::find_by_url, (&conn, url), res) ==> match res {
            Err(e) => read_fails(conn, e),
            Ok(None) => rows(conn).dom().contains(k) ==> rows(conn)[k].url_path != url@,
            Ok(Some(x)) => rows(conn).dom().contains(x.id) && x.row() == rows(conn)[x.id]
                && x.url_path@ == url@,
        },
{
    if rows(conn).dom().contains(k) && rows(conn)[k].url_path == url@ {
        assert(db::has_url(rows(conn), url@, k));
        assert(db::url_taken(rows(conn), url@));
    }
}

/// The list holds the live registrations, each once, the newest first, and the count
/// says how many there are.
pub proof fn lemma_list_of_registrations(
    conn: Connection,
    now: i64,
    res: Result<Vec<Registration>, DbError>,
    counted: Result<i64, DbError>,
    id: i64,
)
    requires
        call_ensures(db::list_at, (&conn, now), res),
        call_ensures(db::count_at, (&conn, now), counted),
    ensures
        ({
            let m = rows(conn);
            match res {
                Err(e) => read_fails(conn, e),
                Ok(v) => {
                    &&& m.dom().contains(id) && lasts(m[id], now) ==> exists|i: int|
                        0 <= i < v@.len() && (#[trigger] v@[i]).id == id
                    &&& forall|i: int|
                        0 <= i < v@.len() ==> m.dom().contains((#[trigger] v@[i]).id) && v@[i].row()
                            == m[v@[i].id] && lasts(m[v@[i].id], now)
                    &&& forall|i: int, j: int|
                        0 <= i < j < v@.len() ==> (#[trigger] v@[i]).created_at >= (
                        #[trigger] v@[j]).created_at && v@[i].id != v@[j].id
                },
            }
        }),
        counted matches Err(e) ==> read_fails(conn, e),
        counted matches Ok(n) ==> {
            let live = rows(conn).dom().filter(|k: i64| lasts(rows(conn)[k], now));
            live.len() <= i64::MAX ==> n == live.len()
        },
{
    let m = rows(conn);
    if res is Ok {
        let v = res->Ok_0@;
        behaviour::lemma_what_is_listed(m, now, v);
        assert forall|i: int, j: int| 0 <= i < j < v.len() implies (#[trigger] v[i]).created_at >= (
        #[trigger] v[j]).created_at && v[i].id != v[j].id by {
            if v[i].id == v[j].id {
                assert(v[i].row() == v[j].row());
            }
        }
    }
    if counted is Ok {
        let live = m.dom().filter(|k: i64| lasts(m[k], now));
        assert(live =~= db::live_ids(m, now));
    }
}

/// A new registration is added under a new id with what it was given, where its URL
/// path is free; where it is taken nothing is added.
pub proof fn lemma_insertion(r: NewRegistration, k: i64)
    ensures
        forall|c: &mut Connection, res: Result<Registration, DbError>| #[trigger]
            call_ensures(db::insert, (c, &r), res) ==> {
                let m = rows(*c);
                let n = rows(*final(c));
                match res {
                    Ok(x) => {
                        &&& !m.dom().contains(x.id)
                        &&& n.dom() == m.dom().insert(x.id)
                        &&& n[x.id].url_path == r.url_path@
                        &&& n[x.id].source_path == r.source_path@
                        &&& n[x.id].kind == r.kind
                        &&& n[x.id].created_at == r.created_at
                        &&& n[x.id].expires_at == r.expires_at
                        &&& n[x.id].ttl_seconds == r.ttl_seconds
                        &&& n[x.id].last_hit_at is None
                        &&& n[x.id].missing_since is None
                        &&& x.row() == n[x.id]
                        &&& m.dom().contains(k) ==> n[k] == m[k] && m[k].url_path != r.url_path@
                    },
                    Err(DbError::Constraint(_)) => n == m && exists|j: i64| #[trigger]
                        m.dom().contains(j) && m[j].url_path == r.url_path@,
                    Err(e) => db::write_fails(*c, e) || read_fails(*final(c), e),
                }
            },
{
    assert forall|c: &mut Connection, res: Result<Registration, DbError>| #[trigger]
        call_ensures(db::insert, (c, &r), res) && res is Ok implies rows(*final(c)).dom() == rows(
        *c,
    ).dom().insert(res->Ok_0.id) by {
        assert(rows(*final(c)).dom() =~= rows(*c).dom().insert(res->Ok_0.id));
    }
}

/// A hit gives a live registration its lifetime again and changes nothing else; it
/// leaves alone one that has expired, has no lifetime or is not there.
pub proof fn lemma_hit_on_a_row(id: i64, now: i64, k: i64)
    ensures
        forall|c: &mut Connection, res: Result<(), DbError>| #[trigger]
            call_ensures(db::flush_one, (c, id, now), res) ==> {
                let m = rows(*c);
                let n = rows(*final(c));
                match res {
                    Ok(_) => {
                        &&& n.dom() == m.dom()
                        &&& k != id ==> n[k] == m[k]
                        &&& m.dom().contains(id) && m[id].expires_at is Some && lasts(m[id], now)
                            && m[id].ttl_seconds is Some ==> {
                            &&& n[id].expires_at matches Some(e) && e == now + m[id].ttl_seconds->0
                            &&& n[id].last_hit_at == Some(now)
                            &&& n[id].url_path == m[id].url_path
                            &&& n[id].source_path == m[id].source_path
                            &&& n[id].ttl_seconds == m[id].ttl_seconds
                            &&& n[id].missing_since == m[id].missing_since
                        }
                        &&& m.dom().contains(id) && !(m[id].expires_at is Some && lasts(m[id], now)
                            && m[id].ttl_seconds is Some) ==> n[id] == m[id]
                    },
                    Err(DbError::DeadlineOverflow) => m.dom().contains(id) && m[id].ttl_seconds
                        is Some && now + m[id].ttl_seconds->0 > i64::MAX && *final(c) == *c || (
                    m.dom().contains(id) && m[id].ttl_seconds is Some && now + m[id].ttl_seconds->0
                        < i64::MIN && *final(c) == *c),
                    Err(e) => sqlite_fails(*c, e),
                }
            },
{
    assert forall|c: &mut Connection, res: Result<(), DbError>| #[trigger]
        call_ensures(db::flush_one, (c, id, now), res) && res is Ok implies rows(*final(c)).dom()
        == rows(*c).dom() by {
        db::lemma_one_row_is_updated(rows(*c), id, |r: Row| db::touched(r, now), k);
    }
}

/// A note that a source is missing is made once, and is taken back when it is there.
pub proof fn lemma_notes_of_missing_sources(id: i64, now: i64, k: i64)
    ensures
        forall|c: &mut Connection, res: Result<(), DbError>| #[trigger]
            call_ensures(db::mark_missing, (c, id, now), res) ==> {
                let m = rows(*c);
                let n = rows(*final(c));
                match res {
                    Ok(_) => n.dom() == m.dom() && (k != id ==> n[k] == m[k]) && (m.dom().contains(
                        id,
                    ) ==> n[id].missing_since == match m[id].missing_since {
                        None => Some(now),
                        Some(t) => Some(t),
                    } && n[id].url_path == m[id].url_path && n[id].expires_at == m[id].expires_at),
                    Err(e) => sqlite_fails(*c, e),
                }
            },
        forall|c: &mut Connection, res: Result<(), DbError>| #[trigger]
            call_ensures(db::clear_missing, (c, id), res) ==> {
                let m = rows(*c);
                let n = rows(*final(c));
                match res {
                    Ok(_) => n.dom() == m.dom() && (k != id ==> n[k] == m[k]) && (m.dom().contains(
                        id,
                    ) ==> n[id].missing_since is None && n[id].url_path == m[id].url_path
                        && n[id].expires_at == m[id].expires_at),
                    Err(e) => db::write_fails(*c, e),
                }
            },
{
    assert forall|c: &mut Connection, res: Result<(), DbError>| #[trigger]
        call_ensures(db::mark_missing, (c, id, now), res) && res is Ok implies rows(
        *final(c),
    ).dom() == rows(*c).dom() by {
        db::lemma_one_row_is_updated(rows(*c), id, |r: Row| db::missed(r, now), k);
    }
    assert forall|c: &mut Connection, res: Result<(), DbError>| #[trigger]
        call_ensures(db::clear_missing, (c, id), res) && res is Ok implies rows(*final(c)).dom()
        == rows(*c).dom() by {
        db::lemma_one_row_is_updated(
            rows(*c),
            id,
            |r: Row| (Row { missing_since: None, ..r }),
            k,
        );
    }
}

/// A sweep removes exactly the registrations whose deadline has passed, and a deletion
/// exactly the one of the id.
pub proof fn lemma_rows_that_go(id: i64, now: i64, k: i64)
    ensures
        forall|c: &mut Connection, res: Result<u64, DbError>| #[trigger]
            call_ensures(db::reap_expired_at, (c, now), res) ==> match res {
                Ok(_) => {
                    &&& rows(*final(c)).dom().contains(k) <==> rows(*c).dom().contains(k) && lasts(
                        rows(*c)[k],
                        now,
                    )
                    &&& rows(*final(c)).dom().contains(k) ==> rows(*final(c))[k] == rows(*c)[k]
                },
                Err(e) => db::write_fails(*c, e),
            },
        forall|c: &mut Connection, res: Result<bool, DbError>| #[trigger]
            call_ensures(db::delete, (c, id), res) ==> match res {
                Ok(b) => {
                    &&& b <==> rows(*c).dom().contains(id)
                    &&& rows(*final(c)).dom().contains(k) <==> rows(*c).dom().contains(k) && k != id
                    &&& rows(*final(c)).dom().contains(k) ==> rows(*final(c))[k] == rows(*c)[k]
                },
                Err(e) => db::write_fails(*c, e),
            },
{
}

/// At the start the registrations go whose deadline has passed or whose source is known
/// to be gone, and no other.
pub proof fn lemma_rows_that_go_at_the_start(sources: Vec<(i64, SourceState)>, now: i64, k: i64)
    ensures
        forall|c: &mut Connection, res: Result<PruneStats, DbError>| #[trigger]
            call_ensures(db::prune_on_load_at, (c, now, &sources), res) ==> match res {
                Ok(_) => {
                    &&& rows(*final(c)).dom().contains(k) <==> rows(*c).dom().contains(k) && lasts(
                        rows(*c)[k],
                        now,
                    ) && !sources@.contains((k, SourceState::NotFound))
                    &&& rows(*final(c)).dom().contains(k) ==> rows(*final(c))[k] == rows(*c)[k]
                },
                Err(e) => db::fails_on_the_way(e),
            },
{
}

/// A database of the current version is not changed by bringing it up to date, and an
/// empty one gets an empty table.
pub proof fn lemma_bringing_up_to_date()
    ensures
        forall|c: &mut Connection, res: Result<(), DbError>| #[trigger]
            call_ensures(db::migrate, (c,), res) ==> {
                &&& db::user_version(*c) >= 1 ==> *final(c) == *c
                &&& db::user_version(*c) == 0 && res is Ok ==> rows(*final(c)).dom() == Set::<
                    i64,
                >::empty() && db::user_version(*final(c)) == 1
                &&& db::user_version(*c) >= 0 ==> (res matches Err(e) ==> db::fails_on_the_way(e))
                &&& db::user_version(*c) < 0 ==> res is Err
            },
{
    assert(db::no_rows().dom() =~= Set::<i64>::empty());
}

// ---------------------------------------------------------------------------
// The control plane
// ---------------------------------------------------------------------------

/// A lifetime is what was asked for, else the daemon's own, and the deadline lies that
/// far ahead.
pub proof fn lemma_lifetime_and_deadline(
    req: TtlRequest,
    now: i64,
    default: Ttl,
    d: Duration,
    r: (Option<i64>, Option<i64>),
)
    requires
        call_ensures(control::resolve_ttl, (&req, now, &default), r),
        d.secs <= i64::MAX,
    ensures
        req matches TtlRequest::Seconds(n) ==> r.1 == Some(n) && (i64::MIN <= now + n <= i64::MAX
            ==> (r.0 matches Some(e) && e == now + n)),
        req is Never ==> r.0 is None && r.1 is None,
        req is Default && default is Never ==> r.0 is None && r.1 is None,
        req is Default && default == Ttl::Duration(d) ==> (r.1 matches Some(n) && n == d.secs) && (
        now + d.secs <= i64::MAX ==> (r.0 matches Some(e) && e == now + d.secs)),
{
}

/// What is reported of a registration is what it holds.
pub proof fn lemma_report_of_a_registration(r: Registration, now: i64, v: RegistrationView)
    requires
        call_ensures(RegistrationView::from, (r, now), v),
    ensures
        v.id == r.id,
        v.url_path@ == r.url_path@,
        v.source_path@ == r.source_path@,
        v.kind@ == match r.kind {
            Kind::File => "file"@,
            Kind::Dir => "dir"@,
        },
        v.created_at == r.created_at,
        v.expires_at == r.expires_at,
        v.ttl_seconds == r.ttl_seconds,
        v.last_hit_at == r.last_hit_at,
        v.missing_since == r.missing_since,
        v.missing <==> r.missing_since is Some,
        r.expires_at is None ==> v.expires_in_secs is None,
        r.expires_at matches Some(e) ==> (i64::MIN <= e - now <= i64::MAX ==> (
        v.expires_in_secs matches Some(left) && left == e - now)),
{
}

/// A granted request leaves the source with a live registration: the one it had, else a
/// new one with what was asked for. No other row changes. A request is refused where its
/// path is not absolute or its kind is none.
pub proof fn lemma_registering(default: Ttl, req: RegisterRequest, now: i64, k: i64)
    ensures
        forall|c: &mut Connection, res: Result<RegisterResponse, ErrorBody>| #[trigger]
            call_ensures(control::register, (c, &default, &req, now), res) ==> {
                let m = rows(*c);
                let n = rows(*final(c));
                match res {
                    Ok(resp) => {
                        let id = resp.registration.id;
                        &&& req.path@.len() > 0 && req.path@[0] == '/'
                        &&& req.kind@ == "file"@ || req.kind@ == "dir"@
                        &&& n.dom().contains(id)
                        &&& n[id].source_path == req.path@
                        &&& resp.registration.url_path@ == n[id].url_path
                        &&& resp.registration.source_path@ == req.path@
                        &&& k != id ==> (n.dom().contains(k) <==> m.dom().contains(k))
                        &&& k != id && m.dom().contains(k) ==> n[k] == m[k]
                        &&& resp.reused ==> m.dom().contains(id) && lasts(m[id], now)
                            && m[id].source_path == req.path@ && n[id].url_path == m[id].url_path
                        &&& !resp.reused ==> !m.dom().contains(id) && (m.dom().contains(k) && lasts(
                            m[k],
                            now,
                        ) ==> m[k].source_path != req.path@)
                        &&& !resp.reused ==> (req.ttl matches TtlRequest::Seconds(s)
                            ==> n[id].ttl_seconds == Some(s) && (i64::MIN <= now + s <= i64::MAX
                            ==> (n[id].expires_at matches Some(e) && e == now + s)))
                        &&& !resp.reused && req.ttl is Never ==> n[id].expires_at is None
                    },
                    Err(e) => {
                        &&& !(req.path@.len() > 0 && req.path@[0] == '/') ==> e.status == 400
                            && e.code@ == "non_absolute_path"@ && *final(c) == *c
                        &&& req.path@.len() > 0 && req.path@[0] == '/' && req.kind@ != "file"@
                            && req.kind@ != "dir"@ ==> e.status == 400 && e.code@ == "bad_kind"@
                            && *final(c) == *c
                        &&& req.path@.len() > 0 && req.path@[0] == '/' && (req.kind@ == "file"@
                            || req.kind@ == "dir"@) ==> (e.status == 400 && e.code@ == "alloc"@
                            && *final(c) == *c) || (e.status == 500 && (e.code@ == "touch"@
                            || e.code@ == "insert"@))
                    },
                }
            },
{
    db::lemma_kind_names_differ();
    assert forall|c: &mut Connection, res: Result<RegisterResponse, ErrorBody>| #[trigger]
        call_ensures(control::register, (c, &default, &req, now), res) && res is Ok implies {
        let m = rows(*c);
        let n = rows(*final(c));
        let resp = res->Ok_0;
        let id = resp.registration.id;
        &&& n.dom().contains(id)
        &&& n[id].source_path == req.path@
        &&& resp.registration.url_path@ == n[id].url_path
        &&& resp.registration.source_path@ == req.path@
        &&& k != id ==> (n.dom().contains(k) <==> m.dom().contains(k))
        &&& k != id && m.dom().contains(k) ==> n[k] == m[k]
        &&& resp.reused ==> m.dom().contains(id) && lasts(m[id], now) && m[id].source_path
            == req.path@ && n[id].url_path == m[id].url_path
        &&& !resp.reused ==> !m.dom().contains(id) && (m.dom().contains(k) && lasts(m[k], now)
            ==> m[k].source_path != req.path@)
        &&& !resp.reused ==> (req.ttl matches TtlRequest::Seconds(s) ==> n[id].ttl_seconds == Some(s)
            && (i64::MIN <= now + s <= i64::MAX ==> (n[id].expires_at matches Some(e) && e == now
            + s)))
        &&& !resp.reused && req.ttl is Never ==> n[id].expires_at is None
    } by {
        let m = rows(*c);
        let n = rows(*final(c));
        let resp = res->Ok_0;
        if resp.reused {
            behaviour::lemma_kept_registration(m, n, req, default, now, resp);
        } else {
            behaviour::lemma_new_registration(m, n, req, default, now, resp);
            behaviour::lemma_registered_once(m, n, req, default, now, resp);
        }
    }
}

/// A new source without a chosen name is registered at a slash and its own name, and a
/// slash behind it for a folder, where that path is free.
pub proof fn lemma_registering_at_the_plain_path(
    default: Ttl,
    req: RegisterRequest,
    now: i64,
    dir: Seq<char>,
    name: Seq<char>,
)
    requires
        req.name is None,
        req.path@ == dir + seq!['/'] + name,
        name.len() > 0,
        !name.contains('/'),
        name != "."@,
        name != ".."@,
        name != "_servant"@,
    ensures
        forall|c: &mut Connection, res: Result<RegisterResponse, ErrorBody>| #[trigger]
            call_ensures(control::register, (c, &default, &req, now), res) ==> (res matches Ok(resp)
                ==> !resp.reused ==> {
                &&& req.kind@ == "file"@ && !db::url_taken(rows(*c), seq!['/'] + name)
                    ==> resp.registration.url_path@ == seq!['/'] + name
                &&& req.kind@ == "dir"@ && !db::url_taken(rows(*c), seq!['/'] + name + seq!['/'])
                    ==> resp.registration.url_path@ == seq!['/'] + name + seq!['/']
            }),
{
    db::lemma_kind_names_differ();
    assert forall|c: &mut Connection, res: Result<RegisterResponse, ErrorBody>| #[trigger]
        call_ensures(control::register, (c, &default, &req, now), res) && res is Ok
            && !res->Ok_0.reused implies {
        let url = res->Ok_0.registration.url_path@;
        &&& req.kind@ == "file"@ && !db::url_taken(rows(*c), seq!['/'] + name) ==> url == seq!['/']
            + name
        &&& req.kind@ == "dir"@ && !db::url_taken(rows(*c), seq!['/'] + name + seq!['/']) ==> url
            == seq!['/'] + name + seq!['/']
    } by {
        let m = rows(*c);
        let n = rows(*final(c));
        let resp = res->Ok_0;
        if (req.kind@ == "file"@ && !db::url_taken(m, seq!['/'] + name)) || (req.kind@ == "dir"@
            && !db::url_taken(m, seq!['/'] + name + seq!['/'])) {
            behaviour::lemma_registered_at_plain_path(m, n, req, default, now, resp, dir, name);
        }
    }
}

/// Removing by id, source or URL path takes away exactly the registration that has it
/// and reports it; where there is none nothing changes.
pub proof fn lemma_removing(id: i64, source: &str, url: &str, now: i64, k: i64)
    ensures
        forall|c: &mut Connection, res: Result<RegistrationView, ErrorBody>| #[trigger]
            call_ensures(control::rm_by_id, (c, id, now), res) ==> match res {
                Ok(v) => v.id == id && rows(*c).dom().contains(id) && v.url_path@ == rows(
                    *c,
                )[id].url_path && (rows(*final(c)).dom().contains(k) <==> rows(*c).dom().contains(k)
                    && k != id),
                Err(e) => if rows(*c).dom().contains(id) {
                    e.status == 500 && exists|f: DbError| #[trigger]
                        sqlite_fails(*c, f) && e.error@ == f.message_view()
                } else {
                    *final(c) == *c && (e.status == 404 || e.status == 500)
                },
            },
        forall|c: &mut Connection, res: Result<Removal, ErrorBody>| #[trigger]
            call_ensures(control::rm_by_source, (c, source, now), res) ==> match res {
                Ok(x) => rows(*c).dom().contains(x.removed.id) && rows(*c)[x.removed.id].source_path
                    == source@ && lasts(rows(*c)[x.removed.id], now) && (x.outcome is Ok ==> (rows(
                    *final(c),
                ).dom().contains(k) <==> rows(*c).dom().contains(k) && k != x.removed.id)) && (
                x.outcome matches Err(e) ==> db::write_fails(*c, e)),
                Err(e) => *final(c) == *c && (e.status == 500 || (e.status == 404 && (rows(
                    *c,
                ).dom().contains(k) && lasts(rows(*c)[k], now) ==> rows(*c)[k].source_path
                    != source@))),
            },
        forall|c: &mut Connection, res: Result<Removal, ErrorBody>| #[trigger]
            call_ensures(control::rm_by_url, (c, url, now), res) ==> match res {
                Ok(x) => rows(*c).dom().contains(x.removed.id) && rows(*c)[x.removed.id].url_path
                    == url@ && (x.outcome is Ok ==> (rows(*final(c)).dom().contains(k) <==> rows(
                    *c,
                ).dom().contains(k) && k != x.removed.id)) && (x.outcome matches Err(e)
                    ==> db::write_fails(*c, e)),
                Err(e) => *final(c) == *c && (e.status == 500 || (e.status == 404 && (rows(
                    *c,
                ).dom().contains(k) ==> rows(*c)[k].url_path != url@))),
            },
{
    assert forall|c: &mut Connection, res: Result<Removal, ErrorBody>| #[trigger]
        call_ensures(control::rm_by_source, (c, source, now), res) && res is Err
            && res->Err_0.status == 404 && rows(*c).dom().contains(k) && lasts(
            rows(*c)[k],
            now,
        ) implies rows(*c)[k].source_path != source@ by {
        behaviour::lemma_what_a_source_is_registered_as(rows(*c), source@, now, None);
    }
}

/// The daemon's health says how many registrations are live.
pub proof fn lemma_health(
    conn: Connection,
    now: i64,
    version: &str,
    uptime_secs: u64,
    port: u16,
    bind: &str,
    r: HealthResponse,
)
    requires
        call_ensures(control::health, (&conn, now, version, uptime_secs, port, bind), r),
    ensures
        r.status@ == "ok"@,
        r.version@ == version@,
        r.uptime_secs == uptime_secs,
        r.port == port,
        r.bind@ == bind@,
        ({
            let live = rows(conn).dom().filter(|k: i64| lasts(rows(conn)[k], now));
            ||| live.len() <= i64::MAX ==> r.registrations == live.len()
            ||| r.registrations == 0 && db::unreadable(conn)
        }),
{
    let live = rows(conn).dom().filter(|k: i64| lasts(rows(conn)[k], now));
    assert(live =~= db::live_ids(rows(conn), now));
}

/// The answers of the control plane follow from what the registry said: what was found,
/// a status of 404 where there is nothing, and one of 500 with what SQLite said.
pub proof fn lemma_answers_of_the_control_plane(
    x: Registration,
    old: Registration,
    d: DbError,
    now: i64,
    missing: &str,
    found: Result<Registration, ErrorBody>,
    inserted: Result<RegisterResponse, ErrorBody>,
    removed: Result<RegistrationView, ErrorBody>,
    after: Registration,
)
    ensures
        call_ensures(control::found_or_missing, (Ok(Some(x)), missing), found) ==> (
        found matches Ok(y) && y == x),
        call_ensures(control::found_or_missing, (Ok(None), missing), found) ==> (
        found matches Err(e) && e.status == 404 && e.code@ == "not_found"@ && e.error@ == missing@),
        call_ensures(control::found_or_missing, (Err(d), missing), found) ==> (found matches Err(e)
            && e.status == 500 && e.code@ == "lookup"@ && e.error@ == d.message_view()),
        call_ensures(control::insert_response, (Ok(x), now), inserted) ==> (inserted matches Ok(r)
            && !r.reused && r.registration.id == x.id && r.registration.url_path@ == x.url_path@
            && r.registration.source_path@ == x.source_path@),
        call_ensures(control::insert_response, (Err(d), now), inserted) ==> (inserted matches Err(e)
            && e.status == 500 && e.code@ == "insert"@ && e.error@ == d.message_view()),
        call_ensures(control::removal_response, (Ok(true), x, now), removed) ==> (
        removed matches Ok(v) && v.id == x.id && v.url_path@ == x.url_path@),
        call_ensures(control::removal_response, (Err(d), x, now), removed) ==> (removed matches Err(
            e,
        ) && e.status == 500 && e.code@ == "delete"@ && e.error@ == d.message_view()),
        call_ensures(control::refreshed, (Ok(Some(x)), old), after) ==> after == x,
        call_ensures(control::refreshed, (Ok(None), old), after) ==> after == old,
        call_ensures(control::refreshed, (Err(d), old), after) ==> after == old,
{
}

/// The control plane lists the live registrations, the newest first, each with its URL
/// path and source, unless SQLite failed.
pub proof fn lemma_listing_registrations(
    conn: Connection,
    now: i64,
    res: Result<Vec<RegistrationView>, ErrorBody>,
    id: i64,
)
    requires
        call_ensures(control::list, (&conn, now), res),
    ensures
        ({
            let m = rows(conn);
            match res {
                Ok(views) => {
                    &&& m.dom().contains(id) && lasts(m[id], now) ==> exists|i: int|
                        0 <= i < views@.len() && (#[trigger] views@[i]).id == id
                    &&& forall|i: int|
                        0 <= i < views@.len() ==> m.dom().contains((#[trigger] views@[i]).id)
                            && views@[i].url_path@ == m[views@[i].id].url_path
                            && views@[i].source_path@ == m[views@[i].id].source_path && lasts(
                            m[views@[i].id],
                            now,
                        )
                    &&& forall|i: int, j: int|
                        0 <= i < j < views@.len() ==> (#[trigger] views@[i]).created_at >= (
                        #[trigger] views@[j]).created_at && views@[i].id != views@[j].id
                },
                Err(e) => e.status == 500 && e.code@ == "list"@ && exists|f: DbError| #[trigger]
                    sqlite_fails(conn, f) && e.error@ == f.message_view(),
            }
        }),
{
    if res is Ok {
        let found = choose|v: Seq<Registration>| #[trigger]
            db::is_listing(rows(conn), now, v) && control::reports(res->Ok_0@, v, now);
        behaviour::lemma_what_list_reports(rows(conn), now, found, res->Ok_0@);
        let views = res->Ok_0@;
        assert forall|i: int| 0 <= i < views.len() implies lasts(
            rows(conn)[(#[trigger] views[i]).id],
            now,
        ) by {}
    }
}

/// The messages of the client say what failed.
pub proof fn lemma_messages_of_the_client(
    socket: &str,
    message: String,
    why: String,
    status: &str,
    error: Option<String>,
    f: Failure,
    r: String,
)
    ensures
        call_ensures(client::connect_failure, (ConnectError::Other, socket, message), f) ==> (
        f matches Failure::Other(m) && m@ == message@),
        call_ensures(client::connect_failure, (ConnectError::Refused, socket, message), f) ==> (
        f matches Failure::Client(ClientError::Unreachable(w)) && has_prefix(
            w@,
            "no socket at "@ + socket@,
        )),
        call_ensures(client::connect_failure, (ConnectError::NotFound, socket, message), f) ==> (
        f matches Failure::Client(ClientError::Unreachable(w)) && has_prefix(
            w@,
            "no socket at "@ + socket@,
        )),
        call_ensures(ClientError::message, (&ClientError::Unreachable(why),), r) ==> r@
            == "daemon not running ("@ + why@ + ")"@,
        call_ensures(client::refusal, (error, status), r) ==> (error matches Some(e) ==> r@ == e@)
            && (error is None ==> r@ == "daemon returned HTTP "@ + status@),
{
    client::lemma_no_socket_names_it(socket@);
}

/// The line on the daemon's health names its state, version, address, registrations and
/// age.
pub proof fn lemma_line_on_health(h: HealthResponse, r: String)
    requires
        call_ensures(client::status_report, (&h,), r),
    ensures
        has_prefix(r@, "daemon: "@ + h.status@ + " (v"@ + h.version@ + ") bind="@ + h.bind@ + ":"@
            + digits(h.port as nat)),
        h.registrations >= 0 ==> text::has_suffix(
            r@,
            " registrations="@ + digits(h.registrations as nat) + " uptime="@ + digits(
                h.uptime_secs as nat,
            ) + "s"@,
        ),
{
    let lead = "daemon: "@ + h.status@ + " (v"@ + h.version@ + ") bind="@ + h.bind@ + ":"@ + digits(
        h.port as nat,
    );
    assert(r@.take(lead.len() as int) =~= lead);
    if h.registrations >= 0 {
        let end = " registrations="@ + digits(h.registrations as nat) + " uptime="@ + digits(
            h.uptime_secs as nat,
        ) + "s"@;
        assert(r@ =~= lead + end);
        assert(r@.skip(r@.len() - end.len()) =~= end);
    }
}

} // verus!
