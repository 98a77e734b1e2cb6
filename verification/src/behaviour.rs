//! What the operations are for, said of their inputs and results in plain terms: who
//! answers a request and with what, what registering makes, and what is printed.

use vstd::prelude::*;

use crate::config;
use crate::control::{
    deadline, deletes, registered, reports, resolved_seconds, wrapped, RegisterRequest,
    RegisterResponse, RegistrationView, TtlRequest,
};
use crate::db;
use crate::db::{
    answers_request, answers_source, file_at, is_listing, live, mount_of, opt_view, serves_source,
    url_taken, Kind, Registration, Row, ServeMatch,
};
use crate::guards;
use crate::guards::{components, harmless, Canonical};
use crate::paths::{absolute, join_view};
use crate::serve;
use crate::serve::{
    default_headers, missing_headers, serve_step, settled_rows, Progress, ServeStep, Stat,
};
use crate::text;
use crate::text::{has_prefix, has_suffix, views};
use crate::ttl::{Duration, Ttl};
use crate::url_alloc;

verus! {

// ---------------------------------------------------------------------------
// Who answers a request
// ---------------------------------------------------------------------------

/// A row is live at `now` where it has no deadline or one that has not passed.
pub proof fn lemma_live(r: Row, now: i64)
    ensures
        r.expires_at is None ==> live(r, now),
        r.expires_at matches Some(e) ==> (live(r, now) <==> now <= e),
{
}

/// A live file is the answer to a request for exactly its URL path.
pub proof fn lemma_file_answers_its_path(
    m: Map<i64, Row>,
    path: Seq<char>,
    now: i64,
    r: Option<ServeMatch>,
    id: i64,
)
    requires
        answers_request(m, path, now, r),
        m.dom().contains(id),
        m[id].kind == Kind::File,
        m[id].url_path == path,
        m[id].expires_at matches Some(e) ==> now <= e,
    ensures
        r matches Some(x) && x.suffix is None && x.registration.kind == Kind::File
            && x.registration.url_path@ == path,
{
    assert(file_at(m, path, now, id));
}

/// A live folder whose URL path begins the requested one answers, unless a live file
/// has exactly that path or a live folder with a longer URL path begins it. What is
/// then asked for below the folder is what follows its URL path.
pub proof fn lemma_folder_answers_below_its_path(
    m: Map<i64, Row>,
    folder: Seq<char>,
    rest: Seq<char>,
    now: i64,
    r: Option<ServeMatch>,
    id: i64,
)
    requires
        answers_request(m, folder + rest, now, r),
        m.dom().contains(id),
        m[id].kind == Kind::Dir,
        m[id].url_path == folder,
        m[id].expires_at matches Some(e) ==> now <= e,
        forall|k: i64| #[trigger]
            m.dom().contains(k) && m[k].kind == Kind::File && m[k].url_path == folder + rest ==> (
            m[k].expires_at matches Some(e) && e < now),
    ensures
        r matches Some(x) && x.registration.kind == Kind::Dir && (x.suffix matches Some(s)
            && x.registration.url_path@ + s@ == folder + rest && folder.len()
            <= x.registration.url_path@.len()),
        (forall|k: i64| #[trigger]
            m.dom().contains(k) && m[k].kind == Kind::Dir && has_prefix(
                folder + rest,
                m[k].url_path,
            ) && k != id ==> m[k].url_path.len() < folder.len()) ==> r->0.registration.url_path@
            == folder && r->0.suffix->0@ == rest && r->0.registration.id == id,
{
    let path = folder + rest;
    assert(path.take(folder.len() as int) =~= folder);
    assert(mount_of(m, path, now, id));
    assert forall|k: i64| !#[trigger] file_at(m, path, now, k) by {
        if file_at(m, path, now, k) {
            assert(m.dom().contains(k));
        }
    }
    let x = r->0;
    let url = x.registration.url_path@;
    assert(m.dom().contains(x.registration.id));
    if x.registration.id == id {
        assert(x.suffix->0@ =~= rest) by {
            assert(path.skip(folder.len() as int) =~= rest);
            assert((url + x.suffix->0@).skip(folder.len() as int) =~= x.suffix->0@);
        }
    }
}

/// What answers is a live registration: a file with exactly the requested path, or a
/// folder whose URL path and the rest make it up. Where nothing answers, no live file
/// has the path and no live folder's URL path begins it.
pub proof fn lemma_what_answers(m: Map<i64, Row>, path: Seq<char>, now: i64, r: Option<ServeMatch>)
    requires
        answers_request(m, path, now, r),
    ensures
        r matches Some(x) ==> {
            let row = m[x.registration.id];
            &&& m.dom().contains(x.registration.id)
            &&& row == x.registration.row()
            &&& row.expires_at matches Some(e) ==> now <= e
            &&& match x.suffix {
                None => row.kind == Kind::File && row.url_path == path,
                Some(s) => row.kind == Kind::Dir && path == row.url_path + s@,
            }
        },
        r is None ==> forall|k: i64| #[trigger]
            m.dom().contains(k) && (m[k].expires_at matches Some(e) ==> now <= e) ==> !(m[k].kind
                == Kind::File && m[k].url_path == path) && !(m[k].kind == Kind::Dir && has_prefix(
                path,
                m[k].url_path,
            )),
{
    if r is None {
        assert forall|k: i64| #[trigger]
            m.dom().contains(k) && (m[k].expires_at matches Some(e) ==> now <= e) implies !(m[k].kind
            == Kind::File && m[k].url_path == path) && !(m[k].kind == Kind::Dir && has_prefix(
            path,
            m[k].url_path,
        )) by {
            assert(!file_at(m, path, now, k));
            assert(!mount_of(m, path, now, k));
        }
    }
}

/// The registration of a source is a live row with exactly that source path, the one
/// with the least id; where there is none, no live row has it.
pub proof fn lemma_what_a_source_is_registered_as(
    m: Map<i64, Row>,
    source: Seq<char>,
    now: i64,
    r: Option<Registration>,
)
    requires
        answers_source(m, source, now, r),
    ensures
        forall|k: i64| #[trigger]
            m.dom().contains(k) && m[k].source_path == source && (m[k].expires_at matches Some(e)
                ==> now <= e) ==> (r matches Some(x) && x.id <= k),
        r matches Some(x) ==> m.dom().contains(x.id) && m[x.id] == x.row() && m[x.id].source_path
            == source && (m[x.id].expires_at matches Some(e) ==> now <= e),
{
    assert forall|k: i64| #[trigger]
        m.dom().contains(k) && m[k].source_path == source && (m[k].expires_at matches Some(e) ==> now
            <= e) implies (r matches Some(x) && x.id <= k) by {
        assert(serves_source(m, source, now, k));
    }
    if r is Some {
        assert(serves_source(m, source, now, r->0.id));
    }
}

/// The listing holds every live registration once and no other, the newest first, and
/// of those as new the one with the least id first.
pub proof fn lemma_what_is_listed(m: Map<i64, Row>, now: i64, v: Seq<Registration>)
    requires
        is_listing(m, now, v),
    ensures
        forall|i: int|
            0 <= i < v.len() ==> m.dom().contains((#[trigger] v[i]).id) && m[v[i].id] == v[i].row()
                && (m[v[i].id].expires_at matches Some(e) ==> now <= e),
        forall|id: i64| #[trigger]
            m.dom().contains(id) && (m[id].expires_at matches Some(e) ==> now <= e) ==> exists|i: int|
                0 <= i < v.len() && (#[trigger] v[i]).id == id,
        forall|i: int, j: int|
            0 <= i < j < v.len() ==> (#[trigger] v[i]).created_at > (#[trigger] v[j]).created_at || (
            v[i].created_at == v[j].created_at && v[i].id < v[j].id),
{
    assert forall|id: i64| #[trigger]
        m.dom().contains(id) && (m[id].expires_at matches Some(e) ==> now <= e) implies exists|i: int|
        0 <= i < v.len() && (#[trigger] v[i]).id == id by {
        assert(live(m[id], now));
    }
}

// ---------------------------------------------------------------------------
// What is sent
// ---------------------------------------------------------------------------

proof fn lemma_gone_names_the_path(url: Seq<char>, source: Seq<char>)
    ensures
        text::holds(serve::gone_view(url, source).body, text::escaped(url, false)),
{
    let a = "<h1>410 Gone</h1><p>servant: source for <code>"@;
    let b = "</code> is no longer available at <code>"@;
    let c = "</code>.</p>"@;
    let x = text::escaped(url, false);
    let y = text::escaped(source, false);
    assert(a + x + b + y + c =~= a + x + (b + y + c));
}

/// A request that a file answers: its source is looked at, and sent if it is there;
/// else the answer is that it is gone.
pub proof fn lemma_file_is_sent(m: ServeMatch, p: Progress)
    requires
        m.registration.kind == Kind::File,
    ensures
        p.source is None ==> serve_step(m, p) == ServeStep::LookAtSource(
            m.registration.source_path@,
        ),
        p.source == Some(true) ==> serve_step(m, p) == ServeStep::SendFile(
            m.registration.source_path@,
        ),
        p.source == Some(false) ==> (serve_step(m, p) matches ServeStep::Answer(r) && r.status
            == 410 && text::holds(r.body, text::escaped(m.registration.url_path@, false))),
{
    lemma_gone_names_the_path(m.registration.url_path@, m.registration.source_path@);
}

/// A harmless request below a folder: the source is looked at, then the canonical
/// folder is asked for, then the path below it with all the pieces of the request.
pub proof fn lemma_folder_is_looked_up(m: ServeMatch, suffix: String, root: String, p: Progress)
    requires
        m.registration.kind == Kind::Dir,
        m.suffix == Some(suffix),
        harmless(suffix@),
        root@.len() > 0,
    ensures
        p.source is None ==> serve_step(m, p) == ServeStep::LookAtSource(
            m.registration.source_path@,
        ),
        p.source == Some(false) ==> (serve_step(m, p) matches ServeStep::Answer(r) && r.status
            == 410 && text::holds(r.body, text::escaped(m.registration.url_path@, false))),
        p.source == Some(true) && p.canonical@.len() == 0 ==> serve_step(m, p)
            == ServeStep::Canonicalize(m.registration.source_path@),
        p.source == Some(true) && p.canonical@ == seq![Canonical::Found(root)] ==> (serve_step(
            m,
            p,
        ) matches ServeStep::Canonicalize(q) && components(q) == components(root@) + components(
            suffix@,
        ) && absolute(q) == absolute(root@)),
{
    let source = m.registration.source_path@;
    lemma_gone_names_the_path(m.registration.url_path@, source);
    guards::lemma_harmless_request_is_looked_up(
        source,
        suffix@,
        Canonical::Found(root),
        root@,
    );
    if p.canonical@.len() == 0 {
        assert(p.canonical@ =~= Seq::empty());
    }
}

/// What a harmless request below a folder leads to is sent where it lies inside the
/// folder: a file as it is, and of a folder its `index.html`, or its listing under the
/// requested URL path where it has none.
pub proof fn lemma_folder_is_served(
    m: ServeMatch,
    suffix: String,
    root: String,
    found: String,
    below: Seq<Seq<char>>,
    p: Progress,
)
    requires
        m.registration.kind == Kind::Dir,
        m.suffix == Some(suffix),
        harmless(suffix@),
        p.source == Some(true),
        p.canonical@ == seq![Canonical::Found(root), Canonical::Found(found)],
        absolute(found@) == absolute(root@),
        components(found@) == components(root@) + below,
        found@.len() > 0,
    ensures
        p.target is None ==> serve_step(m, p) == ServeStep::LookAtTarget(found@),
        p.target == Some(Stat::Other) ==> serve_step(m, p) == ServeStep::SendFile(found@),
        p.target == Some(Stat::Missing) ==> (serve_step(m, p) matches ServeStep::Answer(r)
            && r.status == 404 && text::holds(
            r.body,
            text::escaped(m.registration.url_path@ + suffix@, false),
        )),
        p.target == Some(Stat::Folder) && p.index is None ==> (serve_step(
            m,
            p,
        ) matches ServeStep::LookForIndex(q) && components(q) == components(found@).push(
            "index.html"@,
        ) && has_prefix(q, found@)),
        p.target == Some(Stat::Folder) && p.index == Some(true) ==> (serve_step(
            m,
            p,
        ) matches ServeStep::SendFile(q) && components(q) == components(found@).push("index.html"@)
            && has_prefix(q, found@)),
        p.target == Some(Stat::Folder) && p.index == Some(false) ==> (serve_step(
            m,
            p,
        ) matches ServeStep::ListFolder(q, prefix) && q == found@ && {
            let url = m.registration.url_path@ + suffix@;
            prefix == if url.len() > 0 && url.last() == '/' {
                url
            } else {
                url + seq!['/']
            }
        }),
{
    let source = m.registration.source_path@;
    guards::lemma_inside_is_allowed(source, suffix@, root, found, below);
    text::lemma_holds(
        "<h1>404 Not Found</h1><p>servant: no registration for <code>"@,
        text::escaped(m.registration.url_path@ + suffix@, false),
        "</code></p>"@,
    );
    reveal_strlit("index.html");
    reveal_strlit("/");
    reveal_strlit(".");
    let index = "index.html"@;
    assert(!index.contains('/'));
    assert(index.len() == 10 && "."@.len() == 1);
    guards::lemma_components_of_name(index);
    guards::lemma_components_of_join(found@, index);
    assert(components(found@) + seq![index] =~= components(found@).push(index));
    let url = m.registration.url_path@ + suffix@;
    assert("/"@ =~= seq!['/']);
    if url.len() > 0 {
        assert(url.skip(url.len() - 1) =~= seq![url.last()]);
    }
    if has_suffix(url, "/"@) {
        assert(url.skip(url.len() - 1)[0] == '/');
    }
}

/// What is refused below a folder is answered so: a way up and a way out as forbidden,
/// a hidden or missing name as not found.
pub proof fn lemma_folder_refuses(
    m: ServeMatch,
    suffix: String,
    root: String,
    found: String,
    p: Progress,
)
    requires
        m.registration.kind == Kind::Dir,
        m.suffix == Some(suffix),
        harmless(suffix@),
        p.source == Some(true),
    ensures
        p.canonical@ == seq![Canonical::Found(root), Canonical::Found(found)] && (absolute(found@)
            != absolute(root@) || forall|below: Seq<Seq<char>>|
            components(found@) != #[trigger] (components(root@) + below)) ==> (serve_step(
            m,
            p,
        ) matches ServeStep::Answer(r) && r.status == 403),
        p.canonical@ == seq![Canonical::Found(root), Canonical::Missing] ==> (serve_step(
            m,
            p,
        ) matches ServeStep::Answer(r) && r.status == 404),
        p.canonical@ == seq![Canonical::Found(root), Canonical::Failed] ==> (serve_step(
            m,
            p,
        ) matches ServeStep::Answer(r) && r.status == 403),
{
    let source = m.registration.source_path@;
    guards::lemma_missing_is_not_found(source, suffix@, root);
    if absolute(found@) != absolute(root@) || forall|below: Seq<Seq<char>>|
        components(found@) != #[trigger] (components(root@) + below) {
        guards::lemma_outside_is_forbidden(source, suffix@, root, found);
    }
}

/// The statuses of the answers that are not files.
pub proof fn lemma_statuses(path: Seq<char>, source: Seq<char>)
    ensures
        serve::preflight_view().status == 204,
        serve::method_not_allowed_view().status == 405,
        serve::not_found_view(path).status == 404,
        serve::gone_view(path, source).status == 410,
        serve::forbidden_view().status == 403,
        serve::server_error_view().status == 500,
        serve::method_not_allowed_view().headers == seq![("allow"@, "GET, HEAD, OPTIONS"@)],
        serve::not_found_view(path).headers == seq![("content-type"@, "text/html; charset=utf-8"@)],
        serve::gone_view(path, source).headers == seq![
            ("content-type"@, "text/html; charset=utf-8"@),
        ],
{
}

/// The pages for what is not there name the requested path, and the page for what is
/// gone its source too, escaped.
pub proof fn lemma_error_pages_name_the_path(path: Seq<char>, source: Seq<char>)
    ensures
        exists|a: Seq<char>, b: Seq<char>|
            #![trigger a + text::escaped(path, false) + b]
            serve::not_found_view(path).body == a + text::escaped(path, false) + b,
        exists|a: Seq<char>, b: Seq<char>, c: Seq<char>|
            #![trigger a + text::escaped(path, false) + b + text::escaped(source, false) + c]
            serve::gone_view(path, source).body == a + text::escaped(path, false) + b
                + text::escaped(source, false) + c,
{
    let a = "<h1>404 Not Found</h1><p>servant: no registration for <code>"@;
    let b = "</code></p>"@;
    assert(serve::not_found_view(path).body == a + text::escaped(path, false) + b);
    let c = "<h1>410 Gone</h1><p>servant: source for <code>"@;
    let d = "</code> is no longer available at <code>"@;
    let e = "</code>.</p>"@;
    assert(serve::gone_view(path, source).body == c + text::escaped(path, false) + d
        + text::escaped(source, false) + e);
}

/// Every answer gets the headers that keep it fresh, open it to other origins and
/// announce ranges, each unless the answer has it already, and no other.
pub proof fn lemma_default_headers(present: Seq<String>, name: Seq<char>, value: Seq<char>)
    ensures
        missing_headers(default_headers(), present).contains((name, value)) <==> !views(
            present,
        ).contains(name) && {
            ||| name == "cache-control"@ && value == "no-cache"@
            ||| name == "access-control-allow-origin"@ && value == "*"@
            ||| name == "access-control-allow-methods"@ && value == "GET, HEAD, OPTIONS"@
            ||| name == "accept-ranges"@ && value == "bytes"@
        },
{
    lemma_missing_headers(default_headers(), present, (name, value));
    let all = default_headers();
    assert(all[0] == ("cache-control"@, "no-cache"@));
    assert(all[1] == ("access-control-allow-origin"@, "*"@));
    assert(all[2] == ("access-control-allow-methods"@, "GET, HEAD, OPTIONS"@));
    assert(all[3] == ("accept-ranges"@, "bytes"@));
    assert(all.len() == 4);
}

proof fn lemma_missing_headers(
    all: Seq<(Seq<char>, Seq<char>)>,
    present: Seq<String>,
    h: (Seq<char>, Seq<char>),
)
    ensures
        missing_headers(all, present).contains(h) <==> all.contains(h) && !views(present).contains(
            h.0,
        ),
    decreases all.len(),
{
    if all.len() > 0 {
        let front = all.drop_last();
        lemma_missing_headers(front, present, h);
        let some = missing_headers(front, present);
        let last = all.last();
        assert(all[all.len() - 1] == last);
        if all.contains(h) && h != last {
            let i = choose|i: int| 0 <= i < all.len() && all[i] == h;
            assert(front[i] == h);
        }
        if front.contains(h) {
            let i = choose|i: int| 0 <= i < front.len() && front[i] == h;
            assert(all[i] == h);
        }
        if missing_headers(all, present).contains(h) {
            let i = choose|i: int|
                0 <= i < missing_headers(all, present).len() && missing_headers(all, present)[i]
                    == h;
            if i < some.len() {
                assert(some[i] == h);
            }
        }
        if some.contains(h) {
            let i = choose|i: int| 0 <= i < some.len() && some[i] == h;
            assert(missing_headers(all, present)[i] == h);
        }
        if h == last && !serve::has_header(present, last.0) {
            assert(missing_headers(all, present)[some.len() as int] == h);
        }
    }
}

/// After an answer that a registration was served with, it is not missing; after the
/// answer that its source is gone, it is missing since the first such answer; after any
/// other, and of every other registration, nothing changes.
pub proof fn lemma_what_an_answer_notes(
    m: Map<i64, Row>,
    reg: Registration,
    status: u16,
    now: i64,
    id: i64,
)
    requires
        m.dom().contains(reg.id),
        m[reg.id] == reg.row(),
        m.dom().contains(id),
    ensures
        ({
            let n = settled_rows(m, reg, status, now);
            &&& 200 <= status < 300 ==> n[reg.id].missing_since is None
            &&& status == 410 && m[reg.id].missing_since is None ==> n[reg.id].missing_since
                == Some(now)
            &&& status == 410 && m[reg.id].missing_since is Some ==> n[reg.id] == m[reg.id]
            &&& !(200 <= status < 300) && status != 410 ==> n == m
            &&& id != reg.id ==> n[id] == m[id]
        }),
{
}

// ---------------------------------------------------------------------------
// What registering comes to
// ---------------------------------------------------------------------------

/// A lifetime of some seconds is kept as it is, `never` as none, and the daemon's own
/// is used where none is asked for.
pub proof fn lemma_lifetime_that_counts(n: i64, d: Duration, default: Ttl)
    ensures
        resolved_seconds(TtlRequest::Seconds(n), default) == Some(n),
        resolved_seconds(TtlRequest::Never, default) is None,
        resolved_seconds(TtlRequest::Default, Ttl::Never) is None,
        d.secs <= i64::MAX ==> (resolved_seconds(
            TtlRequest::Default,
            Ttl::Duration(d),
        ) matches Some(s) && s == d.secs),
{
}

/// A deadline lies one lifetime ahead; without a lifetime there is none.
pub proof fn lemma_deadline_is_a_lifetime_ahead(n: i64, now: i64)
    requires
        i64::MIN <= now + n <= i64::MAX,
    ensures
        deadline(Some(n), now) matches Some(e) && e == now + n,
        deadline(None, now) is None,
{
}

/// A source that is registered anew gets one new row with what was asked for, and no
/// other row changes. The answer reports that row.
pub proof fn lemma_new_registration(
    m: Map<i64, Row>,
    n: Map<i64, Row>,
    req: RegisterRequest,
    default: Ttl,
    now: i64,
    resp: RegisterResponse,
)
    requires
        registered(m, n, req, default, now, resp),
        !resp.reused,
    ensures
        ({
            let id = resp.registration.id;
            let row = n[id];
            let v = resp.registration;
            &&& !m.dom().contains(id)
            &&& n.dom() == m.dom().insert(id)
            &&& forall|k: i64| #[trigger] m.dom().contains(k) ==> n[k] == m[k]
            &&& row.source_path == req.path@
            &&& row.created_at == now
            &&& row.name_slug == opt_view(req.name)
            &&& row.last_hit_at is None
            &&& row.missing_since is None
            &&& req.kind@ == "file"@ ==> row.kind == Kind::File
            &&& req.kind@ == "dir"@ ==> row.kind == Kind::Dir
            &&& req.ttl matches TtlRequest::Seconds(s) ==> {
                &&& row.ttl_seconds == Some(s)
                &&& i64::MIN <= now + s <= i64::MAX ==> (row.expires_at matches Some(e) && e == now
                    + s) && v.expires_in_secs == Some(s)
            }
            &&& req.ttl is Never ==> row.ttl_seconds is None && row.expires_at is None
            &&& req.ttl is Default && default is Never ==> row.ttl_seconds is None
                && row.expires_at is None
            &&& req.ttl is Default ==> (default matches Ttl::Duration(d) ==> (d.secs <= i64::MAX
                && now + d.secs <= i64::MAX ==> (row.ttl_seconds matches Some(t) && t == d.secs) && (
            row.expires_at matches Some(e) && e == now + d.secs)))
            &&& v.url_path@ == row.url_path
            &&& v.source_path@ == req.path@
            &&& v.kind@ == req.kind@
            &&& v.created_at == now
            &&& v.expires_at == row.expires_at
            &&& v.ttl_seconds == row.ttl_seconds
            &&& !v.missing
        }),
{
    db::lemma_kind_names_differ();
    let id = resp.registration.id;
    assert(n.dom() =~= m.dom().insert(id));
}

/// A source that is registered anew without a chosen name gets a slash and its own name
/// as its URL path, and a slash behind it for a folder, where that path is free.
pub proof fn lemma_registered_at_plain_path(
    m: Map<i64, Row>,
    n: Map<i64, Row>,
    req: RegisterRequest,
    default: Ttl,
    now: i64,
    resp: RegisterResponse,
    dir: Seq<char>,
    name: Seq<char>,
)
    requires
        registered(m, n, req, default, now, resp),
        !resp.reused,
        req.name is None,
        req.path@ == dir + seq!['/'] + name,
        name.len() > 0,
        !name.contains('/'),
        name != "."@,
        name != ".."@,
        name != "_servant"@,
        req.kind@ == "file"@ ==> !url_taken(m, seq!['/'] + name),
        req.kind@ == "dir"@ ==> !url_taken(m, seq!['/'] + name + seq!['/']),
    ensures
        req.kind@ == "file"@ ==> resp.registration.url_path@ == seq!['/'] + name,
        req.kind@ == "dir"@ ==> resp.registration.url_path@ == seq!['/'] + name + seq!['/'],
{
    db::lemma_kind_names_differ();
    url_alloc::lemma_plain_path_is_source_name(dir, name);
    lemma_first_free_is_the_plain_one(m, n, req, default, now, resp, name);
}

/// A source that is registered anew under a chosen name gets a slash and that name as
/// its URL path, and a slash behind it for a folder, where that path is free.
pub proof fn lemma_registered_at_chosen_path(
    m: Map<i64, Row>,
    n: Map<i64, Row>,
    req: RegisterRequest,
    default: Ttl,
    now: i64,
    resp: RegisterResponse,
    name: String,
)
    requires
        registered(m, n, req, default, now, resp),
        !resp.reused,
        req.name == Some(name),
        req.kind@ == "file"@ ==> !url_taken(m, seq!['/'] + name@),
        req.kind@ == "dir"@ ==> !url_taken(m, seq!['/'] + name@ + seq!['/']),
    ensures
        req.kind@ == "file"@ ==> resp.registration.url_path@ == seq!['/'] + name@,
        req.kind@ == "dir"@ ==> resp.registration.url_path@ == seq!['/'] + name@ + seq!['/'],
        n[resp.registration.id].name_slug == Some(name@),
{
    db::lemma_kind_names_differ();
    url_alloc::lemma_chosen_name_is_taken(req.path@, name@);
    lemma_first_free_is_the_plain_one(m, n, req, default, now, resp, name@);
}

proof fn lemma_first_free_is_the_plain_one(
    m: Map<i64, Row>,
    n: Map<i64, Row>,
    req: RegisterRequest,
    default: Ttl,
    now: i64,
    resp: RegisterResponse,
    name: Seq<char>,
)
    requires
        registered(m, n, req, default, now, resp),
        !resp.reused,
        url_alloc::base_name(req.path@, opt_view(req.name)) == Some(name),
        req.kind@ == "file"@ ==> !url_taken(m, seq!['/'] + name),
        req.kind@ == "dir"@ ==> !url_taken(m, seq!['/'] + name + seq!['/']),
    ensures
        req.kind@ == "file"@ ==> resp.registration.url_path@ == seq!['/'] + name,
        req.kind@ == "dir"@ ==> resp.registration.url_path@ == seq!['/'] + name + seq!['/'],
{
    db::lemma_kind_names_differ();
    reveal_strlit("/");
    assert("/"@ =~= seq!['/']);
    let url = resp.registration.url_path@;
    let taken = |u: Seq<char>| url_taken(m, u);
    let kind = n[resp.registration.id].kind;
    let base = url_alloc::path_of(name, kind);
    assert(url_alloc::first_free(taken, base, kind, url));
    let c = choose|c: nat|
        1 <= c <= url_alloc::MAX_SUFFIX_ATTEMPTS && url == #[trigger] url_alloc::candidate(
            base,
            kind,
            c,
        ) && !taken(url) && forall|k: nat|
            1 <= k < c ==> taken(#[trigger] url_alloc::candidate(base, kind, k));
    assert(url_alloc::candidate(base, kind, 1) == base);
    if c > 1 {
        assert(taken(url_alloc::candidate(base, kind, 1)));
    }
}

/// A source with a live registration keeps it: no row is added or removed, only its
/// deadline and the time of its last hit change, and the deadline lies one lifetime
/// ahead.
pub proof fn lemma_kept_registration(
    m: Map<i64, Row>,
    n: Map<i64, Row>,
    req: RegisterRequest,
    default: Ttl,
    now: i64,
    resp: RegisterResponse,
)
    requires
        registered(m, n, req, default, now, resp),
        resp.reused,
    ensures
        ({
            let id = resp.registration.id;
            let row = n[id];
            &&& m.dom().contains(id)
            &&& m[id].source_path == req.path@
            &&& m[id].expires_at matches Some(e) ==> now <= e
            &&& n.dom() == m.dom()
            &&& forall|k: i64| #[trigger] m.dom().contains(k) && k != id ==> n[k] == m[k]
            &&& row.url_path == m[id].url_path
            &&& row.source_path == m[id].source_path
            &&& row.kind == m[id].kind
            &&& row.created_at == m[id].created_at
            &&& row.ttl_seconds == m[id].ttl_seconds
            &&& m[id].ttl_seconds matches Some(t) ==> (m[id].expires_at is Some && i64::MIN <= now
                + t <= i64::MAX ==> (row.expires_at matches Some(e) && e == now + t)
                && row.last_hit_at == Some(now))
            &&& m[id].expires_at is None ==> row == m[id]
            &&& resp.registration.url_path@ == m[id].url_path
            &&& resp.registration.source_path@ == req.path@
        }),
{
    let id = resp.registration.id;
    assert(serves_source(m, req.path@, now, id));
    assert(n.dom() =~= m.dom());
}

/// A source is registered anew exactly where no live row has it.
pub proof fn lemma_registered_once(
    m: Map<i64, Row>,
    n: Map<i64, Row>,
    req: RegisterRequest,
    default: Ttl,
    now: i64,
    resp: RegisterResponse,
)
    requires
        registered(m, n, req, default, now, resp),
    ensures
        resp.reused <==> exists|k: i64| #[trigger]
            m.dom().contains(k) && m[k].source_path == req.path@ && (m[k].expires_at matches Some(e)
                ==> now <= e),
{
    if resp.reused {
        let id = resp.registration.id;
        assert(serves_source(m, req.path@, now, id));
        assert(m.dom().contains(id));
    } else {
        assert forall|k: i64| #[trigger] m.dom().contains(k) implies !(m[k].source_path == req.path@
            && (m[k].expires_at matches Some(e) ==> now <= e)) by {
            assert(!serves_source(m, req.path@, now, k));
        }
    }
}

/// What is reported of a registration is what its row holds, and how many seconds are
/// left until its deadline.
pub proof fn lemma_what_is_reported(v: RegistrationView, id: i64, row: Row, now: i64)
    requires
        v.shows(id, row, now),
    ensures
        v.id == id,
        v.url_path@ == row.url_path,
        v.source_path@ == row.source_path,
        row.kind == Kind::File ==> v.kind@ == "file"@,
        row.kind == Kind::Dir ==> v.kind@ == "dir"@,
        opt_view(v.name_slug) == row.name_slug,
        v.created_at == row.created_at,
        v.expires_at == row.expires_at,
        v.ttl_seconds == row.ttl_seconds,
        v.last_hit_at == row.last_hit_at,
        v.missing_since == row.missing_since,
        v.missing <==> row.missing_since is Some,
        row.expires_at is None ==> v.expires_in_secs is None,
        row.expires_at matches Some(e) ==> (i64::MIN <= e - now <= i64::MAX ==> (
        v.expires_in_secs matches Some(left) && now + left == e)),
{
}

/// The registrations that are reported are the live ones, one by one as they are
/// listed.
pub proof fn lemma_what_list_reports(
    m: Map<i64, Row>,
    now: i64,
    v: Seq<Registration>,
    views: Seq<RegistrationView>,
)
    requires
        is_listing(m, now, v),
        reports(views, v, now),
    ensures
        forall|i: int|
            0 <= i < views.len() ==> m.dom().contains((#[trigger] views[i]).id) && views[i].url_path@
                == m[views[i].id].url_path && views[i].source_path@ == m[views[i].id].source_path && (
            m[views[i].id].expires_at matches Some(e) ==> now <= e),
        forall|id: i64| #[trigger]
            m.dom().contains(id) && (m[id].expires_at matches Some(e) ==> now <= e) ==> exists|i: int|
                0 <= i < views.len() && (#[trigger] views[i]).id == id,
        forall|i: int, j: int|
            0 <= i < j < views.len() ==> (#[trigger] views[i]).created_at >= (
            #[trigger] views[j]).created_at && views[i].id != views[j].id,
{
    assert forall|i: int| 0 <= i < views.len() implies m.dom().contains((#[trigger] views[i]).id)
        && views[i].url_path@ == m[views[i].id].url_path && views[i].source_path@
        == m[views[i].id].source_path && (m[views[i].id].expires_at matches Some(e) ==> now
        <= e) by {
        let r = v[i];
        assert(views[i].shows(r.id, r.row(), now));
    }
    lemma_what_is_listed(m, now, v);
    assert forall|id: i64| #[trigger]
        m.dom().contains(id) && (m[id].expires_at matches Some(e) ==> now <= e) implies exists|i: int|
        0 <= i < views.len() && (#[trigger] views[i]).id == id by {
        let i = choose|i: int| 0 <= i < v.len() && (#[trigger] v[i]).id == id;
        assert(views[i].shows(v[i].id, v[i].row(), now));
    }
    assert forall|i: int, j: int| 0 <= i < j < views.len() implies (#[trigger] views[i]).created_at
        >= (#[trigger] views[j]).created_at && views[i].id != views[j].id by {
        assert(views[i].shows(v[i].id, v[i].row(), now));
        assert(views[j].shows(v[j].id, v[j].row(), now));
        if v[i].id == v[j].id {
            assert(v[i].row() == v[j].row());
        }
    }
}

/// A column reads as a file exactly where its text is the name of one, and the names of
/// the kinds read back as the kinds.
pub proof fn lemma_kind_columns()
    ensures
        Kind::File.name() == "file"@,
        Kind::Dir.name() == "dir"@,
        db::column_kind("file"@) == Kind::File,
        db::column_kind("dir"@) == Kind::Dir,
{
    db::lemma_kind_names_differ();
}

/// A removal that SQLite carried out takes away the row of that id and no other.
pub proof fn lemma_removal_takes_one_row(
    conn: rusqlite::Connection,
    n: Map<i64, Row>,
    id: i64,
    outcome: Result<bool, db::DbError>,
)
    requires
        deletes(conn, n, id, outcome),
        outcome is Ok,
    ensures
        outcome == Ok::<bool, db::DbError>(true),
        !n.dom().contains(id),
        forall|k: i64|
            k != id ==> (#[trigger] n.dom().contains(k) <==> db::rows(conn).dom().contains(k)),
        forall|k: i64| k != id && #[trigger] n.dom().contains(k) ==> n[k] == db::rows(conn)[k],
{
}

/// A number that does not fit is taken as the one of the same low bits, and one that
/// fits as it is.
pub proof fn lemma_numbers_that_do_not_fit(x: int)
    requires
        -0x1_0000_0000_0000_0000 <= x <= 0x1_0000_0000_0000_0000,
    ensures
        i64::MIN <= x <= i64::MAX ==> wrapped(x) == x,
        i64::MIN <= wrapped(x) <= i64::MAX,
        (wrapped(x) - x) % 0x1_0000_0000_0000_0000 == 0,
{
}

/// The program's files lie in the home folder, whatever that is.
pub proof fn lemma_files_lie_below_home(home: Seq<char>)
    ensures
        components(config::state_path(home)) == components(home).push(".servant"@),
        components(config::config_path(home)) == components(home).push(".config"@).push(
            "servant"@,
        ),
        components(config::user_unit_path(home)) == components(home).push(".config"@).push(
            "systemd"@,
        ).push("user"@).push("servant.service"@),
{
    lemma_join_name(home, ".servant"@);
    lemma_join_name(home, ".config"@);
    let c = join_view(home, ".config"@);
    lemma_join_name(c, "servant"@);
    lemma_join_name(c, "systemd"@);
    let d = join_view(c, "systemd"@);
    lemma_join_name(d, "user"@);
    lemma_join_name(join_view(d, "user"@), "servant.service"@);
    reveal_strlit(".servant");
    reveal_strlit(".config");
    reveal_strlit("servant");
    reveal_strlit("systemd");
    reveal_strlit("user");
    reveal_strlit("servant.service");
}

proof fn lemma_join_name(base: Seq<char>, name: Seq<char>)
    ensures
        name.len() > 2 && !name.contains('/') ==> components(join_view(base, name)) == components(
            base,
        ).push(name),
{
    reveal_strlit(".");
    reveal_strlit("..");
    if name.len() > 2 && !name.contains('/') {
        assert(name[0] != '/');
        guards::lemma_components_of_name(name);
        guards::lemma_components_of_join(base, name);
        assert(components(base) + seq![name] =~= components(base).push(name));
    }
}

} // verus!
