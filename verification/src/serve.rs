//! The serving plane: which request is answered by what, step by step, and what
//! an answer changes in the registry.
//!
//! The registry is asked here. What only the file system can tell is asked for as
//! a `Step`; its answer is noted in a `Progress`, and the next step follows from
//! it.

use rusqlite::Connection;
use vstd::prelude::*;

use crate::db;
use crate::db::{
    answers_request, last_id, missed, read_fails, registry_sound, rows, sqlite_fails, updated,
    DbError, Kind, Registration, Row, ServeMatch,
};
use crate::guards;
use crate::guards::{
    canonical_text, contained, guard_step, Canonical, GuardOutcome, GuardStep, StepView, Verdict,
};
use crate::paths;
use crate::paths::join_view;
use crate::text;
use crate::text::escaped;

verus! {

// ---------------------------------------------------------------------------
// Answers
// ---------------------------------------------------------------------------

/// A header that an answer sets.
#[derive(Debug, Clone, Copy)]
pub struct Header {
    pub name: &'static str,
    pub value: &'static str,
}

/// An answer that is not a file.
#[derive(Debug)]
pub struct Reply {
    pub status: u16,
    pub headers: Vec<Header>,
    pub body: String,
}

/// An answer over plain text.
pub struct ReplyView {
    pub status: int,
    pub headers: Seq<(Seq<char>, Seq<char>)>,
    pub body: Seq<char>,
}

impl Header {
    /// The header over plain text.
    pub open spec fn view(self) -> (Seq<char>, Seq<char>) {
        (self.name@, self.value@)
    }
}

/// Headers over plain text.
pub open spec fn header_views(headers: Seq<Header>) -> Seq<(Seq<char>, Seq<char>)> {
    Seq::new(headers.len(), |i: int| headers[i].view())
}

impl Reply {
    /// The answer over plain text.
    pub open spec fn view(self) -> ReplyView {
        ReplyView {
            status: self.status as int,
            headers: header_views(self.headers@),
            body: self.body@,
        }
    }
}

/// The headers of an HTML page.
pub open spec fn html_headers() -> Seq<(Seq<char>, Seq<char>)> {
    seq![("content-type"@, "text/html; charset=utf-8"@)]
}

/// The answer to a preflight request.
pub open spec fn preflight_view() -> ReplyView {
    ReplyView {
        status: 204,
        headers: seq![
            ("access-control-allow-origin"@, "*"@),
            ("access-control-allow-methods"@, "GET, HEAD, OPTIONS"@),
            ("access-control-allow-headers"@, "*"@),
        ],
        body: ""@,
    }
}

/// The answer to a method that is not served.
pub open spec fn method_not_allowed_view() -> ReplyView {
    ReplyView {
        status: 405,
        headers: seq![("allow"@, "GET, HEAD, OPTIONS"@)],
        body: "Method Not Allowed"@,
    }
}

/// The answer where nothing is registered or found at `path`.
pub open spec fn not_found_view(path: Seq<char>) -> ReplyView {
    ReplyView {
        status: 404,
        headers: html_headers(),
        body: "<h1>404 Not Found</h1><p>servant: no registration for <code>"@ + escaped(path, false)
            + "</code></p>"@,
    }
}

/// The answer where the source of a registration is gone.
pub open spec fn gone_view(url_path: Seq<char>, source_path: Seq<char>) -> ReplyView {
    ReplyView {
        status: 410,
        headers: html_headers(),
        body: "<h1>410 Gone</h1><p>servant: source for <code>"@ + escaped(url_path, false)
            + "</code> is no longer available at <code>"@ + escaped(source_path, false)
            + "</code>.</p>"@,
    }
}

/// The answer to a request that leaves its folder.
pub open spec fn forbidden_view() -> ReplyView {
    ReplyView { status: 403, headers: Seq::empty(), body: "Forbidden"@ }
}

/// The answer where something failed.
pub open spec fn server_error_view() -> ReplyView {
    ReplyView { status: 500, headers: Seq::empty(), body: "Internal Server Error"@ }
}

fn html_reply(status: u16, body: String) -> (r: Reply)
    ensures
        r.view() == (ReplyView { status: status as int, headers: html_headers(), body: body@ }),
{
    let mut headers: Vec<Header> = Vec::new();
    headers.push(Header { name: "content-type", value: "text/html; charset=utf-8" });
    let r = Reply { status, headers, body };
    proof {
        assert(header_views(r.headers@) =~= html_headers());
    }
    r
}

fn plain_reply(status: u16, body: &str) -> (r: Reply)
    ensures
        r.view() == (ReplyView { status: status as int, headers: Seq::empty(), body: body@ }),
{
    let r = Reply { status, headers: Vec::new(), body: text::owned(body) };
    proof {
        assert(header_views(r.headers@) =~= Seq::empty());
    }
    r
}

/// The answer to a preflight request.
pub fn cors_preflight() -> (r: Reply)
    ensures
        r.view() == preflight_view(),
{
    let mut headers: Vec<Header> = Vec::new();
    headers.push(Header { name: "access-control-allow-origin", value: "*" });
    headers.push(Header { name: "access-control-allow-methods", value: "GET, HEAD, OPTIONS" });
    headers.push(Header { name: "access-control-allow-headers", value: "*" });
    let r = Reply { status: 204, headers, body: text::owned("") };
    proof {
        assert(header_views(r.headers@) =~= preflight_view().headers);
    }
    r
}

/// The answer to a method that is not served.
pub fn method_not_allowed() -> (r: Reply)
    ensures
        r.view() == method_not_allowed_view(),
{
    let mut headers: Vec<Header> = Vec::new();
    headers.push(Header { name: "allow", value: "GET, HEAD, OPTIONS" });
    let r = Reply { status: 405, headers, body: text::owned("Method Not Allowed") };
    proof {
        assert(header_views(r.headers@) =~= method_not_allowed_view().headers);
    }
    r
}

/// The answer where nothing is registered or found at `request_path`.
pub fn not_found_html(request_path: &str) -> (r: Reply)
    ensures
        r.view() == not_found_view(request_path@),
{
    let path: String = text::escape(request_path, false);
    let body: String = text::joined3(
        "<h1>404 Not Found</h1><p>servant: no registration for <code>",
        path.as_str(),
        "</code></p>",
    );
    html_reply(404, body)
}

/// The answer where the source of a registration is gone.
pub fn gone_html(reg: &Registration) -> (r: Reply)
    ensures
        r.view() == gone_view(reg.url_path@, reg.source_path@),
{
    let url: String = text::escape(reg.url_path.as_str(), false);
    let source: String = text::escape(reg.source_path.as_str(), false);
    let mut body: String = text::joined3(
        "<h1>410 Gone</h1><p>servant: source for <code>",
        url.as_str(),
        "</code> is no longer available at <code>",
    );
    body.append(source.as_str());
    body.append("</code>.</p>");
    html_reply(410, body)
}

/// The answer to a request that leaves its folder.
pub fn forbidden() -> (r: Reply)
    ensures
        r.view() == forbidden_view(),
{
    plain_reply(403, "Forbidden")
}

/// The answer where something failed.
pub fn server_error() -> (r: Reply)
    ensures
        r.view() == server_error_view(),
{
    plain_reply(500, "Internal Server Error")
}

/// The answer with the page that lists a folder.
pub fn listing_reply(page: String) -> (r: Reply)
    ensures
        r.view() == (ReplyView { status: 200, headers: html_headers(), body: page@ }),
{
    html_reply(200, page)
}

/// The headers that every answer for a registration has, unless it sets them
/// itself.
pub open spec fn default_headers() -> Seq<(Seq<char>, Seq<char>)> {
    seq![
        ("cache-control"@, "no-cache"@),
        ("access-control-allow-origin"@, "*"@),
        ("access-control-allow-methods"@, "GET, HEAD, OPTIONS"@),
        ("accept-ranges"@, "bytes"@),
    ]
}

/// Some header in `present` has the name `name`.
pub open spec fn has_header(present: Seq<String>, name: Seq<char>) -> bool {
    text::views(present).contains(name)
}

/// Of `defaults` those whose name is not in `present`.
pub open spec fn missing_headers(
    defaults: Seq<(Seq<char>, Seq<char>)>,
    present: Seq<String>,
) -> Seq<(Seq<char>, Seq<char>)>
    decreases defaults.len(),
{
    if defaults.len() == 0 {
        Seq::empty()
    } else {
        let front = missing_headers(defaults.drop_last(), present);
        if has_header(present, defaults.last().0) {
            front
        } else {
            front.push(defaults.last())
        }
    }
}

fn is_present(present: &Vec<String>, name: &str) -> (r: bool)
    ensures
        r == has_header(present@, name@),
{
    let mut i: usize = 0;
    while i < present.len()
        invariant
            0 <= i <= present.len(),
            forall|j: int| 0 <= j < i ==> (#[trigger] present@[j])@ != name@,
        decreases present.len() - i,
    {
        if text::same(present[i].as_str(), name) {
            proof {
                assert(text::views(present@)[i as int] == name@);
            }
            return true;
        }
        i = i + 1;
    }
    proof {
        if text::views(present@).contains(name@) {
            let j = choose|j: int|
                0 <= j < text::views(present@).len() && text::views(present@)[j] == name@;
            assert(present@[j]@ == name@);
        }
    }
    false
}

/// The headers that an answer with the headers `present`, named in lower case, is
/// still to get.
pub fn apply_headers(present: &Vec<String>) -> (r: Vec<Header>)
    ensures
        header_views(r@) == missing_headers(default_headers(), present@),
{
    let mut defaults: Vec<Header> = Vec::new();
    defaults.push(Header { name: "cache-control", value: "no-cache" });
    defaults.push(Header { name: "access-control-allow-origin", value: "*" });
    defaults.push(Header { name: "access-control-allow-methods", value: "GET, HEAD, OPTIONS" });
    defaults.push(Header { name: "accept-ranges", value: "bytes" });
    let ghost all = header_views(defaults@);
    let mut out: Vec<Header> = Vec::new();
    let mut i: usize = 0;
    proof {
        assert(all =~= default_headers());
        assert(all.take(0) =~= Seq::empty());
        assert(header_views(out@) =~= Seq::empty());
    }
    while i < defaults.len()
        invariant
            0 <= i <= defaults.len(),
            all == header_views(defaults@),
            header_views(out@) == missing_headers(all.take(i as int), present@),
        decreases defaults.len() - i,
    {
        let h: Header = defaults[i];
        let ghost before = out@;
        proof {
            assert(all.take(i + 1).drop_last() =~= all.take(i as int));
            assert(all.take(i + 1).last() == h.view());
        }
        if !is_present(present, h.name) {
            out.push(h);
            proof {
                assert(header_views(out@) =~= header_views(before).push(h.view()));
            }
        }
        i = i + 1;
    }
    proof {
        assert(all.take(i as int) =~= all);
    }
    out
}

// ---------------------------------------------------------------------------
// Who answers
// ---------------------------------------------------------------------------

/// Who answers a request: the server itself, or a registration.
pub enum Route {
    Answer(Reply),
    Serve(ServeMatch),
}

/// The answer that a request gets for its method alone, or none where it is to be
/// looked up.
pub open spec fn method_answer(method: Seq<char>) -> Option<ReplyView> {
    if method == "OPTIONS"@ {
        Some(preflight_view())
    } else if method != "GET"@ && method != "HEAD"@ {
        Some(method_not_allowed_view())
    } else {
        None
    }
}

/// The answer that a request gets for its method alone.
pub fn screen_method(method: &str) -> (r: Option<Reply>)
    ensures
        match r {
            Some(reply) => method_answer(method@) == Some(reply.view()),
            None => method_answer(method@) is None,
        },
{
    if text::same(method, "OPTIONS") {
        return Some(cors_preflight());
    }
    if !text::same(method, "GET") && !text::same(method, "HEAD") {
        return Some(method_not_allowed());
    }
    None
}

/// Who answers a request for `request_path`, given what the registry said.
pub fn dispatch(lookup: Result<Option<ServeMatch>, DbError>, request_path: &str) -> (r: Route)
    ensures
        match lookup {
            Ok(Some(m)) => r == Route::Serve(m),
            Ok(None) => r matches Route::Answer(x) && x.view() == not_found_view(request_path@),
            Err(_) => r matches Route::Answer(x) && x.view() == server_error_view(),
        },
{
    match lookup {
        Ok(Some(m)) => Route::Serve(m),
        Ok(None) => Route::Answer(not_found_html(request_path)),
        Err(_) => Route::Answer(server_error()),
    }
}

/// Who answers a request at `now`.
pub fn fallback(conn: &Connection, method: &str, request_path: &str, now: i64) -> (r: Route)
    ensures
        match method_answer(method@) {
            Some(v) => r matches Route::Answer(x) && x.view() == v,
            None => match r {
                Route::Serve(m) => answers_request(rows(*conn), request_path@, now, Some(m)),
                Route::Answer(x) => {
                    ||| x.view() == not_found_view(request_path@) && answers_request(
                        rows(*conn),
                        request_path@,
                        now,
                        None,
                    )
                    // SQLite failed.
                    ||| x.view() == server_error_view() && exists|f: DbError| #[trigger]
                        read_fails(*conn, f)
                },
            },
        },
{
    match screen_method(method) {
        Some(reply) => Route::Answer(reply),
        None => {
            let lookup: Result<Option<ServeMatch>, DbError> = db::find_for_request_at(
                conn,
                request_path,
                now,
            );
            proof {
                if lookup is Err {
                    assert(read_fails(*conn, lookup->Err_0));
                }
            }
            dispatch(lookup, request_path)
        },
    }
}

// ---------------------------------------------------------------------------
// Serving a registration
// ---------------------------------------------------------------------------

/// What a path leads to.
#[derive(Debug, Clone, Copy, PartialEq, Eq, Structural)]
pub enum Stat {
    /// It cannot be looked at.
    Missing,
    Folder,
    Other,
}

/// What the file system has said so far for one request.
#[derive(Debug)]
pub struct Progress {
    /// Whether the source can be looked at.
    pub source: Option<bool>,
    /// The canonical paths asked for, in order.
    pub canonical: Vec<Canonical>,
    /// What the path that may be served leads to.
    pub target: Option<Stat>,
    /// Whether the folder has an `index.html` that can be looked at.
    pub index: Option<bool>,
}

/// What is to be done next for a request.
#[derive(Debug)]
pub enum Step {
    /// Look at the source.
    LookAtSource(String),
    /// Ask for a canonical path.
    Canonicalize(String),
    /// Look at the path that may be served.
    LookAtTarget(String),
    /// Look for this `index.html`.
    LookForIndex(String),
    /// Answer with this file.
    SendFile(String),
    /// Answer with the page that lists this folder.
    ListFolder { path: String, url_prefix: String },
    /// Answer with this.
    Answer(Reply),
}

/// A step over plain text.
pub enum ServeStep {
    LookAtSource(Seq<char>),
    Canonicalize(Seq<char>),
    LookAtTarget(Seq<char>),
    LookForIndex(Seq<char>),
    SendFile(Seq<char>),
    ListFolder(Seq<char>, Seq<char>),
    Answer(ReplyView),
}

impl Step {
    /// The step over plain text.
    pub open spec fn view(self) -> ServeStep {
        match self {
            Step::LookAtSource(p) => ServeStep::LookAtSource(p@),
            Step::Canonicalize(p) => ServeStep::Canonicalize(p@),
            Step::LookAtTarget(p) => ServeStep::LookAtTarget(p@),
            Step::LookForIndex(p) => ServeStep::LookForIndex(p@),
            Step::SendFile(p) => ServeStep::SendFile(p@),
            Step::ListFolder { path, url_prefix } => ServeStep::ListFolder(path@, url_prefix@),
            Step::Answer(r) => ServeStep::Answer(r.view()),
        }
    }
}

impl Progress {
    /// Nothing has been asked yet.
    pub fn start() -> (r: Progress)
        ensures
            r.source is None,
            r.canonical@.len() == 0,
            r.target is None,
            r.index is None,
    {
        Progress { source: None, canonical: Vec::new(), target: None, index: None }
    }
}

/// The next step for a registered file: it is sent if it is there.
pub open spec fn file_step(reg: Registration, p: Progress) -> ServeStep {
    match p.source {
        None => ServeStep::LookAtSource(reg.source_path@),
        Some(there) => if there {
            ServeStep::SendFile(reg.source_path@)
        } else {
            ServeStep::Answer(gone_view(reg.url_path@, reg.source_path@))
        },
    }
}

/// The path of `index.html` in the folder `target`.
pub open spec fn index_of(target: Seq<char>) -> Seq<char> {
    join_view(target, "index.html"@)
}

/// The URL path under which a folder is listed: it ends in a slash.
pub open spec fn listing_prefix(url_path: Seq<char>, suffix: Seq<char>) -> Seq<char> {
    let url = url_path + suffix;
    if text::has_suffix(url, "/"@) {
        url
    } else {
        url + "/"@
    }
}

/// The next step for what may be served at `target`.
pub open spec fn target_step(
    reg: Registration,
    suffix: Seq<char>,
    target: Seq<char>,
    p: Progress,
) -> ServeStep {
    match p.target {
        None => ServeStep::LookAtTarget(target),
        Some(Stat::Missing) => ServeStep::Answer(not_found_view(reg.url_path@ + suffix)),
        Some(Stat::Other) => ServeStep::SendFile(target),
        Some(Stat::Folder) => match p.index {
            None => ServeStep::LookForIndex(index_of(target)),
            Some(there) => if there {
                ServeStep::SendFile(index_of(target))
            } else {
                ServeStep::ListFolder(target, listing_prefix(reg.url_path@, suffix))
            },
        },
    }
}

/// The next step for a path below a registered folder: its source must be there,
/// the guards must let the path pass, and then what it leads to decides.
pub open spec fn dir_step(reg: Registration, suffix: Seq<char>, p: Progress) -> ServeStep {
    match p.source {
        None => ServeStep::LookAtSource(reg.source_path@),
        Some(there) => if !there {
            ServeStep::Answer(gone_view(reg.url_path@, reg.source_path@))
        } else {
            match guard_step(reg.source_path@, suffix, p.canonical@) {
                StepView::Canonicalize(path) => ServeStep::Canonicalize(path),
                StepView::Done(Verdict::NotFound) => ServeStep::Answer(
                    not_found_view(reg.url_path@ + suffix),
                ),
                StepView::Done(Verdict::Forbidden) => ServeStep::Answer(forbidden_view()),
                StepView::Done(Verdict::Allow(target)) => target_step(reg, suffix, target, p),
            }
        },
    }
}

/// What a request asks for below the registration that answers it.
pub open spec fn suffix_of(m: ServeMatch) -> Seq<char> {
    match m.suffix {
        None => Seq::empty(),
        Some(s) => s@,
    }
}

/// The next step for a request that a registration answers.
pub open spec fn serve_step(m: ServeMatch, p: Progress) -> ServeStep {
    match m.registration.kind {
        Kind::File => file_step(m.registration, p),
        Kind::Dir => dir_step(m.registration, suffix_of(m), p),
    }
}

/// The next step for a registered file.
pub fn serve_file(reg: &Registration, p: &Progress) -> (r: Step)
    ensures
        r.view() == file_step(*reg, *p),
{
    match p.source {
        None => Step::LookAtSource(reg.source_pathbuf()),
        Some(there) => {
            if there {
                Step::SendFile(reg.source_pathbuf())
            } else {
                Step::Answer(gone_html(reg))
            }
        },
    }
}

/// The next step for what may be served at `target`.
fn serve_target(reg: &Registration, suffix: &str, target: String, p: &Progress) -> (r: Step)
    ensures
        r.view() == target_step(*reg, suffix@, target@, *p),
{
    match p.target {
        None => Step::LookAtTarget(target),
        Some(Stat::Missing) => {
            let url: String = text::joined(reg.url_path.as_str(), suffix);
            Step::Answer(not_found_html(url.as_str()))
        },
        Some(Stat::Other) => Step::SendFile(target),
        Some(Stat::Folder) => {
            match p.index {
                None => Step::LookForIndex(paths::join(target.as_str(), "index.html")),
                Some(there) => {
                    if there {
                        return Step::SendFile(paths::join(target.as_str(), "index.html"));
                    }
                    let mut url_prefix: String = text::joined(reg.url_path.as_str(), suffix);
                    if !text::ends_with(url_prefix.as_str(), "/") {
                        url_prefix.append("/");
                    }
                    Step::ListFolder { path: target, url_prefix }
                },
            }
        },
    }
}

/// The next step for a path below a registered folder.
pub fn serve_dir(reg: &Registration, suffix: &str, p: &Progress) -> (r: Step)
    ensures
        r.view() == dir_step(*reg, suffix@, *p),
{
    let there: bool = match p.source {
        None => {
            return Step::LookAtSource(reg.source_pathbuf());
        },
        Some(b) => b,
    };
    if !there {
        return Step::Answer(gone_html(reg));
    }
    match guards::resolve_under_mount(reg.source_path.as_str(), suffix, &p.canonical) {
        GuardStep::Canonicalize(path) => Step::Canonicalize(path),
        GuardStep::Done(GuardOutcome::NotFound) => {
            let url: String = text::joined(reg.url_path.as_str(), suffix);
            Step::Answer(not_found_html(url.as_str()))
        },
        GuardStep::Done(GuardOutcome::Forbidden) => Step::Answer(forbidden()),
        GuardStep::Done(GuardOutcome::Allow(target)) => serve_target(reg, suffix, target, p),
    }
}

/// The next step for a request that a registration answers.
pub fn next_step(m: &ServeMatch, p: &Progress) -> (r: Step)
    ensures
        r.view() == serve_step(*m, *p),
{
    match m.registration.kind {
        Kind::File => serve_file(&m.registration, p),
        Kind::Dir => match &m.suffix {
            Some(s) => serve_dir(&m.registration, s.as_str(), p),
            None => {
                proof {
                    reveal_strlit("");
                    assert(""@ =~= Seq::<char>::empty());
                }
                serve_dir(&m.registration, "", p)
            },
        },
    }
}

// ---------------------------------------------------------------------------
// What an answer changes
// ---------------------------------------------------------------------------

/// What became of the registry after an answer.
#[derive(Debug)]
pub struct Aftermath {
    /// The registration was hit: its deadline is to slide.
    pub touch: bool,
    /// What came of noting that the source is there, or is missing.
    pub noted: Result<(), DbError>,
}

/// The rows after an answer with that status: a served registration is no longer
/// missing, and one whose source is gone is missing from then on.
pub open spec fn settled_rows(
    m: Map<i64, Row>,
    reg: Registration,
    status: u16,
    now: i64,
) -> Map<i64, Row> {
    if 200 <= status < 300 {
        if reg.missing_since is Some {
            updated(m, reg.id, |r: Row| (Row { missing_since: None, ..r }))
        } else {
            m
        }
    } else if status == 410 {
        updated(m, reg.id, |r: Row| missed(r, now))
    } else {
        m
    }
}

/// Notes what an answer with that status at `now` says of its registration, and
/// says whether its deadline is to slide.
pub fn settle(conn: &mut Connection, reg: &Registration, status: u16, now: i64) -> (r: Aftermath)
    ensures
        r.touch == (200 <= status < 300),
        r.noted is Ok ==> rows(*final(conn)) == settled_rows(rows(*old(conn)), *reg, status, now),
        r.noted is Ok ==> last_id(*final(conn)) == last_id(*old(conn)),
        r.noted is Ok && registry_sound(*old(conn)) ==> registry_sound(*final(conn)),
        !(200 <= status < 300 && reg.missing_since is Some) && status != 410 ==> r.noted is Ok
            && *final(conn) == *old(conn),
        r.noted matches Err(e) ==> sqlite_fails(*old(conn), e),
{
    if 200 <= status && status < 300 {
        let noted: Result<(), DbError> = if reg.missing_since.is_some() {
            db::clear_missing(conn, reg.id)
        } else {
            Ok(())
        };
        Aftermath { touch: true, noted }
    } else if status == 410 {
        Aftermath { touch: false, noted: db::mark_missing(conn, reg.id, now) }
    } else {
        Aftermath { touch: false, noted: Ok(()) }
    }
}

// ---------------------------------------------------------------------------
// What may be sent
// ---------------------------------------------------------------------------

/// A file that is sent for a request below a folder lies in the canonical folder,
/// or is the `index.html` of a folder that does.
pub proof fn lemma_sent_file_lies_inside(reg: Registration, suffix: Seq<char>, p: Progress, path: Seq<char>)
    requires
        dir_step(reg, suffix, p) == ServeStep::SendFile(path),
    ensures
        p.source == Some(true),
        p.canonical@.len() >= 2,
        canonical_text(p.canonical@[0]) is Some,
        canonical_text(p.canonical@[1]) is Some,
        ({
            let root = canonical_text(p.canonical@[0])->0;
            let target = canonical_text(p.canonical@[1])->0;
            contained(target, root) && (path == target || path == index_of(target))
        }),
{
    let g = guard_step(reg.source_path@, suffix, p.canonical@);
    assert(g is Done && g->Done_0 is Allow);
    guards::lemma_allowed_lies_inside(
        reg.source_path@,
        suffix,
        p.canonical@,
        g->Done_0->Allow_0,
    );
}

/// A folder that is listed lies in the canonical folder of its registration.
pub proof fn lemma_listed_folder_lies_inside(
    reg: Registration,
    suffix: Seq<char>,
    p: Progress,
    path: Seq<char>,
    prefix: Seq<char>,
)
    requires
        dir_step(reg, suffix, p) == ServeStep::ListFolder(path, prefix),
    ensures
        p.canonical@.len() >= 2,
        canonical_text(p.canonical@[0]) is Some,
        contained(path, canonical_text(p.canonical@[0])->0),
        p.index == Some(false),
{
    let g = guard_step(reg.source_path@, suffix, p.canonical@);
    assert(g is Done && g->Done_0 is Allow);
    guards::lemma_allowed_lies_inside(
        reg.source_path@,
        suffix,
        p.canonical@,
        g->Done_0->Allow_0,
    );
}

/// A registration is answered as gone exactly where its source cannot be looked
/// at.
pub proof fn lemma_gone_means_source_missing(m: ServeMatch, p: Progress)
    ensures
        (serve_step(m, p) matches ServeStep::Answer(r) && r.status == 410) <==> p.source == Some(
            false,
        ),
{
}

/// Methods other than GET, HEAD and OPTIONS are refused, and none but GET and HEAD
/// reach the registry.
pub proof fn lemma_serving_is_read_only(method: Seq<char>)
    ensures
        method_answer(method) is None <==> method == "GET"@ || method == "HEAD"@,
        method != "GET"@ && method != "HEAD"@ && method != "OPTIONS"@ ==> method_answer(method)
            == Some(method_not_allowed_view()),
{
    reveal_strlit("GET");
    reveal_strlit("HEAD");
    reveal_strlit("OPTIONS");
    assert("GET"@.len() == 3 && "HEAD"@.len() == 4 && "OPTIONS"@.len() == 7);
}

/// Answering requests adds and removes no registration, and changes no path, source,
/// kind, deadline or lifetime.
pub proof fn lemma_answers_keep_registrations(
    m: Map<i64, Row>,
    reg: Registration,
    status: u16,
    now: i64,
)
    ensures
        settled_rows(m, reg, status, now).dom() == m.dom(),
        forall|id: i64| #[trigger]
            m.dom().contains(id) ==> settled_rows(m, reg, status, now)[id] == (Row {
                missing_since: settled_rows(m, reg, status, now)[id].missing_since,
                ..m[id]
            }),
{
    assert(settled_rows(m, reg, status, now).dom() =~= m.dom());
}

} // verus!
