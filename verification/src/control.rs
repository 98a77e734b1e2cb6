//! The control plane: what each request on the control socket does to the
//! registry and what it is answered.

use rusqlite::Connection;
use vstd::prelude::*;

use crate::db;
use crate::db::{
    answers_request, answers_source, find_by_id, has_url, in_table, is_listing, last_id, live,
    live_ids, opt_view, read_fails, registry_sound, rows, serves_source, sound, sqlite_fails,
    touch_overflows, touched, unreadable, updated, url_taken, write_fails, DbError, Kind,
    NewRegistration, Registration, Row, ServeMatch,
};
use crate::laws;
use crate::paths;
use crate::paths::absolute;
use crate::text;
use crate::ttl::{signed_seconds, to_signed, Ttl};
use crate::url_alloc;
use crate::url_alloc::{
    allocates, base_name, candidate, first_free, path_of, AllocError, UrlAllocation,
    MAX_SUFFIX_ATTEMPTS,
};

verus! {

// ---------------------------------------------------------------------------
// Requests and answers
// ---------------------------------------------------------------------------

/// How the daemon is doing.
#[derive(Debug)]
pub struct HealthResponse {
    pub status: String,
    pub version: String,
    pub uptime_secs: u64,
    pub registrations: i64,
    pub port: u16,
    pub bind: String,
}

/// A request to register a file or folder.
#[derive(Debug)]
pub struct RegisterRequest {
    pub path: String,
    pub kind: String,
    pub ttl: TtlRequest,
    pub name: Option<String>,
}

/// The lifetime that a request asks for.
#[derive(Debug, Clone, Copy, PartialEq, Eq, Structural)]
pub enum TtlRequest {
    Seconds(i64),
    Never,
    /// Whatever the daemon is configured for.
    Default,
}

/// A registration as it is reported.
#[derive(Debug)]
pub struct RegistrationView {
    pub id: i64,
    pub url_path: String,
    pub source_path: String,
    pub kind: String,
    pub name_slug: Option<String>,
    pub created_at: i64,
    pub expires_at: Option<i64>,
    pub ttl_seconds: Option<i64>,
    pub last_hit_at: Option<i64>,
    pub missing_since: Option<i64>,
    pub missing: bool,
    pub expires_in_secs: Option<i64>,
}

/// The answer to a registration.
#[derive(Debug)]
pub struct RegisterResponse {
    pub registration: RegistrationView,
    /// The source was registered already.
    pub reused: bool,
}

/// The answer to a removal.
#[derive(Debug)]
pub struct Removal {
    pub removed: RegistrationView,
    /// What came of deleting the row: whether there was one.
    pub outcome: Result<bool, DbError>,
}

/// The answer to a request that failed.
#[derive(Debug)]
pub struct ErrorBody {
    pub status: u16,
    pub code: &'static str,
    pub error: String,
}

impl ErrorBody {
    /// The answer has this status, this code and this message.
    pub open spec fn says(self, status: int, code: Seq<char>, error: Seq<char>) -> bool {
        self.status == status && self.code@ == code && self.error@ == error
    }
}

/// The answer reports under that code that SQLite failed on this database, and what
/// it said.
pub open spec fn sqlite_failed(conn: Connection, e: ErrorBody, code: Seq<char>) -> bool {
    exists|d: DbError| #[trigger] sqlite_fails(conn, d) && e.says(500, code, d.message_view())
}

fn err(status: u16, code: &'static str, error: String) -> (r: ErrorBody)
    ensures
        r.says(status as int, code@, error@),
{
    ErrorBody { status, code, error }
}

/// The signed 64-bit number with the same low bits as `x`, for `x` out of range by
/// less than the whole range.
pub open spec fn wrapped(x: int) -> int {
    if x > i64::MAX {
        x - 0x1_0000_0000_0000_0000
    } else if x < i64::MIN {
        x + 0x1_0000_0000_0000_0000
    } else {
        x
    }
}

impl RegistrationView {
    /// The view reports row `row` of id `id` at `now`.
    pub open spec fn shows(self, id: i64, row: Row, now: i64) -> bool {
        &&& self.id == id
        &&& self.url_path@ == row.url_path
        &&& self.source_path@ == row.source_path
        &&& self.kind@ == row.kind.name()
        &&& opt_view(self.name_slug) == row.name_slug
        &&& self.created_at == row.created_at
        &&& self.expires_at == row.expires_at
        &&& self.ttl_seconds == row.ttl_seconds
        &&& self.last_hit_at == row.last_hit_at
        &&& self.missing_since == row.missing_since
        &&& self.missing == (row.missing_since is Some)
        &&& match row.expires_at {
            None => self.expires_in_secs is None,
            Some(e) => self.expires_in_secs matches Some(left) && left == wrapped(e - now),
        }
    }

    /// The report on a registration at `now`.
    pub fn from(r: Registration, now: i64) -> (v: RegistrationView)
        ensures
            v.shows(r.id, r.row(), now),
    {
        let expires_in: Option<i64> = match r.expires_at {
            None => None,
            Some(e) => Some(e.wrapping_sub(now)),
        };
        RegistrationView {
            id: r.id,
            url_path: r.url_path,
            source_path: r.source_path,
            kind: text::owned(r.kind.as_str()),
            name_slug: r.name_slug,
            created_at: r.created_at,
            expires_at: r.expires_at,
            ttl_seconds: r.ttl_seconds,
            last_hit_at: r.last_hit_at,
            missing_since: r.missing_since,
            missing: r.missing_since.is_some(),
            expires_in_secs: expires_in,
        }
    }
}

// ---------------------------------------------------------------------------
// Registering
// ---------------------------------------------------------------------------

/// The lifetime in seconds that a request comes to.
pub open spec fn resolved_seconds(req: TtlRequest, default: Ttl) -> Option<i64> {
    match req {
        TtlRequest::Seconds(n) => Some(n),
        TtlRequest::Never => None,
        TtlRequest::Default => match default {
            Ttl::Never => None,
            Ttl::Duration(d) => Some(signed_seconds(d.secs) as i64),
        },
    }
}

/// The deadline that a lifetime sets at `now`.
pub open spec fn deadline(seconds: Option<i64>, now: i64) -> Option<i64> {
    match seconds {
        None => None,
        Some(n) => Some(wrapped(now + n) as i64),
    }
}

/// The deadline and the lifetime in seconds that a request made at `now` comes to.
pub fn resolve_ttl(req: &TtlRequest, now: i64, default: &Ttl) -> (r: (Option<i64>, Option<i64>))
    ensures
        r.1 == resolved_seconds(*req, *default),
        r.0 == deadline(r.1, now),
{
    match req {
        TtlRequest::Seconds(n) => (Some(now.wrapping_add(*n)), Some(*n)),
        TtlRequest::Never => (None, None),
        TtlRequest::Default => match default {
            Ttl::Never => (None, None),
            Ttl::Duration(d) => {
                let s: i64 = to_signed(d.as_secs());
                (Some(now.wrapping_add(s)), Some(s))
            },
        },
    }
}

/// The registration after a hit: what was read back, else what was there before.
pub fn refreshed(found: Result<Option<Registration>, DbError>, existing: Registration) -> (r:
    Registration)
    ensures
        r == match found {
            Ok(Some(x)) => x,
            _ => existing,
        },
{
    match found {
        Ok(Some(x)) => x,
        _ => existing,
    }
}

/// Row `id` is the live registration of `source`, the oldest where there are more.
pub open spec fn registered_as(m: Map<i64, Row>, source: Seq<char>, now: i64, id: i64) -> bool {
    &&& serves_source(m, source, now, id)
    &&& forall|k: i64| #[trigger] serves_source(m, source, now, k) ==> id <= k
}

/// The row that a request to register a source anew makes.
pub open spec fn new_row(
    req: RegisterRequest,
    default: Ttl,
    now: i64,
    kind: Kind,
    url_path: Seq<char>,
) -> Row {
    Row {
        url_path,
        source_path: req.path@,
        kind,
        name_slug: opt_view(req.name),
        created_at: now,
        expires_at: deadline(resolved_seconds(req.ttl, default), now),
        ttl_seconds: resolved_seconds(req.ttl, default),
        last_hit_at: None,
        missing_since: None,
    }
}

/// What a granted request to register did to the rows `m` at `now`, and its answer.
/// A source with a live registration keeps it, with its deadline slid; any other
/// gets a row at the first free path.
pub open spec fn registered(
    m: Map<i64, Row>,
    n: Map<i64, Row>,
    req: RegisterRequest,
    default: Ttl,
    now: i64,
    resp: RegisterResponse,
) -> bool {
    let id = resp.registration.id;
    if resp.reused {
        &&& registered_as(m, req.path@, now, id)
        &&& n == updated(m, id, |r: Row| touched(r, now))
        // The second where the row could not be read back.
        &&& resp.registration.shows(id, n[id], now) || resp.registration.shows(id, m[id], now)
    } else {
        &&& answers_source(m, req.path@, now, None)
        &&& base_name(req.path@, opt_view(req.name)) is Some
        &&& !m.dom().contains(id)
        &&& exists|kind: Kind|
            {
                let url = resp.registration.url_path@;
                let row = new_row(req, default, now, kind, url);
                &&& req.kind@ == #[trigger] kind.name()
                &&& !url_taken(m, url)
                &&& first_free(
                    |u: Seq<char>| url_taken(m, u),
                    path_of(base_name(req.path@, opt_view(req.name))->0, kind),
                    kind,
                    url,
                )
                &&& n == m.insert(id, row)
                &&& resp.registration.shows(id, row, now)
            }
    }
}

/// The kind of a request is the name of a kind.
pub open spec fn kind_known(req: RegisterRequest) -> bool {
    req.kind@ == Kind::File.name() || req.kind@ == Kind::Dir.name()
}

/// The source has a live registration, and a hit on it at `now` fails with that
/// message: SQLite fails, or the deadline would be past the end of time and nothing
/// is changed.
pub open spec fn touch_fails(
    conn: Connection,
    m: Map<i64, Row>,
    req: RegisterRequest,
    now: i64,
    message: Seq<char>,
    unchanged: bool,
) -> bool {
    exists|id: i64, e: DbError|
        #![trigger registered_as(m, req.path@, now, id), e.message_view()]
        {
            &&& registered_as(m, req.path@, now, id)
            &&& message == e.message_view()
            &&& sqlite_fails(conn, e) || (e is DeadlineOverflow && touch_overflows(m[id], now)
                && unchanged)
        }
}

/// The source has no live registration, its name is good, and a path is free for it.
pub open spec fn insertable(m: Map<i64, Row>, req: RegisterRequest, now: i64) -> bool {
    &&& answers_source(m, req.path@, now, None)
    &&& base_name(req.path@, opt_view(req.name)) is Some
    &&& exists|kind: Kind, url: Seq<char>|
        #![trigger kind.name(), url_taken(m, url)]
        {
            &&& req.kind@ == kind.name()
            &&& !url_taken(m, url)
            &&& first_free(
                |u: Seq<char>| url_taken(m, u),
                path_of(base_name(req.path@, opt_view(req.name))->0, kind),
                kind,
                url,
            )
        }
}

/// The request's name is refused, or every path that is tried for it is taken.
pub open spec fn no_path(m: Map<i64, Row>, req: RegisterRequest) -> bool {
    ||| base_name(req.path@, opt_view(req.name)) is None
    ||| forall|kind: Kind, n: nat|
        req.kind@ == #[trigger] kind.name() && 1 <= n <= MAX_SUFFIX_ATTEMPTS ==> url_taken(
            m,
            #[trigger] candidate(
                path_of(base_name(req.path@, opt_view(req.name))->0, kind),
                kind,
                n,
            ),
        )
}

/// The answer to a request to register a source anew, given what came of inserting
/// its row.
pub fn insert_response(inserted: Result<Registration, DbError>, now: i64) -> (r: Result<
    RegisterResponse,
    ErrorBody,
>)
    ensures
        match inserted {
            Ok(x) => r matches Ok(resp) && !resp.reused && resp.registration.shows(
                x.id,
                x.row(),
                now,
            ),
            Err(d) => r matches Err(e) && e.says(500, "insert"@, d.message_view()),
        },
{
    match inserted {
        Ok(x) => Ok(
            RegisterResponse { registration: RegistrationView::from(x, now), reused: false },
        ),
        Err(d) => Err(err(500, "insert", d.message())),
    }
}

/// Registers the file or folder of a request at `now`. A source with a live
/// registration keeps it: its deadline slides, and the request's name and lifetime
/// do not count.
pub fn register(conn: &mut Connection, default_ttl: &Ttl, req: &RegisterRequest, now: i64) -> (res:
    Result<RegisterResponse, ErrorBody>)
    ensures
        match res {
            Ok(resp) => {
                &&& absolute(req.path@)
                &&& kind_known(*req)
                &&& registered(rows(*old(conn)), rows(*final(conn)), *req, *default_ttl, now, resp)
                &&& resp.reused ==> last_id(*final(conn)) == last_id(*old(conn))
                &&& !resp.reused ==> resp.registration.id > last_id(*old(conn)) && last_id(
                    *final(conn),
                ) == resp.registration.id
                &&& registry_sound(*old(conn)) ==> registry_sound(*final(conn))
            },
            Err(e) => if !absolute(req.path@) {
                &&& e.says(400, "non_absolute_path"@, "path must be absolute"@)
                &&& *final(conn) == *old(conn)
            } else if !kind_known(*req) {
                &&& e.says(400, "bad_kind"@, "unknown kind: "@ + req.kind@)
                &&& *final(conn) == *old(conn)
            } else {
                ||| e.code@ == "alloc"@ && e.status == 400 && *final(conn) == *old(conn) && exists|
                    kind: Kind,
                    a: AllocError,
                |
                    #![trigger kind.name(), a.message_view()]
                    req.kind@ == kind.name() && e.error@ == a.message_view() && allocates(
                        rows(*old(conn)),
                        req.path@,
                        kind,
                        opt_view(req.name),
                        now,
                        Err(a),
                    ) && (a matches AllocError::Db(d) ==> read_fails(*old(conn), d))
                ||| e.code@ == "touch"@ && e.status == 500 && touch_fails(
                    *old(conn),
                    rows(*old(conn)),
                    *req,
                    now,
                    e.error@,
                    *final(conn) == *old(conn),
                )
                ||| insertable(rows(*old(conn)), *req, now) && (sqlite_failed(
                    *old(conn),
                    e,
                    "insert"@,
                ) || sqlite_failed(*final(conn), e, "insert"@))
            },
        },
        !absolute(req.path@) || !kind_known(*req) ==> res is Err,
        // A registration that is kept is answered as it then is, unless SQLite fails
        // to read it back.
        res matches Ok(resp) ==> resp.registration.shows(
            resp.registration.id,
            rows(*final(conn))[resp.registration.id],
            now,
        ) || unreadable(*final(conn)),
        // A source that is new and can have no path is refused, and nothing changes.
        absolute(req.path@) && kind_known(*req) && answers_source(
            rows(*old(conn)),
            req.path@,
            now,
            None,
        ) && no_path(rows(*old(conn)), *req) ==> *final(conn) == *old(conn) && (res matches Err(e)
            && e.status == 400 && e.code@ == "alloc"@),
{
    if !paths::is_absolute(req.path.as_str()) {
        return Err(err(400, "non_absolute_path", text::owned("path must be absolute")));
    }
    let kind: Kind = match Kind::parse(req.kind.as_str()) {
        Ok(k) => k,
        Err(e) => {
            return Err(err(400, "bad_kind", e));
        },
    };
    let name: Option<&str> = match &req.name {
        None => None,
        Some(n) => Some(n.as_str()),
    };
    let ghost m = rows(*conn);
    let alloc: UrlAllocation = match url_alloc::allocate_url_path_at(
        conn,
        req.path.as_str(),
        kind,
        name,
        now,
    ) {
        Ok(a) => a,
        Err(e) => {
            proof {
                assert(req.kind@ == kind.name());
                assert(allocates(m, req.path@, kind, opt_view(req.name), now, Err(e)));
            }
            let message: String = e.message();
            return Err(err(400, "alloc", message));
        },
    };
    match alloc {
        UrlAllocation::Existing(existing) => {
            let id: i64 = existing.id;
            let ttl: Option<i64> = existing.ttl_seconds;
            proof {
                assert(serves_source(m, req.path@, now, id));
                assert(registered_as(m, req.path@, now, id));
            }
            match db::touch(conn, id, now, ttl) {
                Ok(()) => {},
                Err(e) => {
                    let message: String = e.message();
                    proof {
                        assert(message@ == e.message_view());
                        assert(touch_fails(
                            *old(conn),
                            m,
                            *req,
                            now,
                            message@,
                            *conn == *old(conn),
                        ));
                    }
                    return Err(err(500, "touch", message));
                },
            }
            proof {
                if ttl is None {
                    assert(touched(m[id], now) == m[id]);
                    assert(updated(m, id, |r: Row| touched(r, now)) =~= m);
                }
            }
            let found: Result<Option<Registration>, DbError> = find_by_id(conn, id);
            proof {
                if found is Err {
                    assert(read_fails(*conn, found->Err_0));
                    assert(unreadable(*conn));
                }
            }
            let registration: Registration = refreshed(found, existing);
            Ok(RegisterResponse { registration: RegistrationView::from(registration, now), reused: true })
        },
        UrlAllocation::New { url_path, name_slug } => {
            let (expires_at, ttl_seconds): (Option<i64>, Option<i64>) = resolve_ttl(
                &req.ttl,
                now,
                default_ttl,
            );
            let new = NewRegistration {
                url_path,
                source_path: req.path.clone(),
                kind,
                name_slug,
                created_at: now,
                expires_at,
                ttl_seconds,
            };
            proof {
                assert(req.kind@ == kind.name() && !url_taken(m, new.url_path@));
                assert(insertable(m, *req, now));
            }
            let inserted: Result<Registration, DbError> = db::insert(conn, &new);
            proof {
                assert(new.row() == new_row(*req, *default_ttl, now, kind, new.url_path@));
                if inserted is Err {
                    let d = inserted->Err_0;
                    assert(sqlite_fails(*old(conn), d) || sqlite_fails(*conn, d));
                }
            }
            insert_response(inserted, now)
        },
    }
}

// ---------------------------------------------------------------------------
// Listing and removing
// ---------------------------------------------------------------------------

/// `views` reports the registrations `v` one by one at `now`.
pub open spec fn reports(views: Seq<RegistrationView>, v: Seq<Registration>, now: i64) -> bool {
    &&& views.len() == v.len()
    &&& forall|i: int| 0 <= i < v.len() ==> (#[trigger] views[i]).shows(v[i].id, v[i].row(), now)
}

/// The answer to a request for the registrations, given those that were found.
pub fn list_response(found: Result<Vec<Registration>, DbError>, now: i64) -> (res: Result<
    Vec<RegistrationView>,
    ErrorBody,
>)
    ensures
        match found {
            Ok(v) => res matches Ok(views) && reports(views@, v@, now),
            Err(d) => res matches Err(e) && e.says(500, "list"@, d.message_view()),
        },
{
    let found: Vec<Registration> = match found {
        Ok(v) => v,
        Err(d) => {
            return Err(err(500, "list", d.message()));
        },
    };
    let mut views: Vec<RegistrationView> = Vec::new();
    let mut i: usize = 0;
    while i < found.len()
        invariant
            0 <= i <= found.len(),
            views@.len() == i,
            forall|j: int|
                0 <= j < i ==> (#[trigger] views@[j]).shows(found@[j].id, found@[j].row(), now),
        decreases found.len() - i,
    {
        views.push(RegistrationView::from(found[i].clone(), now));
        i = i + 1;
    }
    Ok(views)
}

/// The live registrations at `now`, the newest first.
pub fn list(conn: &Connection, now: i64) -> (res: Result<Vec<RegistrationView>, ErrorBody>)
    ensures
        match res {
            Ok(views) => exists|v: Seq<Registration>| #[trigger]
                is_listing(rows(*conn), now, v) && reports(views@, v, now),
            Err(e) => sqlite_failed(*conn, e, "list"@),
        },
{
    let found: Result<Vec<Registration>, DbError> = db::list_at(conn, now);
    proof {
        if found is Ok {
            assert(is_listing(rows(*conn), now, found->Ok_0@));
        } else {
            assert(sqlite_fails(*conn, found->Err_0));
        }
    }
    list_response(found, now)
}

/// The registration that was looked up, or the answer where there is none or where
/// it could not be looked up.
pub fn found_or_missing(found: Result<Option<Registration>, DbError>, missing: &str) -> (r: Result<
    Registration,
    ErrorBody,
>)
    ensures
        match found {
            Ok(Some(x)) => r == Ok::<Registration, ErrorBody>(x),
            Ok(None) => r matches Err(e) && e.says(404, "not_found"@, missing@),
            Err(d) => r matches Err(e) && e.says(500, "lookup"@, d.message_view()),
        },
{
    match found {
        Ok(Some(x)) => Ok(x),
        Ok(None) => Err(err(404, "not_found", text::owned(missing))),
        Err(d) => Err(err(500, "lookup", d.message())),
    }
}

/// The answer to a removal by id, given what came of deleting the row of `r`.
pub fn removal_response(outcome: Result<bool, DbError>, r: Registration, now: i64) -> (res: Result<
    RegistrationView,
    ErrorBody,
>)
    ensures
        match outcome {
            Ok(_) => res matches Ok(v) && v.shows(r.id, r.row(), now),
            Err(d) => res matches Err(e) && e.says(500, "delete"@, d.message_view()),
        },
{
    match outcome {
        Ok(_) => Ok(RegistrationView::from(r, now)),
        Err(d) => Err(err(500, "delete", d.message())),
    }
}

/// Removes the registration of that id, expired or not.
pub fn rm_by_id(conn: &mut Connection, id: i64, now: i64) -> (res: Result<RegistrationView, ErrorBody>)
    ensures
        match res {
            Ok(v) => {
                &&& rows(*old(conn)).dom().contains(id)
                &&& v.shows(id, rows(*old(conn))[id], now)
                &&& rows(*final(conn)) == rows(*old(conn)).remove(id)
                &&& last_id(*final(conn)) == last_id(*old(conn))
                &&& registry_sound(*old(conn)) ==> registry_sound(*final(conn))
            },
            Err(e) => {
                ||| e.says(404, "not_found"@, "no registration with that id"@) && !rows(
                    *old(conn),
                ).dom().contains(id) && *final(conn) == *old(conn)
                ||| sqlite_failed(*old(conn), e, "lookup"@) && *final(conn) == *old(conn)
                ||| sqlite_failed(*old(conn), e, "delete"@) && rows(*old(conn)).dom().contains(id)
            },
        },
{
    let found: Result<Option<Registration>, DbError> = db::find_by_id(conn, id);
    proof {
        if found is Err {
            assert(sqlite_fails(*conn, found->Err_0));
        }
    }
    match found_or_missing(found, "no registration with that id") {
        Err(e) => Err(e),
        Ok(r) => {
            let outcome: Result<bool, DbError> = db::delete(conn, id);
            proof {
                if outcome is Err {
                    assert(sqlite_fails(*old(conn), outcome->Err_0));
                }
            }
            removal_response(outcome, r, now)
        },
    }
}

/// What became of the rows of a database when the row of `id` was deleted: it is
/// gone, unless SQLite failed.
pub open spec fn deletes(
    conn: Connection,
    n: Map<i64, Row>,
    id: i64,
    outcome: Result<bool, DbError>,
) -> bool {
    match outcome {
        Ok(b) => b && n == rows(conn).remove(id),
        Err(e) => write_fails(conn, e),
    }
}

/// Deletes a registration that was found and reports it, whatever comes of the
/// deletion.
fn remove_found(conn: &mut Connection, r: Registration, now: i64) -> (res: Removal)
    requires
        in_table(rows(*old(conn)), r),
    ensures
        res.removed.shows(r.id, r.row(), now),
        deletes(*old(conn), rows(*final(conn)), r.id, res.outcome),
        res.outcome is Ok ==> last_id(*final(conn)) == last_id(*old(conn)) && (registry_sound(
            *old(conn),
        ) ==> registry_sound(*final(conn))),
{
    let outcome: Result<bool, DbError> = db::delete(conn, r.id);
    Removal { removed: RegistrationView::from(r, now), outcome }
}

/// Removes the live registration of a source path.
pub fn rm_by_source(conn: &mut Connection, source_path: &str, now: i64) -> (res: Result<
    Removal,
    ErrorBody,
>)
    ensures
        match res {
            Ok(x) => {
                let id = x.removed.id;
                &&& registered_as(rows(*old(conn)), source_path@, now, id)
                &&& x.removed.shows(id, rows(*old(conn))[id], now)
                &&& deletes(*old(conn), rows(*final(conn)), id, x.outcome)
                &&& x.outcome is Ok ==> last_id(*final(conn)) == last_id(*old(conn)) && (
                registry_sound(*old(conn)) ==> registry_sound(*final(conn)))
            },
            Err(e) => {
                &&& *final(conn) == *old(conn)
                &&& {
                    ||| e.says(404, "not_found"@, "no registration for that source"@)
                        && answers_source(rows(*old(conn)), source_path@, now, None)
                    ||| sqlite_failed(*old(conn), e, "lookup"@)
                }
            },
        },
{
    let found: Result<Option<Registration>, DbError> = db::find_by_source_at(
        conn,
        source_path,
        now,
    );
    proof {
        if found is Err {
            assert(sqlite_fails(*conn, found->Err_0));
        }
    }
    match found_or_missing(found, "no registration for that source") {
        Err(e) => Err(e),
        Ok(r) => Ok(remove_found(conn, r, now)),
    }
}

/// Removes the registration of a URL path, expired or not.
pub fn rm_by_url(conn: &mut Connection, url_path: &str, now: i64) -> (res: Result<
    Removal,
    ErrorBody,
>)
    ensures
        match res {
            Ok(x) => {
                let id = x.removed.id;
                &&& has_url(rows(*old(conn)), url_path@, id)
                &&& x.removed.shows(id, rows(*old(conn))[id], now)
                &&& deletes(*old(conn), rows(*final(conn)), id, x.outcome)
                &&& x.outcome is Ok ==> last_id(*final(conn)) == last_id(*old(conn)) && (
                registry_sound(*old(conn)) ==> registry_sound(*final(conn)))
            },
            Err(e) => {
                &&& *final(conn) == *old(conn)
                &&& {
                    ||| e.says(404, "not_found"@, "no registration for that url"@) && !url_taken(
                        rows(*old(conn)),
                        url_path@,
                    )
                    ||| sqlite_failed(*old(conn), e, "lookup"@)
                }
            },
        },
{
    let found: Result<Option<Registration>, DbError> = db::find_by_url(conn, url_path);
    proof {
        if found is Err {
            assert(sqlite_fails(*conn, found->Err_0));
        }
    }
    match found_or_missing(found, "no registration for that url") {
        Err(e) => Err(e),
        Ok(r) => Ok(remove_found(conn, r, now)),
    }
}

/// The answer to a request for the daemon's health, given how many registrations
/// are live; none are reported where they could not be counted.
pub fn health_response(
    counted: Result<i64, DbError>,
    version: &str,
    uptime_secs: u64,
    port: u16,
    bind: &str,
) -> (r: HealthResponse)
    ensures
        r.status@ == "ok"@,
        r.version@ == version@,
        r.uptime_secs == uptime_secs,
        r.registrations == match counted {
            Ok(n) => n as int,
            Err(_) => 0,
        },
        r.port == port,
        r.bind@ == bind@,
{
    let registrations: i64 = match counted {
        Ok(n) => n,
        Err(_) => 0,
    };
    HealthResponse {
        status: text::owned("ok"),
        version: text::owned(version),
        uptime_secs,
        registrations,
        port,
        bind: text::owned(bind),
    }
}

/// The daemon's health at `now`.
pub fn health(
    conn: &Connection,
    now: i64,
    version: &str,
    uptime_secs: u64,
    port: u16,
    bind: &str,
) -> (r: HealthResponse)
    ensures
        r.status@ == "ok"@,
        r.version@ == version@,
        r.uptime_secs == uptime_secs,
        (live_ids(rows(*conn), now).len() <= i64::MAX ==> r.registrations == live_ids(
            rows(*conn),
            now,
        ).len()) || (r.registrations == 0 && exists|f: DbError| #[trigger] read_fails(*conn, f)),
        r.port == port,
        r.bind@ == bind@,
{
    let counted: Result<i64, DbError> = db::count_at(conn, now);
    proof {
        if counted is Err {
            assert(read_fails(*conn, counted->Err_0));
        }
    }
    health_response(counted, version, uptime_secs, port, bind)
}

// ---------------------------------------------------------------------------
// What a sequence of requests comes to
// ---------------------------------------------------------------------------

/// Registering a source again while its registration is live is answered with the
/// same registration at the same URL path, and slides its deadline.
pub proof fn lemma_registering_again_reuses(
    m: Map<i64, Row>,
    n: Map<i64, Row>,
    k: Map<i64, Row>,
    first: RegisterRequest,
    again: RegisterRequest,
    default: Ttl,
    now: i64,
    later: i64,
    a: RegisterResponse,
    b: RegisterResponse,
)
    requires
        registered(m, n, first, default, now, a),
        registered(n, k, again, default, later, b),
        first.path@ == again.path@,
        live(n[a.registration.id], later),
        now <= later,
    ensures
        b.reused,
        b.registration.id == a.registration.id,
        b.registration.url_path@ == a.registration.url_path@,
        k == updated(n, a.registration.id, |r: Row| touched(r, later)),
        k.dom() == n.dom(),
{
    let id = a.registration.id;
    let source = first.path@;
    assert(n.dom().contains(id) && n[id].source_path == source);
    assert(serves_source(n, source, later, id));
    if !b.reused {
        assert(false);
    }
    let id2 = b.registration.id;
    assert(registered_as(n, source, later, id2));
    assert(serves_source(n, source, later, id2));
    if a.reused {
        if id2 < id {
            // The other row would have been the older live one before.
            assert(n[id2] == m[id2]);
            assert(serves_source(m, source, now, id2));
        }
    } else {
        if id2 != id {
            assert(n[id2] == m[id2]);
            assert(serves_source(m, source, now, id2));
        }
    }
    assert(k.dom() =~= n.dom());
}

/// What was registered anew answers requests for the URL path that was reported.
pub proof fn lemma_registered_is_served(
    m: Map<i64, Row>,
    last: int,
    n: Map<i64, Row>,
    req: RegisterRequest,
    default: Ttl,
    now: i64,
    resp: RegisterResponse,
    r: Option<ServeMatch>,
)
    requires
        sound(m, last),
        registered(m, n, req, default, now, resp),
        !resp.reused,
        resp.registration.id > last,
        live(n[resp.registration.id], now),
        answers_request(n, resp.registration.url_path@, now, r),
    ensures
        r matches Some(x) && x.registration.id == resp.registration.id,
{
    let id = resp.registration.id;
    let row = n[id];
    assert(row.url_path == resp.registration.url_path@);
    assert(n =~= m.insert(id, row));
    match row.kind {
        Kind::File => {
            laws::lemma_new_file_answers(m, last, id, row, now, r);
        },
        Kind::Dir => {
            laws::lemma_new_folder_answers(m, last, id, row, now, r);
        },
    }
}

/// What was registered is listed as long as it is live.
pub proof fn lemma_registered_is_listed(
    m: Map<i64, Row>,
    n: Map<i64, Row>,
    req: RegisterRequest,
    default: Ttl,
    now: i64,
    resp: RegisterResponse,
    later: i64,
    v: Seq<Registration>,
)
    requires
        registered(m, n, req, default, now, resp),
        live(n[resp.registration.id], later),
        is_listing(n, later, v),
    ensures
        exists|i: int| 0 <= i < v.len() && (#[trigger] v[i]).id == resp.registration.id,
{
    let id = resp.registration.id;
    assert(n.dom().contains(id) && live(n[id], later));
}

/// The URL path of what was registered anew begins with a slash; a folder's ends
/// with one, a file's does not, and there is none in between. It is not the
/// reserved one.
pub proof fn lemma_registered_path_shape(
    m: Map<i64, Row>,
    n: Map<i64, Row>,
    req: RegisterRequest,
    default: Ttl,
    now: i64,
    resp: RegisterResponse,
)
    requires
        registered(m, n, req, default, now, resp),
        !resp.reused,
    ensures
        ({
            let url = resp.registration.url_path@;
            &&& url.len() > 1
            &&& url[0] == '/'
            &&& forall|i: int| 0 < i < url.len() - 1 ==> #[trigger] url[i] != '/'
            &&& (url.last() == '/' <==> n[resp.registration.id].kind == Kind::Dir)
            &&& url != path_of(url_alloc::reserved(), Kind::File)
            &&& url != path_of(url_alloc::reserved(), Kind::Dir)
        }),
{
    let url = resp.registration.url_path@;
    let name = base_name(req.path@, opt_view(req.name))->0;
    let kind = n[resp.registration.id].kind;
    url_alloc::lemma_base_name_usable(req.path@, opt_view(req.name));
    db::lemma_kind_names_differ();
    assert(first_free(|u: Seq<char>| url_taken(m, u), path_of(name, kind), kind, url));
    let k = choose|k: nat|
        1 <= k <= url_alloc::MAX_SUFFIX_ATTEMPTS && url == #[trigger] url_alloc::candidate(
            path_of(name, kind),
            kind,
            k,
        );
    url_alloc::lemma_candidate_shape(name, kind, k);
    url_alloc::lemma_candidate_not_reserved(name, kind, k);
}

/// No source has more than one live registration.
pub open spec fn one_per_source(m: Map<i64, Row>, now: i64) -> bool {
    forall|source: Seq<char>, a: i64, b: i64| #[trigger]
        serves_source(m, source, now, a) && #[trigger] serves_source(m, source, now, b) ==> a == b
}

/// That no source has more than one live registration stays so as time goes by.
pub proof fn lemma_one_per_source_in_time(m: Map<i64, Row>, now: i64, later: i64)
    requires
        one_per_source(m, now),
        now <= later,
    ensures
        one_per_source(m, later),
{
    assert forall|source: Seq<char>, a: i64, b: i64| #[trigger]
        serves_source(m, source, later, a) && #[trigger] serves_source(m, source, later, b) implies a
        == b by {
        assert(serves_source(m, source, now, a) && serves_source(m, source, now, b));
    }
}

/// Registering leaves no source with more than one live registration.
pub proof fn lemma_one_per_source_after_registering(
    m: Map<i64, Row>,
    n: Map<i64, Row>,
    req: RegisterRequest,
    default: Ttl,
    now: i64,
    resp: RegisterResponse,
)
    requires
        one_per_source(m, now),
        registered(m, n, req, default, now, resp),
    ensures
        one_per_source(n, now),
{
    let id = resp.registration.id;
    assert forall|source: Seq<char>, a: i64, b: i64| #[trigger]
        serves_source(n, source, now, a) && #[trigger] serves_source(n, source, now, b) implies a
        == b by {
        if resp.reused {
            assert(serves_source(m, req.path@, now, id));
            assert(a != id ==> n[a] == m[a]);
            assert(b != id ==> n[b] == m[b]);
            assert(n[id].source_path == m[id].source_path);
            assert(serves_source(m, source, now, a));
            assert(serves_source(m, source, now, b));
        } else {
            if a != id {
                assert(n[a] == m[a]);
                assert(serves_source(m, source, now, a));
            }
            if b != id {
                assert(n[b] == m[b]);
                assert(serves_source(m, source, now, b));
            }
        }
    }
}

/// A hit leaves no source with more than one live registration.
pub proof fn lemma_one_per_source_after_hit(m: Map<i64, Row>, id: i64, now: i64)
    requires
        one_per_source(m, now),
    ensures
        one_per_source(updated(m, id, |r: Row| touched(r, now)), now),
{
    let n = updated(m, id, |r: Row| touched(r, now));
    assert forall|source: Seq<char>, a: i64, b: i64| #[trigger]
        serves_source(n, source, now, a) && #[trigger] serves_source(n, source, now, b) implies a
        == b by {
        assert(serves_source(m, source, now, a));
        assert(serves_source(m, source, now, b));
    }
}

/// Removing registrations leaves no source with more than one live registration.
pub proof fn lemma_one_per_source_in_part(m: Map<i64, Row>, n: Map<i64, Row>, now: i64)
    requires
        one_per_source(m, now),
        forall|id: i64| #[trigger]
            n.dom().contains(id) ==> m.dom().contains(id) && n[id] == m[id],
    ensures
        one_per_source(n, now),
{
    assert forall|source: Seq<char>, a: i64, b: i64| #[trigger]
        serves_source(n, source, now, a) && #[trigger] serves_source(n, source, now, b) implies a
        == b by {
        assert(serves_source(m, source, now, a));
        assert(serves_source(m, source, now, b));
    }
}

} // verus!
