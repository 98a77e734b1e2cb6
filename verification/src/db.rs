//! The registry: one SQLite table that maps URL paths to local files and
//! folders.
//!
//! The contracts speak of the table through `rows`, a map from ids to rows. The
//! statements that reach SQLite select by one column or change rows by id; what
//! is live, what answers a request and what a hit changes is decided here.

use rusqlite::{Connection, OptionalExtension};
use vstd::prelude::*;

use crate::text;
use crate::text::has_prefix;

verus! {

/// The schema version that this library reads and writes.
pub const TARGET_USER_VERSION: i64 = 1;

// ---------------------------------------------------------------------------
// Data
// ---------------------------------------------------------------------------

/// What a registration serves.
#[derive(Debug, Clone, Copy, PartialEq, Eq, Structural)]
pub enum Kind {
    File,
    Dir,
}

impl Kind {
    /// The name of the kind.
    pub open spec fn name(self) -> Seq<char> {
        match self {
            Kind::File => "file"@,
            Kind::Dir => "dir"@,
        }
    }

    /// The name of the kind.
    pub fn as_str(&self) -> (r: &'static str)
        ensures
            r@ == self.name(),
    {
        match self {
            Kind::File => "file",
            Kind::Dir => "dir",
        }
    }

    /// The kind of that name, or a message where there is none.
    pub fn parse(s: &str) -> (r: Result<Kind, String>)
        ensures
            match r {
                Ok(k) => s@ == k.name(),
                Err(e) => {
                    &&& s@ != Kind::File.name()
                    &&& s@ != Kind::Dir.name()
                    &&& e@ == "unknown kind: "@ + s@
                },
            },
    {
        if text::same(s, "file") {
            Ok(Kind::File)
        } else if text::same(s, "dir") {
            Ok(Kind::Dir)
        } else {
            Err(text::joined("unknown kind: ", s))
        }
    }
}

/// The names of the two kinds differ, so a name belongs to one kind.
pub proof fn lemma_kind_names_differ()
    ensures
        Kind::File.name() != Kind::Dir.name(),
{
    reveal_strlit("file");
    reveal_strlit("dir");
    assert(Kind::File.name().len() == 4);
    assert(Kind::Dir.name().len() == 3);
}

/// The view of optional text.
pub open spec fn opt_view(s: Option<String>) -> Option<Seq<char>> {
    match s {
        None => None,
        Some(t) => Some(t@),
    }
}

/// A row of the registry, without its id.
pub struct Row {
    pub url_path: Seq<char>,
    pub source_path: Seq<char>,
    pub kind: Kind,
    pub name_slug: Option<Seq<char>>,
    pub created_at: i64,
    pub expires_at: Option<i64>,
    pub ttl_seconds: Option<i64>,
    pub last_hit_at: Option<i64>,
    pub missing_since: Option<i64>,
}

/// A registered file or folder.
#[derive(Debug)]
pub struct Registration {
    pub id: i64,
    pub url_path: String,
    pub source_path: String,
    pub kind: Kind,
    pub name_slug: Option<String>,
    pub created_at: i64,
    pub expires_at: Option<i64>,
    pub ttl_seconds: Option<i64>,
    pub last_hit_at: Option<i64>,
    pub missing_since: Option<i64>,
}

impl Registration {
    /// The row that the registration was read from.
    pub open spec fn row(self) -> Row {
        Row {
            url_path: self.url_path@,
            source_path: self.source_path@,
            kind: self.kind,
            name_slug: opt_view(self.name_slug),
            created_at: self.created_at,
            expires_at: self.expires_at,
            ttl_seconds: self.ttl_seconds,
            last_hit_at: self.last_hit_at,
            missing_since: self.missing_since,
        }
    }

    /// The path of the file or folder that is served.
    pub fn source_pathbuf(&self) -> (r: String)
        ensures
            r@ == self.source_path@,
    {
        self.source_path.clone()
    }
}

impl Clone for Registration {
    fn clone(&self) -> (r: Self)
        ensures
            r == *self,
    {
        Registration {
            id: self.id,
            url_path: self.url_path.clone(),
            source_path: self.source_path.clone(),
            kind: self.kind,
            name_slug: self.name_slug.clone(),
            created_at: self.created_at,
            expires_at: self.expires_at,
            ttl_seconds: self.ttl_seconds,
            last_hit_at: self.last_hit_at,
            missing_since: self.missing_since,
        }
    }
}

/// What is registered anew.
#[derive(Debug)]
pub struct NewRegistration {
    pub url_path: String,
    pub source_path: String,
    pub kind: Kind,
    pub name_slug: Option<String>,
    pub created_at: i64,
    pub expires_at: Option<i64>,
    pub ttl_seconds: Option<i64>,
}

impl NewRegistration {
    /// The row that registering makes: never hit, and not missing.
    pub open spec fn row(self) -> Row {
        Row {
            url_path: self.url_path@,
            source_path: self.source_path@,
            kind: self.kind,
            name_slug: opt_view(self.name_slug),
            created_at: self.created_at,
            expires_at: self.expires_at,
            ttl_seconds: self.ttl_seconds,
            last_hit_at: None,
            missing_since: None,
        }
    }
}

impl Clone for NewRegistration {
    fn clone(&self) -> (r: Self)
        ensures
            r == *self,
    {
        NewRegistration {
            url_path: self.url_path.clone(),
            source_path: self.source_path.clone(),
            kind: self.kind,
            name_slug: self.name_slug.clone(),
            created_at: self.created_at,
            expires_at: self.expires_at,
            ttl_seconds: self.ttl_seconds,
        }
    }
}

/// What a sweep at startup removed.
#[derive(Debug, Clone, Copy, PartialEq, Eq, Structural)]
pub struct PruneStats {
    pub expired: u64,
    pub missing_source: u64,
}

/// What answers a request.
#[derive(Debug)]
pub struct ServeMatch {
    pub registration: Registration,
    /// For a folder, what follows its URL path in the request; nothing for a
    /// file.
    pub suffix: Option<String>,
}

/// Why a registry operation failed.
#[derive(Debug)]
pub enum DbError {
    /// A constraint of the table forbids the row.
    Constraint(String),
    /// SQLite failed.
    Sqlite(String),
    /// There is no migration to that schema version.
    NoMigration(i64),
    /// A row was not there right after it was inserted.
    Vanished,
    /// The deadline that a hit would set is past the end of time.
    DeadlineOverflow,
}

impl DbError {
    /// What the failure says.
    pub open spec fn message_view(self) -> Seq<char> {
        match self {
            DbError::Constraint(m) => m@,
            DbError::Sqlite(m) => m@,
            DbError::NoMigration(v) => "no migration defined for version "@ + text::signed_digits(
                v as int,
            ),
            DbError::Vanished => "inserted row vanished"@,
            DbError::DeadlineOverflow => "deadline out of range"@,
        }
    }

    /// What the failure says.
    pub fn message(&self) -> (r: String)
        ensures
            r@ == self.message_view(),
    {
        match self {
            DbError::Constraint(m) => m.clone(),
            DbError::Sqlite(m) => m.clone(),
            DbError::NoMigration(v) => {
                let n: String = text::decimal_signed(*v);
                text::joined("no migration defined for version ", n.as_str())
            },
            DbError::Vanished => text::owned("inserted row vanished"),
            DbError::DeadlineOverflow => text::owned("deadline out of range"),
        }
    }
}

// ---------------------------------------------------------------------------
// SQLite
// ---------------------------------------------------------------------------

/// A connection to a SQLite database.
#[verifier::external_type_specification]
#[verifier::external_body]
pub struct ExConnection(rusqlite::Connection);

/// An error of `rusqlite`.
#[verifier::external_type_specification]
#[verifier::external_body]
pub struct ExSqliteError(rusqlite::Error);

/// What the table `registrations` holds, by id. The table is the one that `SCHEMA`
/// lays out.
///
/// A connection stands for its database: the daemon's lock file and the control
/// socket leave one connection to write the registry, and every statement that
/// changes it takes that connection by `&mut`.
pub uninterp spec fn rows(conn: Connection) -> Map<i64, Row>;

/// The largest id that the table `registrations` has ever held.
pub uninterp spec fn last_id(conn: Connection) -> int;

/// The `user_version` in the header of the database.
pub uninterp spec fn user_version(conn: Connection) -> int;

/// The rows and the largest id ever given fit together: no two rows share a URL
/// path, and no row has an id that was never given.
pub open spec fn sound(m: Map<i64, Row>, last: int) -> bool {
    &&& forall|a: i64, b: i64| #[trigger]
        m.dom().contains(a) && #[trigger] m.dom().contains(b) && m[a].url_path == m[b].url_path
            ==> a == b
    &&& forall|id: i64| #[trigger] m.dom().contains(id) ==> id <= last
}

/// The registry behind the connection is sound.
pub open spec fn registry_sound(conn: Connection) -> bool {
    sound(rows(conn), last_id(conn))
}

/// A row as SQLite returns it, the kind as text.
pub struct RawRow {
    pub id: i64,
    pub url_path: String,
    pub source_path: String,
    pub kind: String,
    pub name_slug: Option<String>,
    pub created_at: i64,
    pub expires_at: Option<i64>,
    pub ttl_seconds: Option<i64>,
    pub last_hit_at: Option<i64>,
    pub missing_since: Option<i64>,
}

/// The kind that a kind column's text stands for.
pub open spec fn column_kind(s: Seq<char>) -> Kind {
    if s == "file"@ {
        Kind::File
    } else {
        Kind::Dir
    }
}

impl RawRow {
    /// The row without its id.
    pub open spec fn row(self) -> Row {
        Row {
            url_path: self.url_path@,
            source_path: self.source_path@,
            kind: column_kind(self.kind@),
            name_slug: opt_view(self.name_slug),
            created_at: self.created_at,
            expires_at: self.expires_at,
            ttl_seconds: self.ttl_seconds,
            last_hit_at: self.last_hit_at,
            missing_since: self.missing_since,
        }
    }
}

/// `v` lists the rows of `m` that `p` accepts, each once, by ascending id.
pub open spec fn lists(v: Seq<RawRow>, m: Map<i64, Row>, p: spec_fn(Row) -> bool) -> bool {
    &&& forall|i: int, j: int| 0 <= i < j < v.len() ==> (#[trigger] v[i]).id < (#[trigger] v[j]).id
    &&& forall|i: int|
        0 <= i < v.len() ==> m.dom().contains((#[trigger] v[i]).id) && m[v[i].id] == v[i].row()
            && p(v[i].row())
    &&& forall|id: i64| #[trigger]
        m.dom().contains(id) && p(m[id]) ==> exists|i: int| 0 <= i < v.len() && (#[trigger] v[i]).id == id
}

/// The rows are listed by ascending id.
pub open spec fn ascending(v: Seq<RawRow>) -> bool {
    forall|i: int, j: int| 0 <= i < j < v.len() ==> (#[trigger] v[i]).id < (#[trigger] v[j]).id
}

/// Row `i` of those listed has that id.
pub open spec fn listed_at(v: Seq<RawRow>, id: i64, i: int) -> bool {
    0 <= i < v.len() && v[i].id == id
}

/// The table that the listed rows make up.
pub open spec fn table(v: Seq<RawRow>) -> Map<i64, Row> {
    Map::new(
        |id: i64| exists|i: int| listed_at(v, id, i),
        |id: i64| v[choose|i: int| listed_at(v, id, i)].row(),
    )
}

/// The table that the listed rows make up has each of them under its id.
pub proof fn lemma_table(v: Seq<RawRow>)
    requires
        ascending(v),
    ensures
        forall|i: int|
            0 <= i < v.len() ==> table(v).dom().contains((#[trigger] v[i]).id) && table(v)[v[i].id]
                == v[i].row(),
        lists(v, table(v), |row: Row| true),
{
    assert forall|i: int| 0 <= i < v.len() implies table(v).dom().contains((#[trigger] v[i]).id)
        && table(v)[v[i].id] == v[i].row() by {
        assert(listed_at(v, v[i].id, i));
        let k = choose|k: int| listed_at(v, v[i].id, k);
        if k < i {
            assert(v[k].id < v[i].id);
        }
        if i < k {
            assert(v[i].id < v[k].id);
        }
    }
    assert forall|id: i64| #[trigger] table(v).dom().contains(id) implies exists|i: int|
        0 <= i < v.len() && (#[trigger] v[i]).id == id by {
        let k = choose|k: int| listed_at(v, id, k);
        assert(v[k].id == id);
    }
}

/// The whole table is the one that its rows make up.
pub proof fn lemma_whole_table(v: Seq<RawRow>, m: Map<i64, Row>)
    requires
        lists(v, m, |row: Row| true),
    ensures
        ascending(v),
        table(v) == m,
{
    let all = |row: Row| true;
    lemma_table(v);
    assert forall|id: i64| table(v).dom().contains(id) <==> m.dom().contains(id) by {
        if m.dom().contains(id) {
            assert(m.dom().contains(id) && all(m[id]));
            let i = choose|i: int| 0 <= i < v.len() && (#[trigger] v[i]).id == id;
            assert(table(v).dom().contains(v[i].id));
        }
        if table(v).dom().contains(id) {
            let k = choose|k: int| listed_at(v, id, k);
            assert(m.dom().contains(v[k].id));
        }
    }
    assert forall|id: i64| table(v).dom().contains(id) implies table(v)[id] == m[id] by {
        let k = choose|k: int| listed_at(v, id, k);
        assert(table(v)[v[k].id] == v[k].row());
        assert(m[v[k].id] == v[k].row());
    }
    assert(table(v) =~= m);
}

/// Renders an error of `rusqlite` with its `Display`. The text is not stated.
#[verifier::external_body]
fn error_text(e: &rusqlite::Error) -> String {
    e.to_string()
}

/// Reads the whole table with `Connection::prepare` and `Statement::query_map`.
/// Where it succeeds, it returns every row once, by ascending id; whether it
/// does rests on the database file.
#[verifier::external_body]
fn select_all(conn: &Connection) -> (r: Result<Vec<RawRow>, rusqlite::Error>)
    ensures
        r matches Ok(v) ==> lists(v@, rows(*conn), |row: Row| true),
{
    let mut stmt = conn.prepare("SELECT id, url_path, source_path, kind, name_slug, created_at, \
        expires_at, ttl_seconds, last_hit_at, missing_since FROM registrations ORDER BY id")?;
    let found = stmt.query_map([], |row| Ok(RawRow {
        id: row.get(0)?, url_path: row.get(1)?, source_path: row.get(2)?, kind: row.get(3)?,
        name_slug: row.get(4)?, created_at: row.get(5)?, expires_at: row.get(6)?,
        ttl_seconds: row.get(7)?, last_hit_at: row.get(8)?, missing_since: row.get(9)?,
    }))?;
    found.collect()
}

/// Reads the rows of one source path with `Connection::prepare` and
/// `Statement::query_map`. SQLite compares text byte by byte. Where it succeeds,
/// it returns every such row once, by ascending id.
#[verifier::external_body]
fn select_by_source(conn: &Connection, source: &str) -> (r: Result<Vec<RawRow>, rusqlite::Error>)
    ensures
        r matches Ok(v) ==> lists(v@, rows(*conn), |row: Row| row.source_path == source@),
{
    let mut stmt = conn.prepare("SELECT id, url_path, source_path, kind, name_slug, created_at, \
        expires_at, ttl_seconds, last_hit_at, missing_since FROM registrations \
        WHERE source_path = ?1 ORDER BY id")?;
    let found = stmt.query_map((source,), |row| Ok(RawRow {
        id: row.get(0)?, url_path: row.get(1)?, source_path: row.get(2)?, kind: row.get(3)?,
        name_slug: row.get(4)?, created_at: row.get(5)?, expires_at: row.get(6)?,
        ttl_seconds: row.get(7)?, last_hit_at: row.get(8)?, missing_since: row.get(9)?,
    }))?;
    found.collect()
}

/// Reads the row of one id with `Connection::query_row`: the row where the table
/// holds the id, and none where it does not.
#[verifier::external_body]
fn select_by_id(conn: &Connection, id: i64) -> (r: Result<Option<RawRow>, rusqlite::Error>)
    ensures
        r matches Ok(found) ==> found is Some == rows(*conn).dom().contains(id),
        r matches Ok(Some(raw)) ==> raw.id == id && raw.row() == rows(*conn)[id],
{
    conn.query_row("SELECT id, url_path, source_path, kind, name_slug, created_at, \
        expires_at, ttl_seconds, last_hit_at, missing_since FROM registrations \
        WHERE id = ?1", (id,), |row| Ok(RawRow {
        id: row.get(0)?, url_path: row.get(1)?, source_path: row.get(2)?, kind: row.get(3)?,
        name_slug: row.get(4)?, created_at: row.get(5)?, expires_at: row.get(6)?,
        ttl_seconds: row.get(7)?, last_hit_at: row.get(8)?, missing_since: row.get(9)?,
    })).optional()
}

/// Reads the rows of one URL path with `Connection::prepare` and
/// `Statement::query_map`. SQLite compares text byte by byte. Where it succeeds,
/// it returns every such row once, by ascending id.
#[verifier::external_body]
fn select_by_url(conn: &Connection, url: &str) -> (r: Result<Vec<RawRow>, rusqlite::Error>)
    ensures
        r matches Ok(v) ==> lists(v@, rows(*conn), |row: Row| row.url_path == url@),
{
    let mut stmt = conn.prepare("SELECT id, url_path, source_path, kind, name_slug, created_at, \
        expires_at, ttl_seconds, last_hit_at, missing_since FROM registrations \
        WHERE url_path = ?1 ORDER BY id")?;
    let found = stmt.query_map((url,), |row| Ok(RawRow {
        id: row.get(0)?, url_path: row.get(1)?, source_path: row.get(2)?, kind: row.get(3)?,
        name_slug: row.get(4)?, created_at: row.get(5)?, expires_at: row.get(6)?,
        ttl_seconds: row.get(7)?, last_hit_at: row.get(8)?, missing_since: row.get(9)?,
    }))?;
    found.collect()
}

/// Some row has the URL path `url`.
pub open spec fn url_taken(m: Map<i64, Row>, url: Seq<char>) -> bool {
    exists|id: i64| #[trigger] m.dom().contains(id) && m[id].url_path == url
}

/// Inserts a row with `Connection::execute` and reads its id with
/// `Connection::last_insert_rowid`. The id column is `AUTOINCREMENT`: the id is
/// larger than any the table has held. `url_path` is `UNIQUE`: a row with a path
/// that is taken is not inserted. A violated constraint undoes the statement and
/// comes back as `Ok(Err(..))` with SQLite's text; where the kind is one of the two
/// that the table admits, only the path can violate one. What the table holds after
/// any other failure is not stated.
#[verifier::external_body]
fn insert_row(conn: &mut Connection, r: &NewRegistration, kind: &str) -> (res: Result<
    Result<i64, String>,
    rusqlite::Error,
>)
    ensures
        res matches Ok(Ok(id)) ==> id > last_id(*old(conn)) && last_id(*final(conn)) == id
            && !rows(*old(conn)).dom().contains(id) && !url_taken(rows(*old(conn)), r.url_path@)
            && rows(*final(conn)) == rows(*old(conn)).insert(
            id,
            (Row { kind: column_kind(kind@), ..r.row() }),
        ),
        res matches Ok(Err(_)) ==> rows(*final(conn)) == rows(*old(conn)) && last_id(*final(conn))
            == last_id(*old(conn)) && (kind@ == "file"@ || kind@ == "dir"@ ==> url_taken(
            rows(*old(conn)),
            r.url_path@,
        )),
        res is Ok ==> user_version(*final(conn)) == user_version(*old(conn)),
{
    let done = conn.execute("INSERT INTO registrations (url_path, source_path, kind, name_slug, \
        created_at, expires_at, ttl_seconds) VALUES (?1, ?2, ?3, ?4, ?5, ?6, ?7)",
        (&r.url_path, &r.source_path, kind, &r.name_slug, r.created_at, r.expires_at,
            r.ttl_seconds));
    match done {
        Ok(_) => Ok(Ok(conn.last_insert_rowid())),
        Err(e) => match e.sqlite_error_code() {
            Some(rusqlite::ErrorCode::ConstraintViolation) => Ok(Err(e.to_string())),
            _ => Err(e),
        },
    }
}

/// Deletes the row of one id with `Connection::execute`, which returns how many
/// rows it deleted. What the table holds after a failure is not stated.
#[verifier::external_body]
fn delete_row(conn: &mut Connection, id: i64) -> (res: Result<usize, rusqlite::Error>)
    ensures
        res matches Ok(n) ==> n == (if rows(*old(conn)).dom().contains(id) { 1int } else { 0int }),
        res is Ok ==> rows(*final(conn)) == rows(*old(conn)).remove(id),
        res is Ok ==> last_id(*final(conn)) == last_id(*old(conn)),
        res is Ok ==> user_version(*final(conn)) == user_version(*old(conn)),
{
    conn.execute("DELETE FROM registrations WHERE id = ?1", (id,))
}

/// The ids of the rows whose deadline lies before `cutoff`.
pub open spec fn ids_before(m: Map<i64, Row>, cutoff: i64) -> Set<i64> {
    m.dom().filter(|id: i64| m[id].expires_at matches Some(e) && e < cutoff)
}

/// Deletes the rows whose deadline lies before `cutoff` with
/// `Connection::execute`, which returns how many rows it deleted. A deadline that
/// is `NULL` compares as not less. What the table holds after a failure is not
/// stated.
#[verifier::external_body]
fn delete_before(conn: &mut Connection, cutoff: i64) -> (res: Result<usize, rusqlite::Error>)
    ensures
        res matches Ok(n) ==> n == ids_before(rows(*old(conn)), cutoff).len(),
        res is Ok ==> rows(*final(conn)) == rows(*old(conn)).remove_keys(
            ids_before(rows(*old(conn)), cutoff),
        ),
        res is Ok ==> last_id(*final(conn)) == last_id(*old(conn)),
        res is Ok ==> user_version(*final(conn)) == user_version(*old(conn)),
{
    conn.execute("DELETE FROM registrations WHERE expires_at < ?1", (cutoff,))
}

/// `m` with the row of `id`, where there is one, replaced by `f` of it.
pub open spec fn updated(m: Map<i64, Row>, id: i64, f: spec_fn(Row) -> Row) -> Map<i64, Row> {
    if m.dom().contains(id) {
        m.insert(id, f(m[id]))
    } else {
        m
    }
}

/// Sets the last hit and the deadline of the row of one id with
/// `Connection::execute`. What the table holds after a failure is not stated.
#[verifier::external_body]
fn update_hit(conn: &mut Connection, id: i64, hit: i64, deadline: i64) -> (res: Result<
    usize,
    rusqlite::Error,
>)
    ensures
        res is Ok ==> rows(*final(conn)) == updated(
            rows(*old(conn)),
            id,
            |r: Row| (Row { last_hit_at: Some(hit), expires_at: Some(deadline), ..r }),
        ),
        res is Ok ==> last_id(*final(conn)) == last_id(*old(conn)),
        res is Ok ==> user_version(*final(conn)) == user_version(*old(conn)),
{
    conn.execute(
        "UPDATE registrations SET last_hit_at = ?1, expires_at = ?2 WHERE id = ?3",
        (hit, deadline, id),
    )
}

/// Sets `missing_since` of the row of one id with `Connection::execute`. What the
/// table holds after a failure is not stated.
#[verifier::external_body]
fn update_missing(conn: &mut Connection, id: i64, since: Option<i64>) -> (res: Result<
    usize,
    rusqlite::Error,
>)
    ensures
        res is Ok ==> rows(*final(conn)) == updated(
            rows(*old(conn)),
            id,
            |r: Row| (Row { missing_since: since, ..r }),
        ),
        res is Ok ==> last_id(*final(conn)) == last_id(*old(conn)),
        res is Ok ==> user_version(*final(conn)) == user_version(*old(conn)),
{
    conn.execute("UPDATE registrations SET missing_since = ?1 WHERE id = ?2", (since, id))
}

/// Reads the `user_version` of the database with
/// `Connection::pragma_query_value`.
#[verifier::external_body]
fn read_user_version(conn: &Connection) -> (r: Result<i64, rusqlite::Error>)
    ensures
        r matches Ok(v) ==> v == user_version(*conn),
{
    conn.pragma_query_value(None, "user_version", |row| row.get(0))
}

/// The statements that lead from an empty database to schema version 1.
pub const SCHEMA: &'static str = "CREATE TABLE registrations (
    id            INTEGER PRIMARY KEY AUTOINCREMENT,
    url_path      TEXT NOT NULL UNIQUE,
    source_path   TEXT NOT NULL,
    kind          TEXT NOT NULL CHECK (kind IN ('file','dir')),
    name_slug     TEXT,
    created_at    INTEGER NOT NULL,
    expires_at    INTEGER,
    ttl_seconds   INTEGER,
    last_hit_at   INTEGER,
    missing_since INTEGER
);
CREATE INDEX idx_registrations_expires_at  ON registrations(expires_at);
CREATE INDEX idx_registrations_source_path ON registrations(source_path);
";

/// A table without rows.
pub open spec fn no_rows() -> Map<i64, Row> {
    Map::empty()
}

/// Runs statements with `Connection::execute_batch` and sets the `user_version`
/// with `Connection::pragma_update`, both in one transaction. Creating the table
/// fails where it is there already, so once `SCHEMA` has run the table is empty
/// and has held no row. What the database holds after a failure is not stated.
#[verifier::external_body]
fn run_migration(conn: &mut Connection, sql: &str, version: i64) -> (res: Result<
    (),
    rusqlite::Error,
>)
    requires
        0 <= version <= i32::MAX,
    ensures
        res is Ok ==> user_version(*final(conn)) == version,
        res is Ok && sql@ == SCHEMA@ ==> rows(*final(conn)) == no_rows(),
        res is Ok && sql@ == SCHEMA@ ==> last_id(*final(conn)) == 0,
{
    let tx = conn.transaction()?;
    tx.execute_batch(sql)?;
    tx.pragma_update(None, "user_version", version)?;
    tx.commit()
}

/// A point of the machine's clock.
#[verifier::external_type_specification]
#[verifier::external_body]
pub struct ExSystemTime(std::time::SystemTime);

/// `SystemTime::now` reads the clock; nothing holds of every reading.
pub assume_specification[ std::time::SystemTime::now ]() -> (t: std::time::SystemTime);

/// The whole seconds from the epoch to `t`, by `SystemTime::duration_since`, or
/// none where `t` comes before it. What they are rests on the clock.
#[verifier::external_body]
fn seconds_since_epoch(t: std::time::SystemTime) -> Option<u64> {
    t.duration_since(std::time::UNIX_EPOCH).ok().map(|d| d.as_secs())
}

// ---------------------------------------------------------------------------
// Failures
// ---------------------------------------------------------------------------

/// The error was rendered as that message.
pub closed spec fn error_says(e: rusqlite::Error, message: Seq<char>) -> bool {
    exists|text: String| #[trigger] call_ensures(error_text, (&e,), text) && text@ == message
}

/// Reading this database came back with the error.
pub closed spec fn read_error(conn: Connection, e: rusqlite::Error) -> bool {
    ||| call_ensures(select_all, (&conn,), Err(e))
    ||| exists|source: &str| #[trigger] call_ensures(select_by_source, (&conn, source), Err(e))
    ||| exists|id: i64| #[trigger] call_ensures(select_by_id, (&conn, id), Err(e))
    ||| exists|url: &str| #[trigger] call_ensures(select_by_url, (&conn, url), Err(e))
    ||| call_ensures(read_user_version, (&conn,), Err(e))
}

/// Changing this database came back with the error.
pub closed spec fn write_error(conn: Connection, e: rusqlite::Error) -> bool {
    ||| exists|c: &mut Connection, r: &NewRegistration, kind: &str|
        *c == conn && #[trigger] call_ensures(insert_row, (c, r, kind), Err(e))
    ||| exists|c: &mut Connection, id: i64|
        *c == conn && #[trigger] call_ensures(delete_row, (c, id), Err(e))
    ||| exists|c: &mut Connection, cutoff: i64|
        *c == conn && #[trigger] call_ensures(delete_before, (c, cutoff), Err(e))
    ||| exists|c: &mut Connection, id: i64, hit: i64, deadline: i64|
        *c == conn && #[trigger] call_ensures(update_hit, (c, id, hit, deadline), Err(e))
    ||| exists|c: &mut Connection, id: i64, since: Option<i64>|
        *c == conn && #[trigger] call_ensures(update_missing, (c, id, since), Err(e))
    ||| exists|c: &mut Connection, sql: &str, version: i64|
        *c == conn && #[trigger] call_ensures(run_migration, (c, sql, version), Err(e))
}

/// The failure is one of SQLite in reading this database: a call came back with an
/// error, and this is what it said.
pub open spec fn read_fails(conn: Connection, f: DbError) -> bool {
    exists|e: rusqlite::Error| #[trigger]
        read_error(conn, e) && (f matches DbError::Sqlite(m) && error_says(e, m@))
}

/// SQLite failed in reading this database.
pub open spec fn unreadable(conn: Connection) -> bool {
    exists|f: DbError| #[trigger] read_fails(conn, f)
}

/// The failure is one of SQLite in changing this database: a call came back with an
/// error, and this is what it said.
pub open spec fn write_fails(conn: Connection, f: DbError) -> bool {
    exists|e: rusqlite::Error| #[trigger]
        write_error(conn, e) && (f matches DbError::Sqlite(m) && error_says(e, m@))
}

/// The failure is one of SQLite on this database.
pub open spec fn sqlite_fails(conn: Connection, f: DbError) -> bool {
    read_fails(conn, f) || write_fails(conn, f)
}

/// The failure is one of SQLite on the database as it stood at some point.
pub open spec fn fails_on_the_way(f: DbError) -> bool {
    exists|conn: Connection| #[trigger] sqlite_fails(conn, f)
}

/// SQLite failed on the database at some point.
pub open spec fn some_failure() -> bool {
    exists|f: DbError| #[trigger] fails_on_the_way(f)
}

// ---------------------------------------------------------------------------
// Time
// ---------------------------------------------------------------------------

/// `now` is what a reading of the machine's clock comes to.
pub closed spec fn clock_reading(now: i64) -> bool {
    exists|t: std::time::SystemTime, s: Option<u64>|
        #![trigger call_ensures(seconds_since_epoch, (t,), s)]
        {
            &&& call_ensures(std::time::SystemTime::now, (), t)
            &&& call_ensures(seconds_since_epoch, (t,), s)
            &&& now == match s {
                Some(x) => crate::ttl::signed_seconds(x),
                None => 0,
            }
        }
}

/// The time as the registry writes it, given the seconds since the epoch, or
/// none where the clock stands before it.
pub fn unix_seconds(since_epoch: Option<u64>) -> (r: i64)
    ensures
        r == match since_epoch {
            Some(s) => crate::ttl::signed_seconds(s),
            None => 0,
        },
{
    match since_epoch {
        Some(s) => crate::ttl::to_signed(s),
        None => 0,
    }
}

/// The seconds since the epoch on the machine's clock. What the clock says is not
/// stated; `unix_seconds` states what is made of it.
pub fn now_unix() -> (r: i64)
    ensures
        clock_reading(r),
{
    unix_seconds(seconds_since_epoch(std::time::SystemTime::now()))
}

/// The row has not expired at `now`.
pub open spec fn live(r: Row, now: i64) -> bool {
    match r.expires_at {
        None => true,
        Some(e) => e >= now,
    }
}

/// Whether a deadline has not passed at `now`.
fn is_live(expires_at: Option<i64>, now: i64) -> (r: bool)
    ensures
        r == match expires_at {
            None => true,
            Some(e) => e >= now,
        },
{
    match expires_at {
        None => true,
        Some(e) => e >= now,
    }
}

// ---------------------------------------------------------------------------
// Schema
// ---------------------------------------------------------------------------

/// A failure of SQLite, with the text of the error, which is not stated.
fn failed(e: rusqlite::Error) -> (r: DbError)
    ensures
        r matches DbError::Sqlite(m) && error_says(e, m@),
{
    DbError::Sqlite(error_text(&e))
}

/// Brings the database to schema version `v`.
fn apply_migration(conn: &mut Connection, v: i64) -> (res: Result<(), DbError>)
    ensures
        v != 1 ==> res == Err::<(), DbError>(DbError::NoMigration(v)) && *final(conn) == *old(conn),
        v == 1 ==> (res matches Err(e) ==> write_fails(*old(conn), e)),
        res is Ok ==> v == 1 && user_version(*final(conn)) == 1 && rows(*final(conn)) == no_rows()
            && last_id(*final(conn)) == 0,
{
    if v == 1 {
        match run_migration(conn, SCHEMA, v) {
            Ok(()) => Ok(()),
            Err(e) => {
                proof {
                    assert(write_error(*old(conn), e));
                }
                Err(failed(e))
            },
        }
    } else {
        Err(DbError::NoMigration(v))
    }
}

/// Brings the database to the schema version of this library. A database that is
/// there already is left as it is.
pub fn migrate(conn: &mut Connection) -> (res: Result<(), DbError>)
    ensures
        res is Ok ==> user_version(*final(conn)) >= TARGET_USER_VERSION,
        user_version(*old(conn)) >= TARGET_USER_VERSION ==> *final(conn) == *old(conn),
        res is Ok && user_version(*old(conn)) < TARGET_USER_VERSION ==> user_version(*old(conn))
            == 0 && rows(*final(conn)) == no_rows() && last_id(*final(conn)) == 0
            && user_version(*final(conn)) == 1,
        user_version(*old(conn)) < 0 ==> res is Err && *final(conn) == *old(conn),
        res matches Err(DbError::NoMigration(v)) ==> v == user_version(*old(conn)) + 1 && v <= 0,
        res is Ok && registry_sound(*old(conn)) ==> registry_sound(*final(conn)),
        res matches Err(e) ==> fails_on_the_way(e) || e is NoMigration,
{
    loop
        invariant
            *conn == *old(conn) || (user_version(*conn) == 1 && user_version(*old(conn)) == 0
                && rows(*conn) == no_rows() && last_id(*conn) == 0),
        decreases TARGET_USER_VERSION - user_version(*conn),
    {
        let v: i64 = match read_user_version(conn) {
            Ok(v) => v,
            Err(e) => {
                proof {
                    assert(read_error(*conn, e));
                }
                let f: DbError = failed(e);
                proof {
                    assert(sqlite_fails(*conn, f));
                }
                return Err(f);
            },
        };
        if v >= TARGET_USER_VERSION {
            return Ok(());
        }
        let ghost before = *conn;
        match apply_migration(conn, v + 1) {
            Ok(()) => {},
            Err(e) => {
                proof {
                    if e is Sqlite {
                        assert(sqlite_fails(before, e));
                    }
                }
                return Err(e);
            },
        }
    }
}

// ---------------------------------------------------------------------------
// Lookups
// ---------------------------------------------------------------------------

/// The registration that a row stands for.
pub fn row_to_registration(raw: &RawRow) -> (r: Registration)
    ensures
        r.id == raw.id,
        r.row() == raw.row(),
{
    Registration {
        id: raw.id,
        url_path: raw.url_path.clone(),
        source_path: raw.source_path.clone(),
        kind: if text::same(raw.kind.as_str(), "file") {
            Kind::File
        } else {
            Kind::Dir
        },
        name_slug: raw.name_slug.clone(),
        created_at: raw.created_at,
        expires_at: raw.expires_at,
        ttl_seconds: raw.ttl_seconds,
        last_hit_at: raw.last_hit_at,
        missing_since: raw.missing_since,
    }
}

/// The registration is the row that `m` has for its id.
pub open spec fn in_table(m: Map<i64, Row>, r: Registration) -> bool {
    m.dom().contains(r.id) && m[r.id] == r.row()
}

/// The registration of that id, expired or not.
pub fn find_by_id(conn: &Connection, id: i64) -> (res: Result<Option<Registration>, DbError>)
    ensures
        res matches Ok(found) ==> found is Some == rows(*conn).dom().contains(id),
        res matches Ok(Some(r)) ==> r.id == id && in_table(rows(*conn), r),
        res matches Err(e) ==> read_fails(*conn, e),
{
    match select_by_id(conn, id) {
        Ok(Some(raw)) => Ok(Some(row_to_registration(&raw))),
        Ok(None) => Ok(None),
        Err(e) => {
            proof {
                assert(read_error(*conn, e));
            }
            Err(failed(e))
        },
    }
}

/// Row `id` is live and has the source path `source`.
pub open spec fn serves_source(m: Map<i64, Row>, source: Seq<char>, now: i64, id: i64) -> bool {
    m.dom().contains(id) && m[id].source_path == source && live(m[id], now)
}

/// `r` is the live registration of `source`, the oldest where there are more, and
/// none where there is none.
pub open spec fn answers_source(
    m: Map<i64, Row>,
    source: Seq<char>,
    now: i64,
    r: Option<Registration>,
) -> bool {
    match r {
        Some(x) => {
            &&& in_table(m, x)
            &&& serves_source(m, source, now, x.id)
            &&& forall|k: i64| #[trigger] serves_source(m, source, now, k) ==> x.id <= k
        },
        None => forall|k: i64| !#[trigger] serves_source(m, source, now, k),
    }
}

/// The first live row of those listed.
pub fn first_live(found: &Vec<RawRow>, now: i64) -> (r: Option<Registration>)
    ensures
        match r {
            Some(x) => exists|i: int|
                0 <= i < found@.len() && #[trigger] found@[i].id == x.id && found@[i].row()
                    == x.row() && live(x.row(), now) && forall|j: int|
                    0 <= j < i ==> !live((#[trigger] found@[j]).row(), now),
            None => forall|j: int| 0 <= j < found@.len() ==> !live((#[trigger] found@[j]).row(), now),
        },
{
    let mut i: usize = 0;
    while i < found.len()
        invariant
            0 <= i <= found.len(),
            forall|j: int| 0 <= j < i ==> !live((#[trigger] found@[j]).row(), now),
        decreases found.len() - i,
    {
        if is_live(found[i].expires_at, now) {
            let x: Registration = row_to_registration(&found[i]);
            proof {
                assert(found@[i as int].id == x.id);
            }
            return Some(x);
        }
        i = i + 1;
    }
    None
}

/// The live registration of a source path at `now`.
pub fn find_by_source_at(conn: &Connection, source: &str, now: i64) -> (res: Result<
    Option<Registration>,
    DbError,
>)
    ensures
        res matches Ok(r) ==> answers_source(rows(*conn), source@, now, r),
        res matches Err(e) ==> read_fails(*conn, e),
{
    match select_by_source(conn, source) {
        Err(e) => {
            proof {
                assert(read_error(*conn, e));
            }
            Err(failed(e))
        },
        Ok(found) => {
            let r: Option<Registration> = first_live(&found, now);
            proof {
                let m = rows(*conn);
                let p = |row: Row| row.source_path == source@;
                assert(lists(found@, m, p));
                assert forall|k: i64| #[trigger] serves_source(m, source@, now, k) implies exists|i: int|
                    0 <= i < found@.len() && (#[trigger] found@[i]).id == k && live(found@[i].row(), now) by {
                    assert(m.dom().contains(k) && p(m[k]));
                }
                if r is Some {
                    let x = r->0;
                    let i = choose|i: int|
                        0 <= i < found@.len() && #[trigger] found@[i].id == x.id && found@[i].row()
                            == x.row() && live(x.row(), now) && forall|j: int|
                            0 <= j < i ==> !live((#[trigger] found@[j]).row(), now);
                    assert(p(found@[i].row()));
                    assert forall|k: i64| #[trigger] serves_source(m, source@, now, k) implies x.id <= k by {
                        let j = choose|j: int|
                            0 <= j < found@.len() && (#[trigger] found@[j]).id == k && live(found@[j].row(), now);
                        if j < i {
                            assert(!live(found@[j].row(), now));
                        }
                    }
                }
            }
            Ok(r)
        },
    }
}

/// The live registration of a source path.
pub fn find_by_source(conn: &Connection, source: &str) -> (res: Result<
    Option<Registration>,
    DbError,
>)
    ensures
        res is Ok ==> exists|now: i64|
            clock_reading(now) && #[trigger] answers_source(rows(*conn), source@, now, res->Ok_0),
        res matches Err(e) ==> read_fails(*conn, e),
{
    let now: i64 = now_unix();
    let res = find_by_source_at(conn, source, now);
    proof {
        if res is Ok {
            assert(answers_source(rows(*conn), source@, now, res->Ok_0));
        }
    }
    res
}

/// Row `id` has the URL path `url`.
pub open spec fn has_url(m: Map<i64, Row>, url: Seq<char>, id: i64) -> bool {
    m.dom().contains(id) && m[id].url_path == url
}

/// The registration that the first row stands for.
pub fn first_row(found: &Vec<RawRow>) -> (r: Option<Registration>)
    ensures
        match r {
            Some(x) => found@.len() > 0 && x.id == found@[0].id && x.row() == found@[0].row(),
            None => found@.len() == 0,
        },
{
    if found.len() == 0 {
        None
    } else {
        Some(row_to_registration(&found[0]))
    }
}

/// The registration of that URL path, expired or not: an expired row keeps its
/// path until it is removed.
pub fn find_by_url(conn: &Connection, url_path: &str) -> (res: Result<
    Option<Registration>,
    DbError,
>)
    ensures
        res matches Ok(found) ==> found is Some == url_taken(rows(*conn), url_path@),
        res matches Ok(Some(r)) ==> in_table(rows(*conn), r) && r.url_path@ == url_path@ && (
        forall|k: i64| #[trigger] has_url(rows(*conn), url_path@, k) ==> r.id <= k),
        res matches Err(e) ==> read_fails(*conn, e),
{
    match select_by_url(conn, url_path) {
        Err(e) => {
            proof {
                assert(read_error(*conn, e));
            }
            Err(failed(e))
        },
        Ok(found) => {
            proof {
                let m = rows(*conn);
                let p = |row: Row| row.url_path == url_path@;
                assert forall|k: i64| #[trigger] has_url(m, url_path@, k) implies exists|i: int|
                    0 <= i < found@.len() && (#[trigger] found@[i]).id == k by {
                    assert(m.dom().contains(k) && p(m[k]));
                }
                if found@.len() > 0 {
                    assert(p(found@[0].row()));
                    assert(m.dom().contains(found@[0].id) && m[found@[0].id].url_path == url_path@);
                }
                if url_taken(m, url_path@) {
                    let k = choose|k: i64| #[trigger]
                        m.dom().contains(k) && m[k].url_path == url_path@;
                    assert(has_url(m, url_path@, k));
                }
            }
            Ok(first_row(&found))
        },
    }
}

/// `a` is listed before `b`: it is newer, or as old with the smaller id.
pub open spec fn listed_before(a: Registration, b: Registration) -> bool {
    a.created_at > b.created_at || (a.created_at == b.created_at && a.id < b.id)
}

/// `v` holds the live registrations of `m`, each once, the newest first.
pub open spec fn is_listing(m: Map<i64, Row>, now: i64, v: Seq<Registration>) -> bool {
    &&& forall|i: int, j: int| 0 <= i < j < v.len() ==> listed_before(#[trigger] v[i], #[trigger] v[j])
    &&& forall|i: int|
        0 <= i < v.len() ==> in_table(m, #[trigger] v[i]) && live(v[i].row(), now)
    &&& forall|id: i64| #[trigger]
        m.dom().contains(id) && live(m[id], now) ==> exists|i: int|
            0 <= i < v.len() && (#[trigger] v[i]).id == id
}

/// The live rows of those listed, the newest first.
pub fn live_newest_first(found: &Vec<RawRow>, now: i64) -> (r: Vec<Registration>)
    requires
        ascending(found@),
    ensures
        is_listing(table(found@), now, r@),
{
    let ghost m = table(found@);
    proof {
        lemma_table(found@);
    }
    let mut out: Vec<Registration> = Vec::new();
    let mut i: usize = 0;
    while i < found.len()
        invariant
            0 <= i <= found.len(),
            lists(found@, m, |row: Row| true),
            forall|a: int, b: int|
                0 <= a < b < out@.len() ==> listed_before(#[trigger] out@[a], #[trigger] out@[b]),
            forall|a: int|
                0 <= a < out@.len() ==> in_table(m, #[trigger] out@[a]) && live(out@[a].row(), now),
            forall|a: int|
                0 <= a < out@.len() && i < found@.len() ==> (#[trigger] out@[a]).id
                    < found@[i as int].id,
            forall|k: int|
                0 <= k < i && live((#[trigger] found@[k]).row(), now) ==> exists|a: int|
                    0 <= a < out@.len() && (#[trigger] out@[a]).id == found@[k].id,
        decreases found.len() - i,
    {
        let ghost before = out@;
        if is_live(found[i].expires_at, now) {
            let x: Registration = row_to_registration(&found[i]);
            let mut p: usize = out.len();
            while p > 0 && out[p - 1].created_at < x.created_at
                invariant
                    p <= out.len(),
                    out@ == before,
                    forall|a: int|
                        p <= a < out@.len() ==> (#[trigger] out@[a]).created_at < x.created_at,
                decreases p,
            {
                p = p - 1;
            }
            let ghost gx = x;
            out.insert(p, x);
            proof {
                assert(out@ =~= before.insert(p as int, gx));
                assert forall|a: int, b: int| 0 <= a < b < out@.len() implies listed_before(
                    #[trigger] out@[a],
                    #[trigger] out@[b],
                ) by {
                    if a < p && b == p {
                        assert(out@[a] == before[a]);
                        if a < p - 1 {
                            assert(listed_before(before[a], before[p - 1]));
                        }
                    } else if a == p {
                        assert(out@[b] == before[b - 1]);
                    } else if a < p && b > p {
                        assert(out@[a] == before[a] && out@[b] == before[b - 1]);
                    } else if a > p {
                        assert(out@[a] == before[a - 1] && out@[b] == before[b - 1]);
                    } else {
                        assert(out@[a] == before[a] && out@[b] == before[b]);
                    }
                }
                assert forall|a: int| 0 <= a < out@.len() implies in_table(m, #[trigger] out@[a])
                    && live(out@[a].row(), now) && (out@[a].id <= found@[i as int].id) by {
                    if a < p {
                        assert(out@[a] == before[a]);
                    } else if a > p {
                        assert(out@[a] == before[a - 1]);
                    }
                }
                assert forall|k: int|
                    0 <= k < i + 1 && live((#[trigger] found@[k]).row(), now) implies exists|a: int|
                    0 <= a < out@.len() && (#[trigger] out@[a]).id == found@[k].id by {
                    if k == i {
                        assert(out@[p as int].id == found@[k].id);
                    } else {
                        let a = choose|a: int|
                            0 <= a < before.len() && (#[trigger] before[a]).id == found@[k].id;
                        if a < p {
                            assert(out@[a] == before[a]);
                        } else {
                            assert(out@[a + 1] == before[a]);
                        }
                    }
                }
            }
        }
        i = i + 1;
    }
    proof {
        assert forall|id: i64| #[trigger] m.dom().contains(id) && live(m[id], now) implies exists|
            a: int,
        | 0 <= a < out@.len() && (#[trigger] out@[a]).id == id by {
            let p = |row: Row| true;
            assert(m.dom().contains(id) && p(m[id]));
            let k = choose|k: int| 0 <= k < found@.len() && (#[trigger] found@[k]).id == id;
            assert(live(found@[k].row(), now));
        }
    }
    out
}

/// The live registrations at `now`, the newest first.
pub fn list_at(conn: &Connection, now: i64) -> (res: Result<Vec<Registration>, DbError>)
    ensures
        res matches Ok(v) ==> is_listing(rows(*conn), now, v@),
        res matches Err(e) ==> read_fails(*conn, e),
{
    match select_all(conn) {
        Err(e) => {
            proof {
                assert(read_error(*conn, e));
            }
            Err(failed(e))
        },
        Ok(found) => {
            proof {
                lemma_whole_table(found@, rows(*conn));
            }
            Ok(live_newest_first(&found, now))
        },
    }
}

/// The live registrations, the newest first.
pub fn list(conn: &Connection) -> (res: Result<Vec<Registration>, DbError>)
    ensures
        res is Ok ==> exists|now: i64|
            clock_reading(now) && #[trigger] is_listing(rows(*conn), now, res->Ok_0@),
        res matches Err(e) ==> read_fails(*conn, e),
{
    let now: i64 = now_unix();
    let res = list_at(conn, now);
    proof {
        if res is Ok {
            assert(is_listing(rows(*conn), now, res->Ok_0@));
        }
    }
    res
}

/// The ids of the live rows.
pub open spec fn live_ids(m: Map<i64, Row>, now: i64) -> Set<i64> {
    m.dom().filter(|id: i64| live(m[id], now))
}

/// How many of the rows listed are live at `now`, at most the largest number there
/// is.
pub fn count_live(found: &Vec<RawRow>, now: i64) -> (n: i64)
    requires
        ascending(found@),
    ensures
        live_ids(table(found@), now).finite(),
        n == if live_ids(table(found@), now).len() <= i64::MAX {
            live_ids(table(found@), now).len() as int
        } else {
            i64::MAX as int
        },
{
    let ghost m = table(found@);
    proof {
        lemma_table(found@);
    }
    let ghost mut seen: Set<i64> = Set::empty();
    let mut n: i64 = 0;
    let mut i: usize = 0;
    while i < found.len()
        invariant
            0 <= i <= found.len(),
            lists(found@, m, |row: Row| true),
            seen.finite(),
            forall|id: i64| #[trigger] seen.contains(id) ==> m.dom().contains(id) && live(m[id], now),
            forall|id: i64| #[trigger]
                seen.contains(id) && i < found@.len() ==> id < found@[i as int].id,
            forall|k: int|
                0 <= k < i && live((#[trigger] found@[k]).row(), now) ==> seen.contains(found@[k].id),
            n >= 0,
            if seen.len() <= i64::MAX {
                n == seen.len()
            } else {
                n == i64::MAX
            },
        decreases found.len() - i,
    {
        if is_live(found[i].expires_at, now) {
            proof {
                assert(!seen.contains(found@[i as int].id));
                seen = seen.insert(found@[i as int].id);
            }
            if n < i64::MAX {
                n = n + 1;
            }
        }
        i = i + 1;
    }
    proof {
        assert forall|id: i64| live_ids(m, now).contains(id) implies seen.contains(id) by {
            let p = |row: Row| true;
            assert(m.dom().contains(id) && p(m[id]));
            let k = choose|k: int| 0 <= k < found@.len() && (#[trigger] found@[k]).id == id;
            assert(live(found@[k].row(), now));
        }
        assert(seen =~= live_ids(m, now));
    }
    n
}

/// How many rows are live at `now`.
pub fn count_at(conn: &Connection, now: i64) -> (res: Result<i64, DbError>)
    ensures
        res matches Ok(n) ==> live_ids(rows(*conn), now).finite(),
        res matches Ok(n) ==> (live_ids(rows(*conn), now).len() <= i64::MAX ==> n == live_ids(
            rows(*conn),
            now,
        ).len()),
        res matches Err(e) ==> read_fails(*conn, e),
{
    match select_all(conn) {
        Err(e) => {
            proof {
                assert(read_error(*conn, e));
            }
            Err(failed(e))
        },
        Ok(found) => {
            proof {
                lemma_whole_table(found@, rows(*conn));
            }
            Ok(count_live(&found, now))
        },
    }
}

/// How many rows are live.
pub fn count(conn: &Connection) -> (res: Result<i64, DbError>)
    ensures
        res is Ok ==> exists|now: i64|
            #![trigger live_ids(rows(*conn), now)]
            clock_reading(now) && live_ids(rows(*conn), now).finite() && (live_ids(
                rows(*conn),
                now,
            ).len() <= i64::MAX ==> res->Ok_0 == live_ids(rows(*conn), now).len()),
        res matches Err(e) ==> read_fails(*conn, e),
{
    let now: i64 = now_unix();
    let res = count_at(conn, now);
    proof {
        assert(live_ids(rows(*conn), now) == live_ids(rows(*conn), now));
    }
    res
}

/// Row `id` is a live file with the URL path `path`.
pub open spec fn file_at(m: Map<i64, Row>, path: Seq<char>, now: i64, id: i64) -> bool {
    m.dom().contains(id) && m[id].kind == Kind::File && m[id].url_path == path && live(m[id], now)
}

/// Row `id` is a live folder whose URL path begins the path `path`.
pub open spec fn mount_of(m: Map<i64, Row>, path: Seq<char>, now: i64, id: i64) -> bool {
    m.dom().contains(id) && m[id].kind == Kind::Dir && has_prefix(path, m[id].url_path) && live(
        m[id],
        now,
    )
}

/// `r` answers a request for `path`: the live file of exactly that path, else the
/// live folder with the longest URL path that begins it together with what
/// follows, else nothing.
pub open spec fn answers_request(
    m: Map<i64, Row>,
    path: Seq<char>,
    now: i64,
    r: Option<ServeMatch>,
) -> bool {
    match r {
        Some(x) => {
            &&& in_table(m, x.registration)
            &&& match x.suffix {
                None => file_at(m, path, now, x.registration.id),
                Some(rest) => {
                    &&& forall|k: i64| !#[trigger] file_at(m, path, now, k)
                    &&& mount_of(m, path, now, x.registration.id)
                    &&& path == x.registration.url_path@ + rest@
                    &&& forall|k: i64| #[trigger]
                        mount_of(m, path, now, k) ==> m[k].url_path.len()
                            <= x.registration.url_path@.len()
                },
            }
        },
        None => {
            &&& forall|k: i64| !#[trigger] file_at(m, path, now, k)
            &&& forall|k: i64| !#[trigger] mount_of(m, path, now, k)
        },
    }
}

/// The position of the listed live folder with the longest URL path that begins
/// `path`, or the length of the list.
fn longest_mount(found: &Vec<RawRow>, path: &str, now: i64) -> (r: usize)
    ensures
        r <= found.len(),
        r < found.len() ==> {
            let x = found@[r as int].row();
            x.kind == Kind::Dir && has_prefix(path@, x.url_path) && live(x, now)
        },
        forall|j: int|
            #![trigger found@[j]]
            0 <= j < found@.len() && found@[j].row().kind == Kind::Dir && has_prefix(
                path@,
                found@[j].row().url_path,
            ) && live(found@[j].row(), now) ==> r < found.len() && found@[j].url_path@.len()
                <= found@[r as int].url_path@.len(),
{
    let mut best: usize = found.len();
    let mut best_len: usize = 0;
    let mut i: usize = 0;
    while i < found.len()
        invariant
            0 <= i <= found.len(),
            best <= found.len(),
            best < found.len() ==> best < i && best_len == found@[best as int].url_path@.len() && {
                let x = found@[best as int].row();
                x.kind == Kind::Dir && has_prefix(path@, x.url_path) && live(x, now)
            },
            forall|j: int|
                #![trigger found@[j]]
                0 <= j < i && found@[j].row().kind == Kind::Dir && has_prefix(
                    path@,
                    found@[j].row().url_path,
                ) && live(found@[j].row(), now) ==> best < found.len() && found@[j].url_path@.len()
                    <= best_len,
        decreases found.len() - i,
    {
        let raw: &RawRow = &found[i];
        if !text::same(raw.kind.as_str(), "file") && text::starts_with(path, raw.url_path.as_str())
            && is_live(raw.expires_at, now) {
            let len: usize = text::chars_of(raw.url_path.as_str()).len();
            if best == found.len() || len > best_len {
                best = i;
                best_len = len;
            }
        }
        i = i + 1;
    }
    best
}

/// The live file at `path` among the rows listed.
pub fn file_match(found: &Vec<RawRow>, path: &str, now: i64) -> (r: Option<ServeMatch>)
    requires
        ascending(found@),
    ensures
        match r {
            Some(x) => x.suffix is None && in_table(table(found@), x.registration) && file_at(
                table(found@),
                path@,
                now,
                x.registration.id,
            ),
            None => forall|k: i64| !#[trigger] file_at(table(found@), path@, now, k),
        },
{
    let ghost m = table(found@);
    proof {
        lemma_table(found@);
    }
    let mut i: usize = 0;
    while i < found.len()
        invariant
            0 <= i <= found.len(),
            lists(found@, m, |row: Row| true),
            m == table(found@),
            forall|j: int| 0 <= j < i ==> !file_at(m, path@, now, (#[trigger] found@[j]).id),
        decreases found.len() - i,
    {
        let raw: &RawRow = &found[i];
        if text::same(raw.kind.as_str(), "file") && text::same(raw.url_path.as_str(), path)
            && is_live(raw.expires_at, now) {
            return Some(ServeMatch { registration: row_to_registration(raw), suffix: None });
        }
        i = i + 1;
    }
    proof {
        assert forall|k: i64| !#[trigger] file_at(m, path@, now, k) by {
            if file_at(m, path@, now, k) {
                let p = |row: Row| true;
                assert(m.dom().contains(k) && p(m[k]));
                let j = choose|j: int| 0 <= j < found@.len() && (#[trigger] found@[j]).id == k;
                assert(!file_at(m, path@, now, found@[j].id));
            }
        }
    }
    None
}

/// What answers a request for `path` at `now`, given all rows, where no live file is
/// registered at exactly that path.
pub fn folder_match(found: &Vec<RawRow>, path: &str, now: i64) -> (r: Option<ServeMatch>)
    requires
        ascending(found@),
        forall|k: i64| !#[trigger] file_at(table(found@), path@, now, k),
    ensures
        answers_request(table(found@), path@, now, r),
{
    let ghost m = table(found@);
    proof {
        lemma_table(found@);
    }
    let best: usize = longest_mount(found, path, now);
    proof {
        assert forall|k: i64| #[trigger] mount_of(m, path@, now, k) implies best < found.len()
            && m[k].url_path.len() <= found@[best as int].url_path@.len() by {
            let p = |row: Row| true;
            assert(m.dom().contains(k) && p(m[k]));
            let j = choose|j: int| 0 <= j < found@.len() && (#[trigger] found@[j]).id == k;
            assert(found@[j].row() == m[k]);
        }
    }
    if best == found.len() {
        return None;
    }
    let r: Registration = row_to_registration(&found[best]);
    match text::strip_prefix(path, r.url_path.as_str()) {
        Some(rest) => {
            proof {
                let u = r.url_path@;
                assert(path@ =~= path@.take(u.len() as int) + path@.skip(u.len() as int));
                assert(m.dom().contains(found@[best as int].id));
                assert(mount_of(m, path@, now, r.id));
            }
            Some(ServeMatch { registration: r, suffix: Some(rest) })
        },
        None => None,
    }
}

/// What answers a request for `request_path` at `now`: the file registered at
/// exactly that path, else the folder with the longest URL path that begins it.
/// The comparison is literal: no character of a URL path stands for another.
pub fn find_for_request_at(conn: &Connection, request_path: &str, now: i64) -> (res: Result<
    Option<ServeMatch>,
    DbError,
>)
    ensures
        res matches Ok(r) ==> answers_request(rows(*conn), request_path@, now, r),
        res matches Err(e) ==> read_fails(*conn, e),
{
    let ghost m = rows(*conn);
    let same_path: Vec<RawRow> = match select_by_url(conn, request_path) {
        Err(e) => {
            proof {
                assert(read_error(*conn, e));
            }
            return Err(failed(e));
        },
        Ok(v) => v,
    };
    proof {
        lemma_table(same_path@);
        lemma_files_at_path(same_path@, m, request_path@, now);
    }
    match file_match(&same_path, request_path, now) {
        Some(x) => {
            return Ok(Some(x));
        },
        None => {
            proof {
                assert forall|k: i64| !#[trigger] file_at(m, request_path@, now, k) by {
                    assert(!file_at(table(same_path@), request_path@, now, k));
                }
            }
        },
    }
    match select_all(conn) {
        Err(e) => {
            proof {
                assert(read_error(*conn, e));
            }
            Err(failed(e))
        },
        Ok(found) => {
            proof {
                lemma_whole_table(found@, m);
            }
            Ok(folder_match(&found, request_path, now))
        },
    }
}

/// The rows of a URL path hold every file at that path.
proof fn lemma_files_at_path(v: Seq<RawRow>, m: Map<i64, Row>, path: Seq<char>, now: i64)
    requires
        ascending(v),
        lists(v, m, |row: Row| row.url_path == path),
    ensures
        forall|k: i64| #[trigger] file_at(table(v), path, now, k) <==> file_at(m, path, now, k),
        forall|k: i64| #[trigger] table(v).dom().contains(k) ==> m.dom().contains(k) && m[k] == table(
            v,
        )[k],
{
    let p = |row: Row| row.url_path == path;
    let all = |row: Row| true;
    lemma_table(v);
    assert forall|k: i64| #[trigger] table(v).dom().contains(k) implies m.dom().contains(k) && m[k]
        == table(v)[k] by {
        assert(table(v).dom().contains(k) && all(table(v)[k]));
        let i = choose|i: int| 0 <= i < v.len() && (#[trigger] v[i]).id == k;
        assert(table(v)[v[i].id] == v[i].row());
    }
    assert forall|k: i64| file_at(m, path, now, k) implies #[trigger] file_at(table(v), path, now, k) by {
        assert(m.dom().contains(k) && p(m[k]));
        let i = choose|i: int| 0 <= i < v.len() && (#[trigger] v[i]).id == k;
        assert(table(v)[v[i].id] == v[i].row());
    }
}

/// What answers a request for `request_path`.
pub fn find_for_request(conn: &Connection, request_path: &str) -> (res: Result<
    Option<ServeMatch>,
    DbError,
>)
    ensures
        res is Ok ==> exists|now: i64|
            clock_reading(now) && #[trigger] answers_request(
                rows(*conn),
                request_path@,
                now,
                res->Ok_0,
            ),
        res matches Err(e) ==> read_fails(*conn, e),
{
    let now: i64 = now_unix();
    let res = find_for_request_at(conn, request_path, now);
    proof {
        if res is Ok {
            assert(answers_request(rows(*conn), request_path@, now, res->Ok_0));
        }
    }
    res
}

// ---------------------------------------------------------------------------
// Changes
// ---------------------------------------------------------------------------

/// The registration that was inserted, given what reading it back comes to.
pub fn read_back(found: Result<Option<Registration>, DbError>) -> (r: Result<Registration, DbError>)
    ensures
        r == match found {
            Ok(Some(x)) => Ok::<Registration, DbError>(x),
            Ok(None) => Err::<Registration, DbError>(DbError::Vanished),
            Err(e) => Err::<Registration, DbError>(e),
        },
{
    match found {
        Ok(Some(x)) => Ok(x),
        Ok(None) => Err(DbError::Vanished),
        Err(e) => Err(e),
    }
}

/// Adds a registration. A URL path that is taken is refused.
pub fn insert(conn: &mut Connection, r: &NewRegistration) -> (res: Result<Registration, DbError>)
    ensures
        res matches Ok(x) ==> {
            &&& !url_taken(rows(*old(conn)), r.url_path@)
            &&& !rows(*old(conn)).dom().contains(x.id)
            &&& rows(*final(conn)) == rows(*old(conn)).insert(x.id, r.row())
            &&& x.row() == r.row()
            &&& x.id > last_id(*old(conn))
            &&& last_id(*final(conn)) == x.id
            &&& user_version(*final(conn)) == user_version(*old(conn))
        },
        res matches Err(DbError::Constraint(_)) ==> url_taken(rows(*old(conn)), r.url_path@)
            && rows(*final(conn)) == rows(*old(conn)) && last_id(*final(conn)) == last_id(
            *old(conn),
        ),
        res matches Err(e) ==> e is Constraint || write_fails(*old(conn), e) || read_fails(
            *final(conn),
            e,
        ),
        res is Ok && registry_sound(*old(conn)) ==> registry_sound(*final(conn)),
{
    proof {
        lemma_kind_names_differ();
    }
    let id: i64 = match insert_row(conn, r, r.kind.as_str()) {
        Err(e) => {
            proof {
                assert(write_error(*old(conn), e));
            }
            return Err(failed(e));
        },
        Ok(Err(m)) => {
            return Err(DbError::Constraint(m));
        },
        Ok(Ok(id)) => id,
    };
    read_back(find_by_id(conn, id))
}

/// Removes the registration of that id and says whether there was one.
pub fn delete(conn: &mut Connection, id: i64) -> (res: Result<bool, DbError>)
    ensures
        res matches Ok(b) ==> {
            &&& b == rows(*old(conn)).dom().contains(id)
            &&& rows(*final(conn)) == rows(*old(conn)).remove(id)
            &&& last_id(*final(conn)) == last_id(*old(conn))
            &&& user_version(*final(conn)) == user_version(*old(conn))
        },
        res is Ok && registry_sound(*old(conn)) ==> registry_sound(*final(conn)),
        res matches Err(e) ==> write_fails(*old(conn), e),
{
    match delete_row(conn, id) {
        Ok(n) => Ok(n > 0),
        Err(e) => {
            proof {
                assert(write_error(*old(conn), e));
            }
            Err(failed(e))
        },
    }
}

/// The row after a hit at `now`: a live row with a lifetime expires that lifetime
/// after the hit; any other row is left as it is.
pub open spec fn touched(r: Row, now: i64) -> Row {
    match (r.ttl_seconds, r.expires_at) {
        (Some(t), Some(e)) => if e >= now {
            Row { last_hit_at: Some(now), expires_at: Some((now + t) as i64), ..r }
        } else {
            r
        },
        _ => r,
    }
}

/// A hit at `now` is written to the row: it has a lifetime and a deadline that has
/// not passed.
pub open spec fn slides(m: Map<i64, Row>, id: i64, now: i64) -> bool {
    &&& m.dom().contains(id)
    &&& m[id].ttl_seconds is Some
    &&& m[id].expires_at matches Some(e)
    &&& e >= now
}

/// The deadline that a hit at `now` sets is past the end of time.
pub open spec fn touch_overflows(r: Row, now: i64) -> bool {
    match (r.ttl_seconds, r.expires_at) {
        (Some(t), Some(e)) => e >= now && !(i64::MIN <= now + t <= i64::MAX),
        _ => false,
    }
}

/// The deadline that a hit at `now` on a registration sets, or none where the hit
/// changes nothing.
pub fn slide(r: &Registration, now: i64) -> (res: Result<Option<i64>, DbError>)
    ensures
        match res {
            Ok(Some(deadline)) => !touch_overflows(r.row(), now) && touched(r.row(), now) == (Row {
                last_hit_at: Some(now),
                expires_at: Some(deadline),
                ..r.row()
            }) && r.ttl_seconds is Some && r.expires_at is Some && live(r.row(), now),
            Ok(None) => touched(r.row(), now) == r.row() && (r.ttl_seconds is None || r.expires_at
                is None || !live(r.row(), now)),
            Err(e) => e is DeadlineOverflow && touch_overflows(r.row(), now),
        },
{
    match (r.ttl_seconds, r.expires_at) {
        (Some(t), Some(e)) => {
            if e < now {
                return Ok(None);
            }
            match now.checked_add(t) {
                None => Err(DbError::DeadlineOverflow),
                Some(deadline) => Ok(Some(deadline)),
            }
        },
        _ => Ok(None),
    }
}

/// Slides the deadline of a registration after a hit at `now`. A registration
/// without a lifetime is not written, and one that has expired is not brought
/// back.
pub fn touch(conn: &mut Connection, id: i64, now: i64, ttl_seconds: Option<i64>) -> (res: Result<
    (),
    DbError,
>)
    ensures
        ttl_seconds is None ==> res is Ok && *final(conn) == *old(conn),
        ttl_seconds is Some && res is Ok ==> rows(*final(conn)) == updated(
            rows(*old(conn)),
            id,
            |r: Row| touched(r, now),
        ) && last_id(*final(conn)) == last_id(*old(conn)) && user_version(*final(conn))
            == user_version(*old(conn)),
        res is Ok && ttl_seconds is Some && rows(*old(conn)).dom().contains(id)
            ==> !touch_overflows(rows(*old(conn))[id], now),
        // Nothing is written to a row that the hit does not slide, even where SQLite
        // fails.
        !slides(rows(*old(conn)), id, now) ==> *final(conn) == *old(conn),
        res matches Err(DbError::DeadlineOverflow) ==> *final(conn) == *old(conn) && rows(
            *old(conn),
        ).dom().contains(id) && touch_overflows(rows(*old(conn))[id], now),
        res is Ok && registry_sound(*old(conn)) ==> registry_sound(*final(conn)),
        res matches Err(e) ==> sqlite_fails(*old(conn), e) || e is DeadlineOverflow,
{
    if ttl_seconds.is_none() {
        return Ok(());
    }
    let found: Option<Registration> = match find_by_id(conn, id) {
        Err(e) => {
            return Err(e);
        },
        Ok(x) => x,
    };
    let ghost m = rows(*conn);
    let r: Registration = match found {
        None => {
            return Ok(());
        },
        Some(x) => x,
    };
    match slide(&r, now) {
        Err(e) => Err(e),
        Ok(None) => {
            proof {
                assert(m.insert(id, touched(m[id], now)) =~= m);
            }
            Ok(())
        },
        Ok(Some(deadline)) => match update_hit(conn, id, now, deadline) {
            Ok(_) => Ok(()),
            Err(x) => {
                proof {
                    assert(write_error(*old(conn), x));
                }
                Err(failed(x))
            },
        },
    }
}

/// The row with the time since when its source is missing, the first such time.
pub open spec fn missed(r: Row, now: i64) -> Row {
    if r.missing_since is None {
        Row { missing_since: Some(now), ..r }
    } else {
        r
    }
}

/// Whether it is to be noted that the source of the registration that was looked up
/// is missing: it is there and has no such note.
pub fn to_mark(found: &Option<Registration>) -> (r: bool)
    ensures
        r == (*found matches Some(x) && x.missing_since is None),
{
    match found {
        Some(x) => x.missing_since.is_none(),
        None => false,
    }
}

/// Notes that the source of a registration was missing at `now`. The first such
/// note stands.
pub fn mark_missing(conn: &mut Connection, id: i64, now: i64) -> (res: Result<(), DbError>)
    ensures
        res is Ok ==> rows(*final(conn)) == updated(
            rows(*old(conn)),
            id,
            |r: Row| missed(r, now),
        ) && last_id(*final(conn)) == last_id(*old(conn)) && user_version(*final(conn))
            == user_version(*old(conn)),
        res is Ok && registry_sound(*old(conn)) ==> registry_sound(*final(conn)),
        res matches Err(e) ==> sqlite_fails(*old(conn), e),
{
    let ghost m = rows(*conn);
    let found: Option<Registration> = match find_by_id(conn, id) {
        Err(e) => {
            return Err(e);
        },
        Ok(x) => x,
    };
    if !to_mark(&found) {
        proof {
            if m.dom().contains(id) {
                assert(m.insert(id, missed(m[id], now)) =~= m);
            }
        }
        return Ok(());
    }
    match update_missing(conn, id, Some(now)) {
        Ok(_) => Ok(()),
        Err(e) => {
            proof {
                assert(write_error(*old(conn), e));
            }
            Err(failed(e))
        },
    }
}

/// Notes that the source of a registration is there.
pub fn clear_missing(conn: &mut Connection, id: i64) -> (res: Result<(), DbError>)
    ensures
        res is Ok ==> rows(*final(conn)) == updated(
            rows(*old(conn)),
            id,
            |r: Row| (Row { missing_since: None, ..r }),
        ) && last_id(*final(conn)) == last_id(*old(conn)) && user_version(*final(conn))
            == user_version(*old(conn)),
        res is Ok && registry_sound(*old(conn)) ==> registry_sound(*final(conn)),
        res matches Err(e) ==> write_fails(*old(conn), e),
{
    match update_missing(conn, id, None) {
        Ok(_) => Ok(()),
        Err(e) => {
            proof {
                assert(write_error(*old(conn), e));
            }
            Err(failed(e))
        },
    }
}

/// Removes the registrations that have expired at `now` and returns how many.
pub fn reap_expired_at(conn: &mut Connection, now: i64) -> (res: Result<u64, DbError>)
    ensures
        res matches Ok(n) ==> {
            &&& n == ids_before(rows(*old(conn)), now).len()
            &&& rows(*final(conn)) == rows(*old(conn)).remove_keys(
                ids_before(rows(*old(conn)), now),
            )
            &&& last_id(*final(conn)) == last_id(*old(conn))
            &&& user_version(*final(conn)) == user_version(*old(conn))
        },
        res is Ok && registry_sound(*old(conn)) ==> registry_sound(*final(conn)),
        res matches Err(e) ==> write_fails(*old(conn), e),
{
    match delete_before(conn, now) {
        Ok(n) => Ok(n as u64),
        Err(e) => {
            proof {
                assert(write_error(*old(conn), e));
            }
            Err(failed(e))
        },
    }
}

/// Removes the registrations that have expired and returns how many.
pub fn reap_expired(conn: &mut Connection) -> (res: Result<u64, DbError>)
    ensures
        res is Ok ==> exists|now: i64|
            #![trigger ids_before(rows(*old(conn)), now)]
            clock_reading(now) && res->Ok_0 == ids_before(rows(*old(conn)), now).len() && rows(*final(conn)) == rows(
                *old(conn),
            ).remove_keys(ids_before(rows(*old(conn)), now)) && last_id(*final(conn)) == last_id(
                *old(conn),
            ),
        res is Ok && registry_sound(*old(conn)) ==> registry_sound(*final(conn)),
        res matches Err(e) ==> write_fails(*old(conn), e),
{
    let now: i64 = now_unix();
    reap_expired_at(conn, now)
}

/// What is known of a source path.
#[derive(Debug, Clone, Copy, PartialEq, Eq, Structural)]
pub enum SourceState {
    /// Something is there.
    Present,
    /// Nothing is there.
    NotFound,
    /// It could not be looked at.
    Unknown,
}

/// The registrations whose source is known to be gone.
pub open spec fn gone_ids(sources: Seq<(i64, SourceState)>) -> Set<i64> {
    Set::new(|id: i64| sources.contains((id, SourceState::NotFound)))
}

/// `v` names the id and the source path of every row of `m`, each once, by
/// ascending id.
pub open spec fn names_sources(v: Seq<(i64, String)>, m: Map<i64, Row>) -> bool {
    &&& forall|i: int, j: int| 0 <= i < j < v.len() ==> (#[trigger] v[i]).0 < (#[trigger] v[j]).0
    &&& forall|i: int|
        0 <= i < v.len() ==> m.dom().contains((#[trigger] v[i]).0) && m[v[i].0].source_path
            == v[i].1@
    &&& forall|id: i64| #[trigger]
        m.dom().contains(id) ==> exists|i: int| 0 <= i < v.len() && (#[trigger] v[i]).0 == id
}

/// The id and the source path of each of the rows.
pub fn source_paths(found: &Vec<RawRow>) -> (out: Vec<(i64, String)>)
    ensures
        out@.len() == found@.len(),
        forall|i: int|
            0 <= i < out@.len() ==> (#[trigger] out@[i]).0 == found@[i].id && out@[i].1@
                == found@[i].source_path@,
{
    let mut out: Vec<(i64, String)> = Vec::new();
    let mut i: usize = 0;
    while i < found.len()
        invariant
            0 <= i <= found.len(),
            out@.len() == i,
            forall|j: int|
                0 <= j < i ==> (#[trigger] out@[j]).0 == found@[j].id && out@[j].1@
                    == found@[j].source_path@,
        decreases found.len() - i,
    {
        out.push((found[i].id, found[i].source_path.clone()));
        i = i + 1;
    }
    out
}

/// The source path of every registration, to be looked at.
pub fn sources(conn: &Connection) -> (res: Result<Vec<(i64, String)>, DbError>)
    ensures
        res matches Ok(v) ==> names_sources(v@, rows(*conn)),
        res matches Err(e) ==> read_fails(*conn, e),
{
    let found: Vec<RawRow> = match select_all(conn) {
        Err(e) => {
            proof {
                assert(read_error(*conn, e));
            }
            return Err(failed(e));
        },
        Ok(v) => v,
    };
    let out: Vec<(i64, String)> = source_paths(&found);
    proof {
        let m = rows(*conn);
        let p = |row: Row| true;
        assert(lists(found@, m, p));
        assert forall|a: int, b: int| 0 <= a < b < out@.len() implies (#[trigger] out@[a]).0 < (
        #[trigger] out@[b]).0 by {
            assert(found@[a].id < found@[b].id);
        }
        assert forall|a: int| 0 <= a < out@.len() implies m.dom().contains((#[trigger] out@[a]).0)
            && m[out@[a].0].source_path == out@[a].1@ by {
            assert(m.dom().contains(found@[a].id));
        }
        assert forall|id: i64| #[trigger] m.dom().contains(id) implies exists|a: int|
            0 <= a < out@.len() && (#[trigger] out@[a]).0 == id by {
            assert(m.dom().contains(id) && p(m[id]));
            let a = choose|a: int| 0 <= a < found@.len() && (#[trigger] found@[a]).id == id;
            assert(out@[a].0 == id);
        }
    }
    Ok(out)
}

/// Removes the registrations that have expired at `now`, then those whose source
/// is known to be gone. A source that could not be looked at keeps its
/// registration.
pub fn prune_on_load_at(conn: &mut Connection, now: i64, sources: &Vec<(i64, SourceState)>) -> (res:
    Result<PruneStats, DbError>)
    ensures
        res matches Ok(stats) ==> {
            let kept = rows(*old(conn)).remove_keys(ids_before(rows(*old(conn)), now));
            &&& rows(*final(conn)) == kept.remove_keys(gone_ids(sources@))
            &&& stats.expired == ids_before(rows(*old(conn)), now).len()
            &&& stats.missing_source == kept.dom().intersect(gone_ids(sources@)).len()
            &&& last_id(*final(conn)) == last_id(*old(conn))
            &&& user_version(*final(conn)) == user_version(*old(conn))
        },
        res is Ok && registry_sound(*old(conn)) ==> registry_sound(*final(conn)),
        res matches Err(e) ==> fails_on_the_way(e),
{
    let expired: u64 = match reap_expired_at(conn, now) {
        Err(e) => {
            proof {
                assert(sqlite_fails(*old(conn), e));
            }
            return Err(e);
        },
        Ok(n) => n,
    };
    let ghost kept = rows(*conn);
    let ghost mut removed: Set<i64> = Set::empty();
    let mut missing_source: u64 = 0;
    let mut i: usize = 0;
    proof {
        assert(kept.remove_keys(removed) =~= kept);
    }
    while i < sources.len()
        invariant
            0 <= i <= sources.len(),
            missing_source <= i,
            removed.finite(),
            missing_source == removed.len(),
            rows(*conn) == kept.remove_keys(removed),
            last_id(*conn) == last_id(*old(conn)),
            user_version(*conn) == user_version(*old(conn)),
            forall|id: i64| #[trigger]
                removed.contains(id) <==> (kept.dom().contains(id) && sources@.take(
                    i as int,
                ).contains((id, SourceState::NotFound))),
        decreases sources.len() - i,
    {
        let (id, state): (i64, SourceState) = sources[i];
        let ghost before = removed;
        if state == SourceState::NotFound {
            let ghost here = *conn;
            match delete(conn, id) {
                Err(e) => {
                    proof {
                        assert(sqlite_fails(here, e));
                    }
                    return Err(e);
                },
                Ok(there) => {
                    proof {
                        if there {
                            removed = removed.insert(id);
                        }
                        assert(rows(*conn) =~= kept.remove_keys(removed));
                    }
                    if there {
                        missing_source = missing_source + 1;
                    }
                },
            }
        }
        proof {
            let pre = sources@.take(i as int);
            let post = sources@.take(i + 1);
            assert(post =~= pre.push(sources@[i as int]));
            assert forall|k: i64| #[trigger] removed.contains(k) <==> (kept.dom().contains(k)
                && post.contains((k, SourceState::NotFound))) by {
                if pre.contains((k, SourceState::NotFound)) {
                    let a = choose|a: int|
                        0 <= a < pre.len() && pre[a] == (k, SourceState::NotFound);
                    assert(post[a] == (k, SourceState::NotFound));
                }
                if k == id && state == SourceState::NotFound {
                    assert(post[i as int] == (k, SourceState::NotFound));
                }
                if post.contains((k, SourceState::NotFound)) {
                    let a = choose|a: int|
                        0 <= a < post.len() && post[a] == (k, SourceState::NotFound);
                    if a < i {
                        assert(pre[a] == (k, SourceState::NotFound));
                    }
                }
            }
        }
        i = i + 1;
    }
    proof {
        assert(sources@.take(i as int) =~= sources@);
        assert(removed =~= kept.dom().intersect(gone_ids(sources@)));
        assert(kept.remove_keys(removed) =~= kept.remove_keys(gone_ids(sources@)));
    }
    Ok(PruneStats { expired, missing_source })
}

/// Removes the registrations that have expired, then those whose source is known
/// to be gone.
pub fn prune_on_load(conn: &mut Connection, sources: &Vec<(i64, SourceState)>) -> (res: Result<
    PruneStats,
    DbError,
>)
    ensures
        res is Ok ==> exists|now: i64|
            #![trigger ids_before(rows(*old(conn)), now)]
            {
                let kept = rows(*old(conn)).remove_keys(ids_before(rows(*old(conn)), now));
                &&& clock_reading(now)
                &&& rows(*final(conn)) == kept.remove_keys(gone_ids(sources@))
                &&& res->Ok_0.expired == ids_before(rows(*old(conn)), now).len()
                &&& res->Ok_0.missing_source == kept.dom().intersect(gone_ids(sources@)).len()
            },
        res is Ok && registry_sound(*old(conn)) ==> registry_sound(*final(conn)),
        res matches Err(e) ==> fails_on_the_way(e),
{
    let now: i64 = now_unix();
    prune_on_load_at(conn, now, sources)
}

/// The lifetime of the registration that was looked up, where a hit on it at `now`
/// is to be written: it is there, has a lifetime and has not expired.
pub fn to_flush(found: &Option<Registration>, now: i64) -> (r: Option<i64>)
    ensures
        r == match *found {
            Some(x) => if live(x.row(), now) {
                x.ttl_seconds
            } else {
                None
            },
            None => None,
        },
{
    match found {
        Some(x) => {
            if is_live(x.expires_at, now) {
                x.ttl_seconds
            } else {
                None
            }
        },
        None => None,
    }
}

/// Slides the deadline of a registration whose hit is due to be written. A
/// registration that is gone, has no lifetime or has expired is left alone.
pub fn flush_one(conn: &mut Connection, id: i64, now: i64) -> (res: Result<(), DbError>)
    ensures
        res is Ok ==> rows(*final(conn)) == updated(
            rows(*old(conn)),
            id,
            |r: Row| touched(r, now),
        ) && last_id(*final(conn)) == last_id(*old(conn)) && user_version(*final(conn))
            == user_version(*old(conn)),
        res is Ok && rows(*old(conn)).dom().contains(id) ==> !touch_overflows(
            rows(*old(conn))[id],
            now,
        ),
        // Nothing is written to a row that the hit does not slide, such as one that
        // has expired, even where SQLite fails.
        !slides(rows(*old(conn)), id, now) ==> *final(conn) == *old(conn),
        res matches Err(DbError::DeadlineOverflow) ==> *final(conn) == *old(conn) && rows(
            *old(conn),
        ).dom().contains(id) && touch_overflows(rows(*old(conn))[id], now),
        res is Ok && registry_sound(*old(conn)) ==> registry_sound(*final(conn)),
        res matches Err(e) ==> sqlite_fails(*old(conn), e) || e is DeadlineOverflow,
{
    let ghost m = rows(*conn);
    let found: Option<Registration> = match find_by_id(conn, id) {
        Err(e) => {
            return Err(e);
        },
        Ok(x) => x,
    };
    match to_flush(&found, now) {
        None => {
            proof {
                if m.dom().contains(id) {
                    assert(m.insert(id, touched(m[id], now)) =~= m);
                }
            }
            Ok(())
        },
        Some(ttl) => touch(conn, id, now, Some(ttl)),
    }
}

// ---------------------------------------------------------------------------
// What the rows are
// ---------------------------------------------------------------------------

/// A registration and its row hold the same.
pub proof fn lemma_row_of_registration(r: Registration)
    ensures
        r.row().url_path == r.url_path@,
        r.row().source_path == r.source_path@,
        r.row().kind == r.kind,
        r.name_slug matches Some(s) ==> r.row().name_slug == Some(s@),
        r.name_slug is None ==> r.row().name_slug is None,
        r.row().created_at == r.created_at,
        r.row().expires_at == r.expires_at,
        r.row().ttl_seconds == r.ttl_seconds,
        r.row().last_hit_at == r.last_hit_at,
        r.row().missing_since == r.missing_since,
{
}

/// What SQLite returns of a row and the row hold the same.
pub proof fn lemma_row_of_raw(r: RawRow)
    ensures
        r.row().url_path == r.url_path@,
        r.row().source_path == r.source_path@,
        r.kind@ == "file"@ ==> r.row().kind == Kind::File,
        r.kind@ == "dir"@ ==> r.row().kind == Kind::Dir,
        r.name_slug matches Some(s) ==> r.row().name_slug == Some(s@),
        r.name_slug is None ==> r.row().name_slug is None,
        r.row().created_at == r.created_at,
        r.row().expires_at == r.expires_at,
        r.row().ttl_seconds == r.ttl_seconds,
        r.row().last_hit_at == r.last_hit_at,
        r.row().missing_since == r.missing_since,
{
    lemma_kind_names_differ();
}

/// What is registered anew has not been hit and is not missing.
pub proof fn lemma_row_of_new(r: NewRegistration)
    ensures
        r.row().url_path == r.url_path@,
        r.row().source_path == r.source_path@,
        r.row().kind == r.kind,
        r.name_slug matches Some(s) ==> r.row().name_slug == Some(s@),
        r.name_slug is None ==> r.row().name_slug is None,
        r.row().created_at == r.created_at,
        r.row().expires_at == r.expires_at,
        r.row().ttl_seconds == r.ttl_seconds,
        r.row().last_hit_at is None,
        r.row().missing_since is None,
{
}

/// A failure of SQLite says what SQLite said, and the others say what they are.
pub proof fn lemma_what_failures_say(m: String, v: nat)
    requires
        0 < v <= i64::MAX,
    ensures
        DbError::Sqlite(m).message_view() == m@,
        DbError::Constraint(m).message_view() == m@,
        DbError::NoMigration(v as i64).message_view() == "no migration defined for version "@
            + text::digits(v),
        DbError::NoMigration(-v as i64).message_view() == "no migration defined for version "@
            + seq!['-'] + text::digits(v),
        DbError::Vanished.message_view() == "inserted row vanished"@,
        DbError::DeadlineOverflow.message_view() == "deadline out of range"@,
{
    text::lemma_signed_decimal(v);
    assert("no migration defined for version "@ + (seq!['-'] + text::digits(v))
        =~= "no migration defined for version "@ + seq!['-'] + text::digits(v));
}

/// The rows that `updated` changes: the one of the id, by the change, and no other; none
/// comes or goes.
pub proof fn lemma_one_row_is_updated(m: Map<i64, Row>, id: i64, f: spec_fn(Row) -> Row, k: i64)
    ensures
        updated(m, id, f).dom() == m.dom(),
        m.dom().contains(id) ==> updated(m, id, f)[id] == f(m[id]),
        k != id ==> updated(m, id, f)[k] == m[k],
{
    assert(updated(m, id, f).dom() =~= m.dom());
}

/// A note that a source is missing sets the time where none is set, and changes nothing
/// else.
pub proof fn lemma_missing_note(r: Row, now: i64)
    ensures
        r.missing_since is None ==> missed(r, now).missing_since == Some(now),
        r.missing_since is Some ==> missed(r, now) == r,
        missed(r, now).url_path == r.url_path,
        missed(r, now).source_path == r.source_path,
        missed(r, now).kind == r.kind,
        missed(r, now).name_slug == r.name_slug,
        missed(r, now).created_at == r.created_at,
        missed(r, now).expires_at == r.expires_at,
        missed(r, now).ttl_seconds == r.ttl_seconds,
        missed(r, now).last_hit_at == r.last_hit_at,
{
}

/// A URL path is taken exactly where some row has it, a source is gone exactly where
/// nothing was found at it, and the live rows are those whose deadline has not passed.
pub proof fn lemma_taken_and_gone(
    m: Map<i64, Row>,
    url: Seq<char>,
    id: i64,
    sources: Seq<(i64, SourceState)>,
    now: i64,
)
    ensures
        m.dom().contains(id) && m[id].url_path == url ==> url_taken(m, url),
        url_taken(m, url) ==> exists|k: i64| #[trigger] m.dom().contains(k) && m[k].url_path == url,
        has_url(m, url, id) <==> m.dom().contains(id) && m[id].url_path == url,
        gone_ids(sources).contains(id) <==> sources.contains((id, SourceState::NotFound)),
        live_ids(m, now).contains(id) <==> m.dom().contains(id) && (m[id].expires_at matches Some(e)
            ==> now <= e),
{
}

} // verus!
