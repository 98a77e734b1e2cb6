//! Choosing the URL path of a new registration: one live registration per
//! source, numbered paths where the plain one is taken, and the reserved
//! `_servant` name.

use rusqlite::Connection;
use vstd::prelude::*;
use vstd::string::*;

use crate::db;
use crate::db::{
    answers_source, clock_reading, opt_view, read_fails, rows, url_taken, DbError, Kind,
    Registration, Row,
};
use crate::paths;
use crate::paths::{final_name, opt_str_view};
use crate::text;
use crate::text::{digits, first_index, is_digit, is_letter};

verus! {

/// How many paths are tried before allocation gives up.
pub const MAX_SUFFIX_ATTEMPTS: u32 = 1000;

/// The URL path of a registration.
#[derive(Debug)]
pub enum UrlAllocation {
    /// The source is registered already.
    Existing(Registration),
    /// The source gets this path.
    New { url_path: String, name_slug: Option<String> },
}

/// Why no URL path was chosen.
#[derive(Debug)]
pub enum AllocError {
    Db(DbError),
    /// The source path leads to nothing with a name.
    NoFinalComponent(String),
    /// The source has a reserved name.
    ReservedSource(String),
    EmptyName,
    ReservedName(String),
    BadName(String),
    /// Every path that was tried is taken.
    Exhausted,
}

impl AllocError {
    /// What the failure says.
    pub open spec fn message_view(self) -> Seq<char> {
        match self {
            AllocError::Db(e) => e.message_view(),
            AllocError::NoFinalComponent(p) => "source path has no final component: "@ + p@,
            AllocError::ReservedSource(n) => "`"@ + n@
                + "` is reserved; use --name to choose another slug"@,
            AllocError::EmptyName => "--name must not be empty"@,
            AllocError::ReservedName(n) => "`"@ + n@ + "` is reserved"@,
            AllocError::BadName(n) => "--name must match [A-Za-z0-9._-]+ (got `"@ + n@ + "`)"@,
            AllocError::Exhausted =>
                "could not allocate a unique URL path after 1000 attempts"@,
        }
    }

    /// What the failure says.
    pub fn message(&self) -> (r: String)
        ensures
            r@ == self.message_view(),
    {
        match self {
            AllocError::Db(e) => e.message(),
            AllocError::NoFinalComponent(p) => text::joined(
                "source path has no final component: ",
                p.as_str(),
            ),
            AllocError::ReservedSource(n) => text::joined3(
                "`",
                n.as_str(),
                "` is reserved; use --name to choose another slug",
            ),
            AllocError::EmptyName => text::owned("--name must not be empty"),
            AllocError::ReservedName(n) => text::joined3("`", n.as_str(), "` is reserved"),
            AllocError::BadName(n) => text::joined3(
                "--name must match [A-Za-z0-9._-]+ (got `",
                n.as_str(),
                "`)",
            ),
            AllocError::Exhausted => text::owned(
                "could not allocate a unique URL path after 1000 attempts",
            ),
        }
    }
}

// ---------------------------------------------------------------------------
// Names
// ---------------------------------------------------------------------------

/// The name that no registration gets.
pub open spec fn reserved() -> Seq<char> {
    "_servant"@
}

/// A character that a chosen name may hold.
pub open spec fn slug_char(c: char) -> bool {
    is_digit(c) || is_letter(c) || c == '.' || c == '_' || c == '-'
}

/// Every character may stand in a chosen name.
pub open spec fn slug_text(s: Seq<char>) -> bool {
    forall|i: int| 0 <= i < s.len() ==> slug_char(#[trigger] s[i])
}

/// Checks a chosen name.
pub fn sanitize_name(raw: &str) -> (r: Result<String, AllocError>)
    ensures
        match r {
            Ok(s) => s@ == raw@ && raw@.len() > 0 && raw@ != reserved() && slug_text(raw@),
            Err(AllocError::EmptyName) => raw@.len() == 0,
            Err(AllocError::ReservedName(n)) => n@ == raw@ && raw@ == reserved(),
            Err(AllocError::BadName(n)) => n@ == raw@ && raw@.len() > 0 && raw@ != reserved()
                && !slug_text(raw@),
            Err(_) => false,
        },
{
    let x = text::chars_of(raw);
    if x.len() == 0 {
        return Err(AllocError::EmptyName);
    }
    if text::same(raw, "_servant") {
        return Err(AllocError::ReservedName(text::owned(raw)));
    }
    let mut i: usize = 0;
    while i < x.len()
        invariant
            0 <= i <= x.len(),
            x@ == raw@,
            raw@.len() > 0,
            raw@ != reserved(),
            forall|j: int| 0 <= j < i ==> slug_char(#[trigger] x@[j]),
        decreases x.len() - i,
    {
        let c: char = x[i];
        if !(text::digit(c) || text::letter(c) || c == '.' || c == '_' || c == '-') {
            proof {
                assert(!slug_char(raw@[i as int]));
            }
            return Err(AllocError::BadName(text::owned(raw)));
        }
        i = i + 1;
    }
    Ok(text::owned(raw))
}

/// The URL path of a name: folders end in a slash.
pub open spec fn path_of(name: Seq<char>, kind: Kind) -> Seq<char> {
    match kind {
        Kind::File => "/"@ + name,
        Kind::Dir => "/"@ + name + "/"@,
    }
}

fn make_path(name: &str, kind: Kind) -> (r: String)
    ensures
        r@ == path_of(name@, kind),
{
    match kind {
        Kind::File => text::joined("/", name),
        Kind::Dir => text::joined3("/", name, "/"),
    }
}

/// The name in the URL path of a registration: the chosen name, else the name of
/// the source; none where it is refused.
pub open spec fn base_name(source: Seq<char>, name: Option<Seq<char>>) -> Option<Seq<char>> {
    match name {
        Some(raw) => if raw.len() > 0 && raw != reserved() && slug_text(raw) {
            Some(raw)
        } else {
            None
        },
        None => match final_name(source) {
            None => None,
            Some(n) => if n == reserved() {
                None
            } else {
                Some(n)
            },
        },
    }
}

/// `e` says why the name of a registration is refused.
pub open spec fn refuses(source: Seq<char>, name: Option<Seq<char>>, e: AllocError) -> bool {
    match e {
        AllocError::NoFinalComponent(p) => name is None && final_name(source) is None && p@ == source,
        AllocError::ReservedSource(n) => name is None && final_name(source) == Some(reserved())
            && n@ == reserved(),
        AllocError::EmptyName => name == Some(Seq::<char>::empty()),
        AllocError::ReservedName(n) => name == Some(reserved()) && n@ == reserved(),
        AllocError::BadName(n) => name == Some(n@) && n@.len() > 0 && n@ != reserved()
            && !slug_text(n@),
        _ => false,
    }
}

/// The plain URL path of a registration and the chosen name, where there is one.
pub fn base_url_path(source: &str, kind: Kind, name: Option<&str>) -> (r: Result<
    (String, Option<String>),
    AllocError,
>)
    ensures
        match r {
            Ok((base, slug)) => {
                &&& base_name(source@, opt_str_view(name)) matches Some(n) && base@ == path_of(
                    n,
                    kind,
                )
                &&& opt_view(slug) == opt_str_view(name)
            },
            Err(e) => base_name(source@, opt_str_view(name)) is None && refuses(
                source@,
                opt_str_view(name),
                e,
            ),
        },
{
    match name {
        Some(raw) => {
            match sanitize_name(raw) {
                Err(e) => {
                    proof {
                        reveal_strlit("_servant");
                        assert(raw@.len() == 0 ==> raw@ =~= Seq::<char>::empty());
                    }
                    Err(e)
                },
                Ok(slug) => Ok((make_path(slug.as_str(), kind), Some(slug))),
            }
        },
        None => {
            match paths::file_name(source) {
                None => Err(AllocError::NoFinalComponent(text::owned(source))),
                Some(n) => {
                    if text::same(n.as_str(), "_servant") {
                        Err(AllocError::ReservedSource(n))
                    } else {
                        Ok((make_path(n.as_str(), kind), None))
                    }
                },
            }
        },
    }
}

// ---------------------------------------------------------------------------
// Numbered paths
// ---------------------------------------------------------------------------

/// Where the extension of a file name begins: at its first dot, unless that is
/// its first character; the length where there is none.
pub open spec fn extension_start(name: Seq<char>) -> int {
    let k = first_index(name, '.');
    if k == 0 {
        name.len() as int
    } else {
        k
    }
}

/// Splits a file name at its first dot; a name that begins with the dot has no
/// extension.
pub fn split_filename<'a>(name: &'a str) -> (r: (&'a str, Option<&'a str>))
    ensures
        r.0@ == name@.take(extension_start(name@)),
        match r.1 {
            Some(e) => extension_start(name@) < name@.len() && e@ == name@.skip(
                extension_start(name@),
            ),
            None => extension_start(name@) == name@.len(),
        },
{
    let x = text::chars_of(name);
    let k: usize = text::find_char(&x, '.');
    proof {
        text::lemma_first_index(name@, '.');
        assert(name@.take(name@.len() as int) =~= name@);
    }
    if k == 0 || k == x.len() {
        return (name, None);
    }
    let stem: &'a str = name.substring_char(0, k);
    let ext: &'a str = name.substring_char(k, x.len());
    proof {
        assert(stem@ =~= name@.take(k as int));
        assert(ext@ =~= name@.skip(k as int));
    }
    (stem, Some(ext))
}

/// The path of a file with a number before its extension.
pub open spec fn numbered_file(base: Seq<char>, n: nat) -> Seq<char> {
    let body = base.skip(1);
    let k = extension_start(body);
    "/"@ + body.take(k) + "-"@ + digits(n) + body.skip(k)
}

/// The path of a folder with a number behind its name.
pub open spec fn numbered_dir(base: Seq<char>, n: nat) -> Seq<char> {
    "/"@ + base.subrange(1, base.len() - 1) + "-"@ + digits(n) + "/"@
}

/// Puts a number before the extension of a file's path.
pub fn suffix_file(base: &str, n: u32) -> (r: String)
    requires
        base@.len() > 0,
        base@[0] == '/',
    ensures
        r@ == numbered_file(base@, n as nat),
{
    let x = text::chars_of(base);
    let body: String = text::text_between(&x, 1, x.len());
    proof {
        assert(body@ =~= base@.skip(1));
        text::lemma_first_index(body@, '.');
    }
    let (stem, ext) = split_filename(body.as_str());
    let number: String = text::decimal(n as u64);
    let mut out: String = text::joined3("/", stem, "-");
    out.append(number.as_str());
    match ext {
        Some(e) => {
            out.append(e);
        },
        None => {
            proof {
                let tail = body@.skip(extension_start(body@));
                assert(out@ + tail =~= out@);
            }
        },
    }
    out
}

/// Puts a number behind the name in a folder's path.
pub fn suffix_dir(base: &str, n: u32) -> (r: String)
    requires
        base@.len() > 1,
        base@[0] == '/',
        base@.last() == '/',
    ensures
        r@ == numbered_dir(base@, n as nat),
{
    let x = text::chars_of(base);
    let body: String = text::text_between(&x, 1, x.len() - 1);
    let number: String = text::decimal(n as u64);
    let mut out: String = text::joined3("/", body.as_str(), "-");
    out.append(number.as_str());
    out.append("/");
    out
}

/// The path that is tried as the `n`th: the plain one first, then the one with
/// the number `n`.
pub open spec fn candidate(base: Seq<char>, kind: Kind, n: nat) -> Seq<char> {
    if n <= 1 {
        base
    } else {
        match kind {
            Kind::File => numbered_file(base, n),
            Kind::Dir => numbered_dir(base, n),
        }
    }
}

/// The path that is tried as the `n`th.
pub fn candidate_path(base: &str, kind: Kind, n: u32) -> (r: String)
    requires
        base@.len() > 0,
        base@[0] == '/',
        kind == Kind::Dir ==> base@.last() == '/' && base@.len() > 1,
    ensures
        r@ == candidate(base@, kind, n as nat),
{
    if n <= 1 {
        return text::owned(base);
    }
    match kind {
        Kind::File => suffix_file(base, n),
        Kind::Dir => suffix_dir(base, n),
    }
}

/// What the lookup of a source leads to: its live registration is the answer where
/// it has one, and a failure is; else a path is to be chosen.
pub fn source_answer(found: Result<Option<Registration>, DbError>) -> (r: Option<
    Result<UrlAllocation, AllocError>,
>)
    ensures
        r == match found {
            Ok(Some(x)) => Some(Ok::<UrlAllocation, AllocError>(UrlAllocation::Existing(x))),
            Ok(None) => None,
            Err(e) => Some(Err::<UrlAllocation, AllocError>(AllocError::Db(e))),
        },
{
    match found {
        Ok(Some(x)) => Some(Ok(UrlAllocation::Existing(x))),
        Ok(None) => None,
        Err(e) => Some(Err(AllocError::Db(e))),
    }
}

/// What the lookup of a path that is tried leads to.
#[derive(Debug)]
pub enum Attempt {
    /// The path is free and is taken.
    Take(String),
    /// The path with this number is tried next.
    Next(u32),
    /// No path is chosen.
    Fail(AllocError),
}

/// What the lookup of the path that is tried as the `n`th leads to: a free one is
/// taken, and after one that is not the next is tried, up to the last.
pub fn attempt(base: &str, kind: Kind, n: u32, found: Result<Option<Registration>, DbError>) -> (r:
    Attempt)
    requires
        1 <= n <= MAX_SUFFIX_ATTEMPTS,
        base@.len() > 0,
        base@[0] == '/',
        kind == Kind::Dir ==> base@.last() == '/' && base@.len() > 1,
    ensures
        match found {
            Err(e) => r == Attempt::Fail(AllocError::Db(e)),
            Ok(None) => r matches Attempt::Take(u) && u@ == candidate(base@, kind, n as nat),
            Ok(Some(_)) => if n < MAX_SUFFIX_ATTEMPTS {
                r == Attempt::Next((n + 1) as u32)
            } else {
                r == Attempt::Fail(AllocError::Exhausted)
            },
        },
{
    match found {
        Err(e) => Attempt::Fail(AllocError::Db(e)),
        Ok(None) => Attempt::Take(candidate_path(base, kind, n)),
        Ok(Some(_)) => {
            if n < MAX_SUFFIX_ATTEMPTS {
                Attempt::Next(n + 1)
            } else {
                Attempt::Fail(AllocError::Exhausted)
            }
        },
    }
}

/// The path `url` is the first of those tried that is free.
pub open spec fn first_free(
    taken: spec_fn(Seq<char>) -> bool,
    base: Seq<char>,
    kind: Kind,
    url: Seq<char>,
) -> bool {
    exists|n: nat|
        1 <= n <= MAX_SUFFIX_ATTEMPTS && url == #[trigger] candidate(base, kind, n) && !taken(url)
            && forall|k: nat| 1 <= k < n ==> taken(#[trigger] candidate(base, kind, k))
}

/// What choosing the URL path of a source at `now` comes to: its live registration
/// where it has one, else the first free path, else why there is none. Whether the
/// registry can be read is SQLite's matter.
pub open spec fn allocates(
    m: Map<i64, Row>,
    source: Seq<char>,
    kind: Kind,
    name: Option<Seq<char>>,
    now: i64,
    res: Result<UrlAllocation, AllocError>,
) -> bool {
    let base = path_of(base_name(source, name)->0, kind);
    match res {
        Ok(UrlAllocation::Existing(r)) => answers_source(m, source, now, Some(r)),
        Ok(UrlAllocation::New { url_path, name_slug }) => {
            &&& answers_source(m, source, now, None)
            &&& base_name(source, name) is Some
            &&& first_free(|u: Seq<char>| url_taken(m, u), base, kind, url_path@)
            &&& !url_taken(m, url_path@)
            &&& opt_view(name_slug) == name
        },
        Err(AllocError::Db(e)) => e is Sqlite,
        Err(AllocError::Exhausted) => {
            &&& answers_source(m, source, now, None)
            &&& base_name(source, name) is Some
            &&& forall|k: nat|
                1 <= k <= MAX_SUFFIX_ATTEMPTS ==> url_taken(m, #[trigger] candidate(base, kind, k))
        },
        Err(e) => {
            &&& answers_source(m, source, now, None)
            &&& base_name(source, name) is None
            &&& refuses(source, name, e)
        },
    }
}

/// The URL path for a source at `now`: that of its live registration where it has
/// one, else the first free one.
pub fn allocate_url_path_at(
    conn: &Connection,
    source: &str,
    kind: Kind,
    name: Option<&str>,
    now: i64,
) -> (res: Result<UrlAllocation, AllocError>)
    ensures
        allocates(rows(*conn), source@, kind, opt_str_view(name), now, res),
        res matches Err(AllocError::Db(e)) ==> read_fails(*conn, e),
{
    match source_answer(db::find_by_source_at(conn, source, now)) {
        Some(res) => {
            return res;
        },
        None => {},
    }
    let (base, slug): (String, Option<String>) = match base_url_path(source, kind, name) {
        Err(e) => {
            return Err(e);
        },
        Ok(p) => p,
    };
    let ghost taken = |u: Seq<char>| url_taken(rows(*conn), u);
    proof {
        reveal_strlit("/");
        let name = base_name(source@, opt_str_view(name))->0;
        paths::lemma_final_name(source@);
        assert(base@[0] == '/');
        assert(kind == Kind::Dir ==> base@.last() == '/' && base@.len() > 1);
    }
    let mut n: u32 = 1;
    loop
        invariant
            1 <= n <= MAX_SUFFIX_ATTEMPTS,
            taken == (|u: Seq<char>| url_taken(rows(*conn), u)),
            base@.len() > 0,
            base@[0] == '/',
            kind == Kind::Dir ==> base@.last() == '/' && base@.len() > 1,
            base_name(source@, opt_str_view(name)) is Some,
            base@ == path_of(base_name(source@, opt_str_view(name))->0, kind),
            opt_view(slug) == opt_str_view(name),
            answers_source(rows(*conn), source@, now, None),
            forall|k: nat| 1 <= k < n ==> taken(#[trigger] candidate(base@, kind, k)),
        decreases MAX_SUFFIX_ATTEMPTS - n,
    {
        let url: String = candidate_path(base.as_str(), kind, n);
        proof {
            assert(url@ == candidate(base@, kind, n as nat));
        }
        let found: Result<Option<Registration>, DbError> = db::find_by_url(conn, url.as_str());
        proof {
            if found matches Ok(Some(_)) {
                assert(taken(candidate(base@, kind, n as nat)));
                assert forall|k: nat| 1 <= k <= n implies url_taken(
                    rows(*conn),
                    #[trigger] candidate(base@, kind, k),
                ) by {
                    assert(taken(candidate(base@, kind, k)));
                }
            }
        }
        match attempt(base.as_str(), kind, n, found) {
            Attempt::Take(free) => {
                proof {
                    assert(first_free(taken, base@, kind, free@));
                }
                return Ok(UrlAllocation::New { url_path: free, name_slug: slug });
            },
            Attempt::Next(next) => {
                n = next;
            },
            Attempt::Fail(e) => {
                return Err(e);
            },
        }
    }
}

/// The URL path for a source: that of its live registration where it has one, else
/// the first free one.
pub fn allocate_url_path(conn: &Connection, source: &str, kind: Kind, name: Option<&str>) -> (res:
    Result<UrlAllocation, AllocError>)
    ensures
        exists|now: i64|
            clock_reading(now) && #[trigger] allocates(
                rows(*conn),
                source@,
                kind,
                opt_str_view(name),
                now,
                res,
            ),
        res matches Err(AllocError::Db(e)) ==> read_fails(*conn, e),
{
    let now: i64 = db::now_unix();
    let res = allocate_url_path_at(conn, source, kind, name, now);
    proof {
        assert(allocates(rows(*conn), source@, kind, opt_str_view(name), now, res));
    }
    res
}

// ---------------------------------------------------------------------------
// What holds of every path that is tried
// ---------------------------------------------------------------------------

/// A name for a URL path: not empty, not reserved and without a slash.
pub open spec fn usable(name: Seq<char>) -> bool {
    name.len() > 0 && name != reserved() && !name.contains('/')
}

/// The name that a URL path is made of is usable.
pub proof fn lemma_base_name_usable(source: Seq<char>, name: Option<Seq<char>>)
    ensures
        base_name(source, name) matches Some(n) ==> usable(n),
{
    paths::lemma_final_name(source);
    if base_name(source, name) is Some {
        let n = base_name(source, name)->0;
        if name is Some && n.contains('/') {
            let i = choose|i: int| 0 <= i < n.len() && n[i] == '/';
            assert(slug_char(n[i]));
        }
    }
}

proof fn lemma_digits_plain(n: nat)
    ensures
        digits(n).len() > 0,
        forall|i: int| 0 <= i < digits(n).len() ==> is_digit(#[trigger] digits(n)[i]),
{
    text::lemma_digits(n);
}

/// Every path that is tried begins with a slash; a folder's ends with one, and
/// none has a slash in between. The numbered ones hold a hyphen.
pub proof fn lemma_candidate_shape(name: Seq<char>, kind: Kind, n: nat)
    requires
        usable(name),
    ensures
        ({
            let c = candidate(path_of(name, kind), kind, n);
            &&& c.len() > 1
            &&& c[0] == '/'
            &&& forall|i: int| 0 < i < c.len() - 1 ==> #[trigger] c[i] != '/'
            &&& (c.last() == '/' <==> kind == Kind::Dir)
            &&& kind == Kind::Dir ==> c.len() > 2
            &&& n >= 2 ==> c.contains('-')
        }),
{
    reveal_strlit("/");
    reveal_strlit("-");
    lemma_digits_plain(n);
    let base = path_of(name, kind);
    let c = candidate(base, kind, n);
    assert forall|i: int| 0 <= i < name.len() implies #[trigger] name[i] != '/' by {
        if name[i] == '/' {
            assert(name.contains('/'));
        }
    }
    if n >= 2 {
        match kind {
            Kind::File => {
                let body = base.skip(1);
                assert(body =~= name);
                text::lemma_first_index(body, '.');
                let k = extension_start(body);
                assert(c[1 + k] == '-');
                assert forall|i: int| 0 < i < c.len() implies #[trigger] c[i] != '/' by {
                    if i < 1 + k {
                        assert(c[i] == name[i - 1]);
                    } else if i < 2 + k + digits(n).len() {
                        if i > 1 + k {
                            assert(is_digit(digits(n)[i - 2 - k]));
                        }
                    } else {
                        assert(c[i] == name[i - 2 - digits(n).len()]);
                    }
                }
            },
            Kind::Dir => {
                let body = base.subrange(1, base.len() - 1);
                assert(body =~= name);
                assert(c[1 + name.len() as int] == '-');
                assert forall|i: int| 0 < i < c.len() - 1 implies #[trigger] c[i] != '/' by {
                    if i < 1 + name.len() {
                        assert(c[i] == name[i - 1]);
                    } else if i > 1 + name.len() {
                        assert(is_digit(digits(n)[i - 2 - name.len()]));
                    }
                }
            },
        }
    } else {
        assert forall|i: int| 0 < i < c.len() - 1 implies #[trigger] c[i] != '/' by {
            assert(c[i] == name[i - 1]);
        }
        if kind == Kind::File {
            assert(c.last() == name.last());
            assert(name[name.len() - 1] != '/');
        }
    }
}

/// No path that is tried is the reserved one, with or without a slash behind it.
pub proof fn lemma_candidate_not_reserved(name: Seq<char>, kind: Kind, n: nat)
    requires
        usable(name),
    ensures
        candidate(path_of(name, kind), kind, n) != path_of(reserved(), Kind::File),
        candidate(path_of(name, kind), kind, n) != path_of(reserved(), Kind::Dir),
{
    reveal_strlit("/");
    reveal_strlit("_servant");
    lemma_candidate_shape(name, kind, n);
    let c = candidate(path_of(name, kind), kind, n);
    let f = path_of(reserved(), Kind::File);
    let d = path_of(reserved(), Kind::Dir);
    assert(f.last() == 't');
    assert(d.last() == '/');
    if n >= 2 {
        let i = choose|i: int| 0 <= i < c.len() && c[i] == '-';
        if c == f {
            assert(f[i] != '-');
        }
        if c == d {
            assert(d[i] != '-');
        }
    } else {
        match kind {
            Kind::File => {
                if c == f {
                    assert(name =~= c.skip(1));
                    assert(reserved() =~= f.skip(1));
                }
            },
            Kind::Dir => {
                if c == d {
                    assert(name =~= c.subrange(1, c.len() - 1));
                    assert(reserved() =~= d.subrange(1, d.len() - 1));
                }
            },
        }
    }
}

/// The paths that are tried differ from one another.
pub proof fn lemma_candidates_differ(name: Seq<char>, kind: Kind, a: nat, b: nat)
    requires
        usable(name),
        1 <= a < b,
    ensures
        candidate(path_of(name, kind), kind, a) != candidate(path_of(name, kind), kind, b),
{
    reveal_strlit("/");
    reveal_strlit("-");
    let base = path_of(name, kind);
    let x = candidate(base, kind, a);
    let y = candidate(base, kind, b);
    lemma_digits_plain(a);
    lemma_digits_plain(b);
    if x == y {
        match kind {
            Kind::File => {
                let body = base.skip(1);
                text::lemma_first_index(body, '.');
                let k = extension_start(body);
                assert(y.len() == 2 + k + digits(b).len() + (body.len() - k));
                if a >= 2 {
                    assert(x.len() == 2 + k + digits(a).len() + (body.len() - k));
                    assert(digits(a) =~= x.subrange(2 + k, 2 + k + digits(a).len()));
                    assert(digits(b) =~= y.subrange(2 + k, 2 + k + digits(b).len()));
                    text::lemma_digits_injective(a, b);
                }
            },
            Kind::Dir => {
                let k = base.len() - 2;
                assert(y.len() == 3 + k + digits(b).len());
                if a >= 2 {
                    assert(x.len() == 3 + k + digits(a).len());
                    assert(digits(a) =~= x.subrange(2 + k, 2 + k + digits(a).len()));
                    assert(digits(b) =~= y.subrange(2 + k, 2 + k + digits(b).len()));
                    text::lemma_digits_injective(a, b);
                }
            },
        }
    }
}

/// A file or folder gets the path of its plain name where that is free.
pub proof fn lemma_plain_path_if_free(
    taken: spec_fn(Seq<char>) -> bool,
    base: Seq<char>,
    kind: Kind,
    url: Seq<char>,
)
    requires
        first_free(taken, base, kind, url),
        !taken(base),
    ensures
        url == base,
{
    let n = choose|n: nat|
        1 <= n <= MAX_SUFFIX_ATTEMPTS && url == #[trigger] candidate(base, kind, n) && !taken(url)
            && forall|k: nat| 1 <= k < n ==> taken(#[trigger] candidate(base, kind, k));
    if n > 1 {
        assert(taken(candidate(base, kind, 1)));
    }
}

/// The first free path is one path.
pub proof fn lemma_one_first_free(
    taken: spec_fn(Seq<char>) -> bool,
    base: Seq<char>,
    kind: Kind,
    a: Seq<char>,
    b: Seq<char>,
)
    requires
        first_free(taken, base, kind, a),
        first_free(taken, base, kind, b),
    ensures
        a == b,
{
    let m = choose|n: nat|
        1 <= n <= MAX_SUFFIX_ATTEMPTS && a == #[trigger] candidate(base, kind, n) && !taken(a)
            && forall|k: nat| 1 <= k < n ==> taken(#[trigger] candidate(base, kind, k));
    let n = choose|n: nat|
        1 <= n <= MAX_SUFFIX_ATTEMPTS && b == #[trigger] candidate(base, kind, n) && !taken(b)
            && forall|k: nat| 1 <= k < n ==> taken(#[trigger] candidate(base, kind, k));
    if m < n {
        assert(taken(candidate(base, kind, m)));
    }
    if n < m {
        assert(taken(candidate(base, kind, n)));
    }
}

// ---------------------------------------------------------------------------
// What the paths are
// ---------------------------------------------------------------------------

/// Without a chosen name, the plain URL path is a slash and exactly the last component
/// of the source path, and a slash behind it for a folder.
pub proof fn lemma_plain_path_is_source_name(dir: Seq<char>, name: Seq<char>)
    requires
        name.len() > 0,
        !name.contains('/'),
        name != "."@,
        name != ".."@,
        name != "_servant"@,
    ensures
        base_name(dir + seq!['/'] + name, None) == Some(name),
        base_name(dir + seq!['/'] + name + seq!['/'], None) == Some(name),
        path_of(name, Kind::File) == seq!['/'] + name,
        path_of(name, Kind::Dir) == seq!['/'] + name + seq!['/'],
{
    paths::lemma_name_behind_last_slash(dir, name);
    reveal_strlit("/");
    assert("/"@ =~= seq!['/']);
}

/// A chosen name of letters, digits, dots, underscores and hyphens is the name in the
/// URL path, whatever the source is called; any other is refused, and so is the
/// reserved one.
pub proof fn lemma_chosen_name_is_taken(source: Seq<char>, raw: Seq<char>)
    ensures
        raw.len() > 0 && raw != "_servant"@ && (forall|i: int|
            0 <= i < raw.len() ==> {
                ||| 'a' <= #[trigger] raw[i] <= 'z'
                ||| 'A' <= raw[i] <= 'Z'
                ||| '0' <= raw[i] <= '9'
                ||| raw[i] == '.'
                ||| raw[i] == '_'
                ||| raw[i] == '-'
            }) ==> base_name(source, Some(raw)) == Some(raw),
        raw.len() == 0 || raw == "_servant"@ ==> base_name(source, Some(raw)) is None,
        (exists|i: int|
            0 <= i < raw.len() && !('a' <= #[trigger] raw[i] <= 'z') && !('A' <= raw[i] <= 'Z') && !(
            '0' <= raw[i] <= '9') && raw[i] != '.' && raw[i] != '_' && raw[i] != '-')
            ==> base_name(source, Some(raw)) is None,
{
}

/// A file whose plain path is taken is numbered before its extension, which begins at
/// the first dot behind the first character; a folder is numbered behind its name.
pub proof fn lemma_numbered_path(stem: Seq<char>, extension: Seq<char>, n: nat)
    requires
        n >= 2,
        stem.len() > 0,
        !stem.contains('.'),
        extension.len() == 0 || extension[0] == '.',
    ensures
        candidate(seq!['/'] + stem + extension, Kind::File, 1) == seq!['/'] + stem + extension,
        candidate(seq!['/'] + stem + extension, Kind::File, n) == seq!['/'] + stem + seq!['-']
            + digits(n) + extension,
        candidate(seq!['/'] + stem + extension + seq!['/'], Kind::Dir, n) == seq!['/'] + stem
            + extension + seq!['-'] + digits(n) + seq!['/'],
{
    reveal_strlit("/");
    reveal_strlit("-");
    assert("/"@ =~= seq!['/']);
    assert("-"@ =~= seq!['-']);
    let body = stem + extension;
    let base = seq!['/'] + stem + extension;
    assert(base.skip(1) =~= body);
    text::lemma_first_index(body, '.');
    let k = first_index(body, '.');
    if k < stem.len() {
        assert(stem[k] == body[k]);
        assert(stem.contains('.'));
    }
    if extension.len() > 0 {
        assert(body[stem.len() as int] == '.');
    }
    assert(k == stem.len());
    assert(body.take(k) =~= stem);
    assert(body.skip(k) =~= extension);
    assert(candidate(base, Kind::File, n) =~= seq!['/'] + stem + seq!['-'] + digits(n)
        + extension);
    let folder = base + seq!['/'];
    assert(folder.subrange(1, folder.len() - 1) =~= body);
    assert(candidate(folder, Kind::Dir, n) =~= seq!['/'] + stem + extension + seq!['-'] + digits(
        n,
    ) + seq!['/']);
}

/// A new registration without a chosen name gets a slash and its source's own name as
/// its path, and a slash behind it for a folder, where that path is free.
pub proof fn lemma_allocated_plain_path(
    m: Map<i64, Row>,
    dir: Seq<char>,
    name: Seq<char>,
    kind: Kind,
    now: i64,
    url_path: String,
    name_slug: Option<String>,
)
    requires
        name.len() > 0,
        !name.contains('/'),
        name != "."@,
        name != ".."@,
        name != "_servant"@,
        allocates(
            m,
            dir + seq!['/'] + name,
            kind,
            None,
            now,
            Ok(UrlAllocation::New { url_path, name_slug }),
        ),
        kind == Kind::File ==> !url_taken(m, seq!['/'] + name),
        kind == Kind::Dir ==> !url_taken(m, seq!['/'] + name + seq!['/']),
    ensures
        kind == Kind::File ==> url_path@ == seq!['/'] + name,
        kind == Kind::Dir ==> url_path@ == seq!['/'] + name + seq!['/'],
        name_slug is None,
{
    lemma_plain_path_is_source_name(dir, name);
    let base = path_of(name, kind);
    let taken = |u: Seq<char>| url_taken(m, u);
    assert(first_free(taken, base, kind, url_path@));
    let n = choose|n: nat|
        1 <= n <= MAX_SUFFIX_ATTEMPTS && url_path@ == #[trigger] candidate(base, kind, n) && !taken(
            url_path@,
        ) && forall|k: nat| 1 <= k < n ==> taken(#[trigger] candidate(base, kind, k));
    if n > 1 {
        assert(taken(candidate(base, kind, 1)));
        assert(candidate(base, kind, 1) == base);
    }
}

/// Where the plain path of a file is taken, it gets the path with the least number
/// from two on that is free.
pub proof fn lemma_allocated_numbered_path(
    m: Map<i64, Row>,
    dir: Seq<char>,
    stem: Seq<char>,
    extension: Seq<char>,
    n: nat,
    now: i64,
    url_path: String,
    name_slug: Option<String>,
)
    requires
        2 <= n <= 1000,
        stem.len() > 0,
        !stem.contains('/'),
        !stem.contains('.'),
        extension.len() == 0 || extension[0] == '.',
        !extension.contains('/'),
        stem + extension != "_servant"@,
        allocates(
            m,
            dir + seq!['/'] + (stem + extension),
            Kind::File,
            None,
            now,
            Ok(UrlAllocation::New { url_path, name_slug }),
        ),
        url_taken(m, seq!['/'] + stem + extension),
        forall|k: nat|
            2 <= k < n ==> url_taken(
                m,
                seq!['/'] + stem + seq!['-'] + #[trigger] digits(k) + extension,
            ),
        !url_taken(m, seq!['/'] + stem + seq!['-'] + digits(n) + extension),
    ensures
        url_path@ == seq!['/'] + stem + seq!['-'] + digits(n) + extension,
{
    let name = stem + extension;
    reveal_strlit(".");
    reveal_strlit("..");
    assert(name[0] == stem[0]);
    assert(stem[0] != '.') by {
        if stem[0] == '.' {
            assert(stem.contains(stem[0]));
        }
    }
    assert(name != "."@ && name != ".."@) by {
        assert("."@[0] == '.' && ".."@[0] == '.');
    }
    assert(!name.contains('/')) by {
        if name.contains('/') {
            let i = choose|i: int| 0 <= i < name.len() && name[i] == '/';
            if i < stem.len() {
                assert(stem[i] == '/');
            } else {
                assert(extension[i - stem.len()] == '/');
            }
        }
    }
    lemma_plain_path_is_source_name(dir, name);
    let base = path_of(name, Kind::File);
    let taken = |u: Seq<char>| url_taken(m, u);
    assert(base =~= seq!['/'] + stem + extension);
    assert(first_free(taken, base, Kind::File, url_path@));
    let c = choose|c: nat|
        1 <= c <= MAX_SUFFIX_ATTEMPTS && url_path@ == #[trigger] candidate(base, Kind::File, c)
            && !taken(url_path@) && forall|k: nat|
            1 <= k < c ==> taken(#[trigger] candidate(base, Kind::File, k));
    lemma_numbered_path(stem, extension, n);
    if c >= 2 {
        lemma_numbered_path(stem, extension, c);
    }
    if c > n {
        assert(taken(candidate(base, Kind::File, n)));
    }
    if 2 <= c < n {
        assert(url_taken(m, seq!['/'] + stem + seq!['-'] + digits(c) + extension));
    }
}

/// A file or folder that cannot have a path is refused with the reason: it is not a
/// name, it is reserved, or it holds other characters.
pub proof fn lemma_refused_names(source: Seq<char>, e: AllocError)
    requires
        refuses(source, None, e),
    ensures
        e is NoFinalComponent || e is ReservedSource,
        e matches AllocError::NoFinalComponent(p) ==> p@ == source,
        e matches AllocError::ReservedSource(n) ==> n@ == "_servant"@,
{
}

/// What a refusal says names what was refused.
pub proof fn lemma_what_refusals_say(s: String)
    ensures
        AllocError::NoFinalComponent(s).message_view() == "source path has no final component: "@
            + s@,
        AllocError::ReservedSource(s).message_view() == seq!['`'] + s@
            + "` is reserved; use --name to choose another slug"@,
        AllocError::EmptyName.message_view() == "--name must not be empty"@,
        AllocError::ReservedName(s).message_view() == seq!['`'] + s@ + "` is reserved"@,
        AllocError::BadName(s).message_view() == "--name must match [A-Za-z0-9._-]+ (got `"@ + s@
            + "`)"@,
        AllocError::Exhausted.message_view()
            == "could not allocate a unique URL path after 1000 attempts"@,
        MAX_SUFFIX_ATTEMPTS == 1000,
{
    reveal_strlit("`");
    assert("`"@ =~= seq!['`']);
}

/// A chosen name is refused for being empty, for being the reserved one, or for a
/// character that may not stand in it, and the refusal names it.
pub proof fn lemma_refused_chosen_names(source: Seq<char>, raw: Seq<char>, e: AllocError)
    requires
        refuses(source, Some(raw), e),
    ensures
        e is EmptyName || e is ReservedName || e is BadName,
        e is EmptyName <==> raw.len() == 0,
        e is ReservedName <==> raw == "_servant"@,
        e matches AllocError::ReservedName(n) ==> n@ == raw,
        e matches AllocError::BadName(n) ==> n@ == raw && exists|i: int|
            0 <= i < raw.len() && !('a' <= #[trigger] raw[i] <= 'z') && !('A' <= raw[i] <= 'Z') && !(
            '0' <= raw[i] <= '9') && raw[i] != '.' && raw[i] != '_' && raw[i] != '-',
{
    reveal_strlit("_servant");
    if e is BadName {
        let i = choose|i: int| 0 <= i < raw.len() && !slug_char(#[trigger] raw[i]);
        assert(!('a' <= raw[i] <= 'z') && raw[i] != '.');
    }
}

/// Without a chosen name, the name in the URL path is the last named component of the
/// source path, whatever the path looks like; there is none where the path has no named
/// component or ends by going up, or where the name is the reserved one.
pub proof fn lemma_name_of_any_source(source: Seq<char>)
    ensures
        ({
            let pieces = crate::guards::components(source);
            base_name(source, None) == if pieces.len() == 0 || pieces.last() == ".."@
                || pieces.last() == "_servant"@ {
                None
            } else {
                Some(pieces.last())
            }
        }),
{
    crate::guards::lemma_final_name_is_last_piece(source);
}

/// A file whose name begins with a dot has no extension: it is numbered behind its name.
pub proof fn lemma_numbered_dot_file(name: Seq<char>, n: nat)
    requires
        n >= 2,
        name.len() > 0,
        name[0] == '.',
    ensures
        candidate(seq!['/'] + name, Kind::File, n) == seq!['/'] + name + seq!['-'] + digits(n),
{
    reveal_strlit("/");
    reveal_strlit("-");
    assert("/"@ =~= seq!['/']);
    assert("-"@ =~= seq!['-']);
    let base = seq!['/'] + name;
    assert(base.skip(1) =~= name);
    assert(name.take(name.len() as int) =~= name);
    assert(name.skip(name.len() as int) =~= Seq::<char>::empty());
    assert(candidate(base, Kind::File, n) =~= seq!['/'] + name + seq!['-'] + digits(n));
}

} // verus!
