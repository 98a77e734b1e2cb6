//! What the calls promise that read text, print it, lay out commands or keep time, said
//! of what goes into a call and what comes out of it.

use rusqlite::Connection;
use vstd::prelude::*;

use crate::cli;
use crate::cli::{Cli, InstallArgs, LifecycleArgs, LogsArgs};
use crate::client::{ClientError, Failure};
use crate::config;
use crate::config::{Config, ConfigFile};
use crate::daemon;
use crate::daemon::{Drained, Shutdown};
use crate::db::{rows, sqlite_fails, DbError, Kind, Row};
use crate::host;
use crate::install;
use crate::install::{Account, Action, Host, SystemServiceTarget};
use crate::lifecycle;
use crate::lifecycle::Removal;
use crate::listing;
use crate::listing::{moment_of, moment_text, size_text, Entry};
use crate::output;
use crate::output::OutputMode;
use crate::paths;
use crate::paths::FileType;
use crate::promises::lasts;
use crate::text;
use crate::text::{digits, escaped, is_digit, is_letter, is_space, trimmed, views};
use crate::ttl;
use crate::ttl::{humantime_duration, humantime_text, overruns, Duration, TouchDebouncer, Ttl};

verus! {

// ---------------------------------------------------------------------------
// Text
// ---------------------------------------------------------------------------

/// A text begins with another exactly where it is that and something behind it, and
/// what is left is that something; likewise for its end.
pub proof fn lemma_beginnings_and_ends(s: &str, p: &str, rest: Seq<char>, r: bool, o: Option<String>)
    ensures
        call_ensures(text::starts_with, (s, p), r) && s@ == p@ + rest ==> r,
        call_ensures(text::ends_with, (s, p), r) && s@ == rest + p@ ==> r,
        call_ensures(text::strip_prefix, (s, p), o) && s@ == p@ + rest ==> (o matches Some(t) && t@
            == rest),
        call_ensures(text::starts_with, (s, p), r) && r ==> s@ == p@ + s@.skip(p@.len() as int),
        call_ensures(text::ends_with, (s, p), r) && r ==> s@ == s@.take(s@.len() - p@.len()) + p@,
        call_ensures(text::strip_prefix, (s, p), o) ==> (o matches Some(t) ==> s@ == p@ + t@),
{
    if s@ == p@ + rest {
        assert(s@.take(p@.len() as int) =~= p@);
        assert(s@.skip(p@.len() as int) =~= rest);
    }
    if s@ == rest + p@ {
        assert(s@.skip(s@.len() - p@.len()) =~= p@);
    }
    if text::has_prefix(s@, p@) {
        assert(s@ =~= s@.take(p@.len() as int) + s@.skip(p@.len() as int));
    }
    if text::has_suffix(s@, p@) {
        assert(s@ =~= s@.take(s@.len() - p@.len()) + s@.skip(s@.len() - p@.len()));
    }
}

/// Digits, letters and white space are told apart from every other character.
pub proof fn lemma_kinds_of_characters(c: char, r: bool)
    ensures
        call_ensures(text::digit, (c,), r) ==> (r <==> '0' <= c <= '9'),
        call_ensures(text::letter, (c,), r) ==> (r <==> 'a' <= c <= 'z' || 'A' <= c <= 'Z'),
        call_ensures(text::space, (c,), r) ==> (r <==> is_space(c)) && (c == ' ' || c == '\t' || c
            == '\n' || c == '\r' ==> r) && ('!' <= c <= '~' ==> !r),
{
    text::lemma_white_space(c);
}

/// Trimming takes the white space around text away, and nothing of the text.
pub proof fn lemma_trimming(s: &str, a: Seq<char>, t: Seq<char>, b: Seq<char>, r: String)
    requires
        call_ensures(text::trim, (s,), r),
        s@ == a + t + b,
        forall|i: int| 0 <= i < a.len() ==> is_space(#[trigger] a[i]),
        forall|i: int| 0 <= i < b.len() ==> is_space(#[trigger] b[i]),
        t.len() > 0 ==> !is_space(t[0]) && !is_space(t.last()),
    ensures
        r@ == t,
{
    text::lemma_trimmed_around(a, t, b);
}

/// A number in decimal reads back as the number, and only the largest are refused.
pub proof fn lemma_numbers_read_back(n: u64, written: String, s: &str, r: Option<i64>)
    requires
        call_ensures(text::decimal, (n,), written),
        s@ == written@,
        call_ensures(text::parse_digits, (s,), r),
    ensures
        n <= i64::MAX ==> (r matches Some(k) && k == n),
        n > i64::MAX ==> r is None,
{
    text::lemma_decimal(n as nat);
}

/// The pieces between separators, put together again, are the text, and none holds the
/// separator.
pub proof fn lemma_pieces(s: &str, c: char, a: Seq<char>, b: Seq<char>, r: Vec<String>)
    requires
        call_ensures(text::split_text, (s, c), r),
    ensures
        !s@.contains(c) ==> r@.len() == 1 && r@[0]@ == s@,
        s@ == a + seq![c] + b && !a.contains(c) ==> r@.len() >= 2 && r@[0]@ == a,
{
    assert(views(r@).len() == r@.len());
    assert(views(r@)[0] == r@[0]@);
    if !s@.contains(c) {
        text::lemma_split_whole(s@, c);
    }
    if s@ == a + seq![c] + b && !a.contains(c) {
        text::lemma_split_around(a, b, c);
        text::lemma_split_whole(a, c);
        assert(text::split(b, c).len() >= 1);
    }
}

/// Text is escaped character by character: four of them by their entities, every other
/// by itself.
pub proof fn lemma_escaping(s: &str, a: Seq<char>, c: char, b: Seq<char>, quotes: bool, r: String)
    requires
        call_ensures(text::escape, (s, quotes), r),
        s@ == a + seq![c] + b,
    ensures
        r@ == escaped(a, quotes) + (if c == '&' {
            "&amp;"@
        } else if c == '<' {
            "&lt;"@
        } else if c == '>' {
            "&gt;"@
        } else if c == '"' && quotes {
            "&quot;"@
        } else {
            seq![c]
        }) + escaped(b, quotes),
{
    text::lemma_escaped_around(a + seq![c], b, quotes);
    text::lemma_escaped_around(a, seq![c], quotes);
    text::lemma_escaped_one(c, quotes);
}

// ---------------------------------------------------------------------------
// Paths of the user
// ---------------------------------------------------------------------------

/// A path of a user is taken as it is where it is absolute, from the current folder
/// where it is relative, and from the home folder behind a tilde and a slash.
pub proof fn lemma_paths_of_the_user(
    input: &str,
    cwd: &str,
    home: &str,
    rest: Seq<char>,
    r: Result<String, String>,
)
    requires
        call_ensures(paths::user_path, (input, cwd, Some(home)), r),
        cwd@.len() > 0,
        cwd@.last() != '/',
        home@.len() > 0,
        home@.last() != '/',
        home@[0] == '/',
    ensures
        input@.len() > 0 && input@[0] == '/' ==> (r matches Ok(p) && p@ == input@),
        input@.len() > 0 && input@[0] != '/' && input@[0] != '~' ==> (r matches Ok(p) && p@ == cwd@
            + seq!['/'] + input@),
        input@ == seq!['~'] ==> (r matches Ok(p) && p@ == home@),
        input@ == seq!['~', '/'] + rest && (rest.len() == 0 || rest[0] != '/') ==> (r matches Ok(p)
            && p@ == home@ + seq!['/'] + rest),
{
    paths::lemma_tilde(rest, home@, input@);
    if input@.len() > 0 && input@[0] != '~' {
        paths::lemma_user_path(input@, cwd@, Some(home@));
    }
    assert((home@ + seq!['/'] + rest)[0] == home@[0]);
}

/// A file and a folder are registered as such under their canonical path, and anything
/// else is refused.
pub proof fn lemma_what_is_registered(
    joined: &str,
    found: Option<(String, FileType)>,
    abs: String,
    r: Result<(String, Kind), String>,
)
    requires
        call_ensures(paths::canonicalize_user_path, (joined, found), r),
    ensures
        found == Some((abs, FileType::File)) ==> (r matches Ok((p, k)) && p@ == abs@ && k
            == Kind::File),
        found == Some((abs, FileType::Dir)) ==> (r matches Ok((p, k)) && p@ == abs@ && k
            == Kind::Dir),
        found == Some((abs, FileType::Other)) ==> r is Err,
        found is None ==> (r matches Err(e) && text::has_suffix(e@, joined@)),
{
    if found is None {
        let e = r->Err_0@;
        assert(e.skip(e.len() - joined@.len()) =~= joined@);
    }
}

/// A path below a folder is the folder, a slash and the path.
pub proof fn lemma_joining(base: &str, rel: &str, r: String)
    requires
        call_ensures(paths::join, (base, rel), r),
    ensures
        rel@.len() > 0 && rel@[0] == '/' ==> r@ == rel@,
        !(rel@.len() > 0 && rel@[0] == '/') && base@.len() > 0 && base@.last() != '/' ==> r@ == base@
            + seq!['/'] + rel@,
        !(rel@.len() > 0 && rel@[0] == '/') && (base@.len() == 0 || base@.last() == '/') ==> r@
            == base@ + rel@,
{
}

// ---------------------------------------------------------------------------
// Lifetimes
// ---------------------------------------------------------------------------

/// The word `never` in any case is a lifetime without an end, and text that begins with
/// a digit and ends with a letter is the span that it parses to, of at least a second.
pub proof fn lemma_reading_a_lifetime(
    s: &str,
    a: Seq<char>,
    t: Seq<char>,
    b: Seq<char>,
    r: Result<Ttl, String>,
)
    requires
        call_ensures(ttl::parse_ttl, (s,), r),
        s@ == a + t + b,
        forall|i: int| 0 <= i < a.len() ==> is_space(#[trigger] a[i]),
        forall|i: int| 0 <= i < b.len() ==> is_space(#[trigger] b[i]),
    ensures
        t.len() == 5 && (t[0] == 'n' || t[0] == 'N') && (t[1] == 'e' || t[1] == 'E') && (t[2] == 'v'
            || t[2] == 'V') && (t[3] == 'e' || t[3] == 'E') && (t[4] == 'r' || t[4] == 'R') ==> r
            == Ok::<Ttl, String>(Ttl::Never),
        t.len() > 0 && is_digit(t[0]) && is_letter(t.last()) && !overruns(t) ==> match (
            humantime_duration(t)
        ) {
            Ok((secs, nanos)) => if secs > 0 {
                r == Ok::<Ttl, String>(Ttl::Duration(Duration { secs, nanos }))
            } else {
                r matches Err(e) && e@ == "--ttl must be > 0 or 'never'"@
            },
            Err(why) => r matches Err(e) && e@ == "could not parse --ttl: "@ + why,
        },
        t.len() == 0 ==> (r matches Err(e) && e@ == "--ttl must be > 0 or 'never'"@),
        t.len() > 0 && (forall|i: int| 0 <= i < t.len() ==> '0' <= #[trigger] t[i] <= '9') ==> (
        r matches Err(e) && e@ == "--ttl requires an explicit unit (e.g. 30s, 5m, 2h)"@),
{
    let parsed = humantime_duration(trimmed(s@));
    if t.len() == 5 && (t[0] == 'n' || t[0] == 'N') && (t[1] == 'e' || t[1] == 'E') && (t[2] == 'v'
        || t[2] == 'V') && (t[3] == 'e' || t[3] == 'E') && (t[4] == 'r' || t[4] == 'R') {
        ttl::lemma_never_in_any_case(a, t, b, parsed);
    }
    if t.len() > 0 && is_digit(t[0]) && is_letter(t.last()) && !overruns(t) {
        match humantime_duration(t) {
            Ok((secs, nanos)) => {
                ttl::lemma_spans_are_taken_whole(a, t, b, secs, nanos, Seq::empty());
            },
            Err(e) => {
                ttl::lemma_spans_are_taken_whole(a, t, b, 1, 0, e);
            },
        }
    }
    if t.len() == 0 {
        assert(a + t + b =~= a + b);
        ttl::lemma_refused_lifetimes(s@, a, seq!['0'], b, parsed);
    }
    if t.len() > 0 && (forall|i: int| 0 <= i < t.len() ==> '0' <= #[trigger] t[i] <= '9') {
        assert('0' <= t[t.len() - 1] <= '9');
        text::lemma_white_space(t.last());
        ttl::lemma_refused_lifetimes(s@, a, t, b, parsed);
    }
}

/// A lifetime in seconds is the span's seconds, and `never` has none.
pub proof fn lemma_seconds_of_a_lifetime(t: Ttl, d: Duration, r: Option<i64>)
    requires
        call_ensures(Ttl::as_seconds, (&t,), r),
        d.secs <= i64::MAX,
    ensures
        t == Ttl::Duration(d) ==> (r matches Some(n) && n == d.secs),
        t is Never ==> r is None,
{
}

/// What is written of a lifetime reads back as that lifetime.
pub proof fn lemma_lifetimes_read_back(t: Ttl, written: String, s: &str, r: Result<Ttl, String>)
    requires
        call_ensures(Ttl::render, (&t,), written),
        t matches Ttl::Duration(d) ==> d.secs > 0,
        s@ == written@,
        call_ensures(ttl::parse_ttl, (s,), r),
    ensures
        r == Ok::<Ttl, String>(t),
{
}

/// The time left is `never`, `expired`, or the span that is left: below an hour exactly,
/// and below a day to the minute.
pub proof fn lemma_showing_the_time_left(secs: Option<i64>, r: String)
    requires
        call_ensures(ttl::format_expires_in, (secs,), r),
    ensures
        secs is None ==> r@ == "never"@,
        secs matches Some(s) ==> {
            &&& s <= 0 ==> r@ == "expired"@
            &&& 0 < s < 3600 ==> r@ == "in "@ + humantime_text(s as u64, 0)
            &&& 3600 <= s < 86_340 ==> exists|n: u64|
                r@ == "in "@ + #[trigger] humantime_text(n, 0) && n % 60 == 0 && s - 30 < n <= s + 30
        },
{
    if secs is Some {
        let s = secs->0;
        ttl::lemma_time_left(s);
        if 3600 <= s < 86_340 {
            let shown = ttl::shown_seconds(s as nat);
            ttl::lemma_nearest_minute_is_shown(s as nat);
            ttl::lemma_short_spans_are_kept(shown);
            assert(r@ == "in "@ + humantime_text(shown as u64, 0));
        }
    }
}

/// The first hit on a registration is written; a later one only where the usual span, or
/// half the lifetime and at least a second, has gone by; and none without a lifetime.
pub proof fn lemma_writing_hits(id: i64, ttl: i64, now: Duration)
    ensures
        forall|t: &mut TouchDebouncer, r: bool| #[trigger]
            call_ensures(TouchDebouncer::touch, (t, id, None::<i64>, now), r) ==> !r
                && final(t).pending() == t.pending(),
        forall|t: &mut TouchDebouncer, r: bool| #[trigger]
            call_ensures(TouchDebouncer::touch, (t, id, Some(ttl), now), r) ==> {
                let at = now.secs * 1_000_000_000 + now.nanos;
                let seen = t.pending().dom().contains(id);
                let last = t.pending()[id];
                &&& !seen ==> r
                &&& seen && at >= last + t.window() ==> r
                &&& seen && ttl >= 2 && 2 * (at - last) >= ttl * 1_000_000_000 ==> r
                &&& seen && ttl < 2 && at >= last + 1_000_000_000 ==> r
                &&& seen && ttl >= 2 && last <= at < last + t.window() && 2 * (at - last) < ttl
                    * 1_000_000_000 ==> !r
                &&& seen && last <= at < last + t.window() && at < last + 1_000_000_000 ==> !r
                &&& r ==> final(t).pending() == t.pending().insert(id, at as u128)
                &&& !r ==> final(t).pending() == t.pending()
                &&& final(t).window() == t.window()
            },
{
    assert forall|t: &mut TouchDebouncer, r: bool| #[trigger]
        call_ensures(TouchDebouncer::touch, (t, id, Some(ttl), now), r) implies {
        let at = now.secs * 1_000_000_000 + now.nanos;
        let seen = t.pending().dom().contains(id);
        let last = t.pending()[id];
        &&& !seen ==> r
        &&& seen && at >= last + t.window() ==> r
        &&& seen && ttl >= 2 && 2 * (at - last) >= ttl * 1_000_000_000 ==> r
        &&& seen && ttl < 2 && at >= last + 1_000_000_000 ==> r
        &&& seen && ttl >= 2 && last <= at < last + t.window() && 2 * (at - last) < ttl
            * 1_000_000_000 ==> !r
        &&& seen && last <= at < last + t.window() && at < last + 1_000_000_000 ==> !r
        &&& r ==> final(t).pending() == t.pending().insert(id, at as u128)
        &&& !r ==> final(t).pending() == t.pending()
        &&& final(t).window() == t.window()
    } by {
        ttl::lemma_span_in_nanoseconds(now);
        ttl::lemma_which_hits_are_written(t.pending(), t.window(), id, ttl, now.total());
    }
}

/// The usual span between two writes is half a minute, and nothing is on record at
/// first.
pub proof fn lemma_nothing_on_record(r: TouchDebouncer)
    requires
        call_ensures(TouchDebouncer::spawn, (), r),
    ensures
        r.window() == 30 * 1_000_000_000,
        r.pending().dom() == Set::<i64>::empty(),
{
    assert(Map::<i64, u128>::empty().dom() =~= Set::<i64>::empty());
}

/// A hit that is due is written to its registration alone, and one that is not due to
/// none.
pub proof fn lemma_hits_on_the_registry(
    id: i64,
    ttl: Option<i64>,
    at: Duration,
    now: i64,
    k: i64,
)
    ensures
        forall|t: &mut TouchDebouncer, c: &mut Connection, res: Result<bool, DbError>| #[trigger]
            call_ensures(daemon::hit, (t, c, id, ttl, at, now), res) ==> {
                let m = rows(*c);
                let n = rows(*final(c));
                &&& ttl is None ==> res == Ok::<bool, DbError>(false) && *final(c) == *c
                &&& ttl is Some && !t.pending().dom().contains(id) ==> (res is Ok ==> res->Ok_0)
                &&& res == Ok::<bool, DbError>(false) ==> *final(c) == *c
                &&& res == Ok::<bool, DbError>(true) ==> {
                    &&& n.dom() == m.dom()
                    &&& k != id ==> n[k] == m[k]
                    &&& m.dom().contains(id) && m[id].expires_at is Some && lasts(m[id], now)
                        && m[id].ttl_seconds is Some ==> (n[id].expires_at matches Some(e) && e == now
                        + m[id].ttl_seconds->0)
                    &&& m.dom().contains(id) && !lasts(m[id], now) ==> n[id] == m[id]
                }
                &&& res matches Err(e) ==> sqlite_fails(*c, e) || (e is DeadlineOverflow && *final(c)
                    == *c)
            },
{
    assert forall|t: &mut TouchDebouncer, c: &mut Connection, res: Result<bool, DbError>| #[trigger]
        call_ensures(daemon::hit, (t, c, id, ttl, at, now), res) && res == Ok::<bool, DbError>(
            true,
        ) implies rows(*final(c)).dom() == rows(*c).dom() && (k != id ==> rows(*final(c))[k] == rows(
        *c,
    )[k]) by {
        crate::db::lemma_one_row_is_updated(
            rows(*c),
            id,
            |r: Row| crate::db::touched(r, now),
            k,
        );
    }
}

/// When the daemon stops, the hits on record are forgotten, and where nothing fails
/// exactly the live registrations are left.
pub proof fn lemma_stopping(drained: i64, reaped: i64, k: i64)
    ensures
        forall|t: &mut TouchDebouncer, c: &mut Connection, r: Shutdown| #[trigger]
            call_ensures(daemon::shut_down, (t, c, drained, reaped), r) ==> {
                let m = rows(*c);
                let n = rows(*final(c));
                &&& final(t).pending() == Map::<i64, u128>::empty()
                &&& r.reaped is Ok ==> (n.dom().contains(k) ==> lasts(n[k], reaped))
                &&& r.reaped is Ok && r.drained.failed == r.drained.overflowed ==> {
                    &&& n.dom().contains(k) ==> m.dom().contains(k)
                    &&& m.dom().contains(k) && !t.pending().dom().contains(k) ==> (n.dom().contains(k)
                        <==> lasts(m[k], reaped)) && (n.dom().contains(k) ==> n[k] == m[k])
                    &&& m.dom().contains(k) && m[k].expires_at is None ==> n.dom().contains(k) && n[k]
                        == m[k]
                    &&& m.dom().contains(k) && !lasts(m[k], drained) && drained <= reaped
                        ==> !n.dom().contains(k)
                }
            },
{
    assert forall|t: &mut TouchDebouncer, c: &mut Connection, r: Shutdown| #[trigger]
        call_ensures(daemon::shut_down, (t, c, drained, reaped), r) implies {
        let m = rows(*c);
        let n = rows(*final(c));
        &&& r.reaped is Ok ==> (n.dom().contains(k) ==> lasts(n[k], reaped))
        &&& r.reaped is Ok && r.drained.failed == r.drained.overflowed ==> {
            &&& n.dom().contains(k) ==> m.dom().contains(k)
            &&& m.dom().contains(k) && !t.pending().dom().contains(k) ==> (n.dom().contains(k)
                <==> lasts(m[k], reaped)) && (n.dom().contains(k) ==> n[k] == m[k])
            &&& m.dom().contains(k) && m[k].expires_at is None ==> n.dom().contains(k) && n[k]
                == m[k]
            &&& m.dom().contains(k) && !lasts(m[k], drained) && drained <= reaped
                ==> !n.dom().contains(k)
        }
    } by {
        let n = rows(*final(c));
        let left = daemon::flushed(rows(*c), t.pending().dom(), drained);
        daemon::lemma_what_a_sweep_keeps(n, reaped, k);
        daemon::lemma_what_a_sweep_keeps(left, reaped, k);
        daemon::lemma_stopping_leaves_the_live(
            rows(*c),
            t.pending().dom(),
            drained,
            reaped,
            k,
        );
        if r.reaped is Ok {
            assert(!crate::db::ids_before(n, reaped).contains(k));
        }
    }
}

// ---------------------------------------------------------------------------
// Names and settings
// ---------------------------------------------------------------------------

/// The host's name in URLs is what the environment states, else what the configuration
/// states, without the white space around it, else the full name where it has a dot,
/// else the short name.
pub proof fn lemma_naming_the_host(
    env: Option<&str>,
    configured: Option<&str>,
    fqdn: Option<&str>,
    short: Option<&str>,
    a: Seq<char>,
    name: Seq<char>,
    b: Seq<char>,
    r: String,
)
    requires
        call_ensures(host::resolve_public_host, (env, configured, fqdn, short), r),
        forall|i: int| 0 <= i < a.len() ==> is_space(#[trigger] a[i]),
        forall|i: int| 0 <= i < b.len() ==> is_space(#[trigger] b[i]),
        name.len() > 0,
        !is_space(name[0]),
        !is_space(name.last()),
    ensures
        env matches Some(e) ==> (e@ == a + name + b ==> r@ == name),
        env is None ==> (configured matches Some(c) ==> (c@ == a + name + b ==> r@ == name)),
        env is None && configured is None ==> {
            &&& fqdn matches Some(f) ==> (f@.contains('.') ==> r@ == f@)
            &&& fqdn is None ==> (short matches Some(s) ==> (s@.len() > 0 ==> r@ == s@))
            &&& fqdn matches Some(f) ==> (!f@.contains('.') ==> (short matches Some(s) ==> (s@.len()
                > 0 ==> r@ == s@)))
            &&& fqdn is None && short is None ==> r@ == "localhost"@
        },
        r@.len() > 0,
{
    host::lemma_stated_host_stands(
        a,
        name,
        b,
        None,
        paths::opt_str_view(configured),
        paths::opt_str_view(fqdn),
        paths::opt_str_view(short),
    );
    host::lemma_public_host_is_not_empty(
        paths::opt_str_view(env),
        paths::opt_str_view(configured),
        paths::opt_str_view(fqdn),
        paths::opt_str_view(short),
    );
}

/// What a configuration file says counts; what it does not say is as usual, and so is
/// everything without a file.
pub proof fn lemma_configuration(file: Option<ConfigFile>, r: Result<Config, String>)
    requires
        call_ensures(Config::load, (file,), r),
    ensures
        file is None ==> (r matches Ok(c) && c.port == 4769 && c.bind@ == "0.0.0.0"@ && c.default_ttl
            == Ttl::Duration(Duration { secs: 86_400, nanos: 0 }) && c.public_host is None),
        file matches Some(f) ==> {
            &&& r matches Ok(c) ==> {
                &&& c.port == match f.port {
                    Some(p) => p,
                    None => 4769,
                }
                &&& c.bind@ == match f.bind {
                    Some(b) => b@,
                    None => "0.0.0.0"@,
                }
                &&& f.public_host matches Some(h) ==> (c.public_host matches Some(g) && g@ == h@)
                &&& f.public_host is None ==> c.public_host is None
                &&& f.default_ttl is None ==> c.default_ttl == Ttl::Duration(
                    Duration { secs: 86_400, nanos: 0 },
                )
            }
            &&& f.default_ttl is None ==> r is Ok
            &&& f.default_ttl matches Some(t) ==> (t@ == "never"@ ==> (r matches Ok(c)
                && c.default_ttl is Never))
        },
{
    if file is Some {
        let f = file->0;
        if f.default_ttl is Some && f.default_ttl->0@ == "never"@ {
            let none = Seq::<char>::empty();
            let word = "never"@;
            reveal_strlit("never");
            assert(none + word + none =~= word);
            ttl::lemma_never_in_any_case(
                none,
                word,
                none,
                humantime_duration(config::file_ttl_text(f)),
            );
        }
    }
}

/// A configuration that is saved and loaded again is the same.
pub proof fn lemma_configuration_reads_back(c: Config, f: ConfigFile, r: Result<Config, String>)
    requires
        call_ensures(Config::to_file, (&c,), f),
        call_ensures(Config::load, (Some(f),), r),
        c.default_ttl matches Ttl::Duration(d) ==> d.secs > 0,
    ensures
        r matches Ok(again) && again.port == c.port && again.bind@ == c.bind@ && again.default_ttl
            == c.default_ttl && (c.public_host matches Some(h) ==> (
        again.public_host matches Some(g) && g@ == h@)) && (c.public_host is None
            ==> again.public_host is None),
{
}

/// Where the program keeps its files below the home folder.
pub proof fn lemma_files_below_home(c: Config, home: &str, r: String)
    requires
        home@.len() > 0,
        home@.last() != '/',
    ensures
        call_ensures(Config::registry_db_path, (&c, home), r) ==> r@ == home@
            + "/.servant/registry.db"@,
        call_ensures(Config::control_socket_path, (&c, home), r) ==> r@ == home@
            + "/.servant/control.sock"@,
        call_ensures(Config::daemon_lock_path, (&c, home), r) ==> r@ == home@
            + "/.servant/daemon.lock"@,
        call_ensures(config::config_file_path, (home,), r) ==> r@ == home@
            + "/.config/servant/config.toml"@,
        call_ensures(config::systemd_unit_path, (home,), r) ==> r@ == home@
            + "/.config/systemd/user/servant.service"@,
        call_ensures(Config::listen_address, (&c,), r) ==> r@ == c.bind@ + ":"@ + digits(
            c.port as nat,
        ),
{
    config::lemma_where_files_are(home@);
}

/// The home folder is what the environment says, else what the system says.
pub proof fn lemma_home_folder(
    env: Option<&str>,
    system: Option<&str>,
    r: Result<String, String>,
)
    requires
        call_ensures(config::home_dir, (env, system), r),
    ensures
        env matches Some(h) ==> (r matches Ok(p) && p@ == h@),
        env is None ==> (system matches Some(h) ==> (r matches Ok(p) && p@ == h@)),
        env is None && system is None ==> r is Err,
{
}

/// The flag before or behind the command, or the environment, asks for JSON.
pub proof fn lemma_asking_for_json(c: Cli, env: Option<&str>, r: OutputMode)
    requires
        call_ensures(cli::output_mode, (&c, env), r),
    ensures
        c.json ==> r == OutputMode::Json,
        cli::command_asks_json(c.command) ==> r == OutputMode::Json,
        env matches Some(v) ==> (v@.len() > 0 && !(v@.len() == 1 && v@[0] == '0') ==> r
            == OutputMode::Json),
        !c.json && !cli::command_asks_json(c.command) && env is None ==> r == OutputMode::Human,
        !c.json && !cli::command_asks_json(c.command) ==> (env matches Some(v) ==> (v@.len() == 0
            || v@ == seq!['0'] ==> r == OutputMode::Human)),
{
    if env is Some {
        cli::lemma_environment_asks(env->0@);
    }
}

/// A daemon that is not there has an exit code of its own.
pub proof fn lemma_exit_codes(why: String, m: String, r: i32)
    ensures
        call_ensures(cli::exit_code, (&Failure::Client(ClientError::Unreachable(why)),), r) ==> r
            == 2,
        call_ensures(cli::exit_code, (&Failure::Other(m),), r) ==> r == 1,
        call_ensures(cli::usage_exit_code, (true,), r) ==> r == 0,
        call_ensures(cli::usage_exit_code, (false,), r) ==> r == 1,
{
}

/// An error is printed for people behind the program's name, and for programs with its
/// code and its message in quotation marks.
pub proof fn lemma_printing_an_error(mode: OutputMode, msg: &str, code: i32, r: String)
    requires
        call_ensures(output::print_error, (mode, msg, code), r),
    ensures
        mode == OutputMode::Human ==> r@ == "servant: "@ + msg@,
        mode == OutputMode::Json && code >= 0 ==> r@ == "{\"code\":"@ + digits(code as nat)
            + ",\"error\":"@ + output::json_string(msg@) + "}"@,
{
}

// ---------------------------------------------------------------------------
// The service
// ---------------------------------------------------------------------------

/// The user's service is installed by saving the configuration, writing the unit file
/// for this program, and having the user's systemd read it and start the service; at
/// last the daemon must answer.
pub proof fn lemma_installing_for_the_user(
    args: InstallArgs,
    h: Host,
    target: Result<SystemServiceTarget, String>,
    r: Result<Vec<Action>, String>,
)
    requires
        call_ensures(install::run_install, (&args, &h, &target), r),
        !args.system,
        h.home@.len() > 0,
        h.home@.last() != '/',
    ensures
        !h.systemctl ==> r is Err,
        h.systemctl ==> (r matches Ok(a) && {
            let n = a@.len() as int;
            &&& n == if h.user@.len() > 0 {
                6int
            } else {
                5
            }
            &&& a@[0] matches Action::UpdateConfig { home, path } && home@ == h.home@ && path@
                == h.home@ + "/.config/servant/config.toml"@
            &&& a@[1] matches Action::WriteUnit { path, text: unit } && path@ == h.home@
                + "/.config/systemd/user/servant.service"@ && text::holds(
                unit@,
                "\nExecStart="@ + h.exe@ + " daemon\n"@,
            )
            &&& a@[2] matches Action::Systemctl { user_service, args: s } && user_service && views(
                s@,
            ) == seq!["--user"@, "daemon-reload"@]
            &&& a@[3] matches Action::Systemctl { user_service, args: s } && user_service && views(
                s@,
            ) == seq!["--user"@, "enable"@, "--now"@, "servant"@]
            &&& h.user@.len() > 0 ==> (a@[4] matches Action::EnableLinger(u) && u@ == h.user@)
            &&& a@[n - 1] matches Action::CheckHealth(log) && log@ == "journalctl --user -u servant"@
        }),
{
    install::lemma_how_the_user_service_is_installed(h);
    if h.systemctl {
        let a = r->Ok_0@;
        let v = install::action_views(a);
        let n = a.len() as int;
        assert(v.len() == n);
        assert(v[0] == a[0].view());
        assert(v[1] == a[1].view());
        assert(v[2] == a[2].view());
        assert(v[3] == a[3].view());
        assert(v[4] == a[4].view());
        assert(v[n - 1] == a[n - 1].view());
    }
}

/// A service of the system is installed by root alone, for a user who is known: it runs
/// this program as that user.
pub proof fn lemma_installing_for_the_system(
    args: InstallArgs,
    h: Host,
    t: SystemServiceTarget,
    target: Result<SystemServiceTarget, String>,
    r: Result<Vec<Action>, String>,
)
    requires
        call_ensures(install::run_install, (&args, &h, &target), r),
        args.system,
        t.home@.len() > 0,
        t.home@.last() != '/',
    ensures
        !h.systemctl || !h.root || target is Err ==> r is Err,
        h.systemctl && h.root && target == Ok::<SystemServiceTarget, String>(t) ==> (r matches Ok(a)
            && {
            let service = "servant-user-"@ + digits(t.uid as nat) + ".service"@;
            &&& a@.len() == 6
            &&& a@[0] matches Action::UpdateConfig { home, path } && home@ == t.home@ && path@
                == t.home@ + "/.config/servant/config.toml"@
            &&& a@[1] matches Action::GiveToUser { uid, gid, paths: given } && uid == t.uid && gid
                == t.gid && given@.len() == 3 && given@[2]@ == t.home@
                + "/.config/servant/config.toml"@
            &&& a@[2] matches Action::WriteUnit { path, text: unit } && path@
                == "/etc/systemd/system/servant-user-"@ + digits(t.uid as nat) + ".service"@
                && text::holds(unit@, "\nUser="@ + t.user@ + "\n"@) && text::holds(
                unit@,
                "\nExecStart="@ + h.exe@ + " daemon\n"@,
            )
            &&& a@[3] matches Action::Systemctl { user_service, args: s } && !user_service && views(
                s@,
            ) == seq!["daemon-reload"@]
            &&& a@[4] matches Action::Systemctl { user_service, args: s } && !user_service && views(
                s@,
            ) == seq!["enable"@, "--now"@, service]
            &&& a@[5] matches Action::CheckHealth(log) && log@ == "journalctl -u "@ + service
        }),
{
    install::lemma_refused_installations(args, h, target);
    install::lemma_how_a_system_service_is_installed(h.exe@, t);
    if h.systemctl && h.root && target == Ok::<SystemServiceTarget, String>(t) {
        let a = r->Ok_0@;
        let v = install::action_views(a);
        assert(v.len() == a.len());
        assert(v[0] == a[0].view());
        assert(v[1] == a[1].view());
        assert(v[2] == a[2].view());
        assert(v[3] == a[3].view());
        assert(v[4] == a[4].view());
        assert(v[5] == a[5].view());
        let given = a[1]->paths@;
        assert(views(given)[2] == given[2]@);
    }
}

/// The service of the system runs as the named user, else as the one who called `sudo`,
/// and never as root.
pub proof fn lemma_user_of_the_service(
    named: Option<&str>,
    sudo: Option<&str>,
    user: &str,
    account: Option<Account>,
    r: Result<String, String>,
    t: Result<SystemServiceTarget, String>,
)
    requires
        call_ensures(install::target_user, (named, sudo), r),
        call_ensures(install::resolve_system_service_target, (user, account), t),
    ensures
        named matches Some(n) ==> (r matches Ok(u) && u@ == n@),
        named is None ==> (sudo matches Some(s) ==> (s@.len() > 0 && s@ != "root"@ ==> (
        r matches Ok(u) && u@ == s@)) && (s@.len() == 0 || s@ == "root"@ ==> r is Err)),
        named is None && sudo is None ==> r is Err,
        account is None ==> t is Err,
        account matches Some(a) ==> {
            &&& a.uid == 0 ==> t is Err
            &&& a.uid != 0 ==> (t matches Ok(x) && x.user@ == a.name@ && x.uid == a.uid && x.gid
                == a.gid && x.home@ == a.home@ && (a.group matches Some(g) ==> x.group@ == g@) && (
            a.group is None ==> x.group@ == digits(a.gid as nat)))
        },
{
}

/// The port and the address of the command line count, and the rest of the configuration
/// stays.
pub proof fn lemma_settings_of_an_installation(args: InstallArgs)
    ensures
        forall|cfg: &mut Config| #[trigger]
            call_ensures(install::apply_install_overrides, (cfg, &args), ()) ==> {
                &&& args.port matches Some(p) ==> final(cfg).port == p
                &&& args.port is None ==> final(cfg).port == cfg.port
                &&& args.bind matches Some(b) ==> final(cfg).bind@ == b@
                &&& args.bind is None ==> final(cfg).bind@ == cfg.bind@
                &&& final(cfg).default_ttl == cfg.default_ttl
                &&& final(cfg).public_host == cfg.public_host
            },
{
}

/// Starting, stopping and restarting run `systemctl` with just that verb on the service.
pub proof fn lemma_verbs_of_the_service(
    args: LifecycleArgs,
    root: bool,
    t: SystemServiceTarget,
    target: Result<SystemServiceTarget, String>,
    r: Result<Vec<String>, String>,
)
    requires
        target == Ok::<SystemServiceTarget, String>(t),
        !args.system || args.system_user is Some || root,
    ensures
        ({
            let service = "servant-user-"@ + digits(t.uid as nat) + ".service"@;
            &&& call_ensures(lifecycle::start, (&args, true, root, &target), r) ==> (r matches Ok(v)
                && views(v@) == if args.system {
                seq!["start"@, service]
            } else {
                seq!["--user"@, "start"@, "servant"@]
            })
            &&& call_ensures(lifecycle::stop, (&args, true, root, &target), r) ==> (r matches Ok(v)
                && views(v@) == if args.system {
                seq!["stop"@, service]
            } else {
                seq!["--user"@, "stop"@, "servant"@]
            })
            &&& call_ensures(lifecycle::restart, (&args, true, root, &target), r) ==> (
            r matches Ok(v) && views(v@) == if args.system {
                seq!["restart"@, service]
            } else {
                seq!["--user"@, "restart"@, "servant"@]
            })
        }),
        call_ensures(lifecycle::start, (&args, false, root, &target), r) ==> r is Err,
        call_ensures(lifecycle::stop, (&args, false, root, &target), r) ==> r is Err,
        call_ensures(lifecycle::restart, (&args, false, root, &target), r) ==> r is Err,
{
    lifecycle::lemma_what_systemctl_is_asked("start"@, args, root, t, target);
    lifecycle::lemma_what_systemctl_is_asked("stop"@, args, root, t, target);
    lifecycle::lemma_what_systemctl_is_asked("restart"@, args, root, t, target);
}

/// The service that is removed is the one that was installed, and a service of the
/// system is removed by root alone.
pub proof fn lemma_removing_the_service(
    args: LifecycleArgs,
    root: bool,
    home: &str,
    t: SystemServiceTarget,
    target: Result<SystemServiceTarget, String>,
    r: Result<Removal, String>,
)
    requires
        call_ensures(lifecycle::uninstall, (&args, true, root, home, &target), r),
        home@.len() > 0,
        home@.last() != '/',
    ensures
        !args.system ==> (r matches Ok(x) && x.unit@ == home@
            + "/.config/systemd/user/servant.service"@ && views(x.disable@) == seq![
            "--user"@,
            "disable"@,
            "--now"@,
            "servant"@,
        ] && views(x.reload@) == seq!["--user"@, "daemon-reload"@]),
        args.system && (!root || target is Err) ==> r is Err,
        args.system && root && target == Ok::<SystemServiceTarget, String>(t) ==> (r matches Ok(x)
            && {
            let service = "servant-user-"@ + digits(t.uid as nat) + ".service"@;
            &&& x.unit@ == "/etc/systemd/system/"@ + service
            &&& views(x.disable@) == seq!["disable"@, "--now"@, service]
            &&& views(x.reload@) == seq!["daemon-reload"@]
        }),
{
    lifecycle::lemma_refused_removals(args, true, root, target);
    if r is Ok {
        lifecycle::lemma_what_was_installed_is_removed(r->Ok_0, args, home@, target->Ok_0);
    }
}

/// The log that is shown is that of the service, followed and cut as was asked for.
pub proof fn lemma_showing_the_log(
    args: LogsArgs,
    root: bool,
    t: SystemServiceTarget,
    target: Result<SystemServiceTarget, String>,
    lines: u32,
    r: Result<Vec<String>, String>,
)
    requires
        target == Ok::<SystemServiceTarget, String>(t),
        !args.system || args.system_user is Some || root,
        call_ensures(lifecycle::logs, (&args, true, root, &target), r),
    ensures
        r matches Ok(v) && {
            let unit = if args.system {
                seq!["-u"@, "servant-user-"@ + digits(t.uid as nat) + ".service"@]
            } else {
                seq!["--user-unit"@, "servant"@]
            };
            &&& !args.follow && args.lines is None ==> views(v@) == unit
            &&& args.follow && args.lines is None ==> views(v@) == unit.push("-f"@)
            &&& !args.follow && args.lines == Some(lines) ==> views(v@) == unit.push("-n"@).push(
                digits(lines as nat),
            )
            &&& args.follow && args.lines == Some(lines) ==> views(v@) == unit.push("-f"@).push(
                "-n"@,
            ).push(digits(lines as nat))
        },
{
    lifecycle::lemma_what_journalctl_is_asked(args, root, t, lines);
}

// ---------------------------------------------------------------------------
// The page of a folder
// ---------------------------------------------------------------------------

/// The page of a folder is headed by its URL path and has a row for every entry that is
/// not hidden and could be looked at, with its name, its size and when it was changed.
pub proof fn lemma_page_of_a_folder(entries: Vec<Entry>, url_prefix: &str, i: usize, r: String)
    requires
        call_ensures(listing::render, (&entries, url_prefix), r),
        i < entries@.len(),
    ensures
        text::holds(r@, "<h1>Index of "@ + escaped(url_prefix@, true) + "</h1><table>"@),
        ({
            let e = entries@[i as int];
            let hidden = e.name@.len() > 0 && e.name@[0] == '.';
            !hidden ==> (e.metadata matches Some(m) ==> {
                let label = if m.is_dir {
                    escaped(e.name@ + seq!['/'], true)
                } else {
                    escaped(e.name@, true)
                };
                let size = if m.is_dir {
                    seq!['-']
                } else {
                    escaped(size_text(m.len as nat), true)
                };
                text::holds(
                    r@,
                    "<tr><td><a href=\""@ + label + "\">"@ + label + "</a></td><td>"@ + size
                        + "</td><td>"@ + moment_text(moment_of(m.modified)) + "</td></tr>"@,
                )
            })
        }),
{
    let order = choose|order: Seq<usize>| #[trigger]
        listing::is_order(entries@, order) && r@ == listing::page_text(
            entries@,
            order,
            url_prefix@,
        );
    listing::lemma_page_is_headed(entries@, order, url_prefix@);
    listing::lemma_what_the_listing_holds(entries@, order, i);
    let e = entries@[i as int];
    if !(e.name@.len() > 0 && e.name@[0] == '.') {
        let k = choose|k: int| 0 <= k < order.len() && order[k] == i;
        listing::lemma_page_holds_each_row(entries@, order, url_prefix@, k);
        listing::lemma_what_a_row_shows(e);
    }
}

/// The entries are listed folders first and by name, without the hidden ones.
pub proof fn lemma_listing_a_folder(entries: Vec<Entry>, k: int, l: int, r: Vec<usize>)
    requires
        call_ensures(listing::listing_order, (&entries,), r),
        0 <= k < l < r@.len(),
    ensures
        r@[k] < entries@.len() && r@[l] < entries@.len(),
        ({
            let a = entries@[r@[k] as int];
            let b = entries@[r@[l] as int];
            &&& r@[k] != r@[l]
            &&& !(a.name@.len() > 0 && a.name@[0] == '.')
            &&& a.is_file ==> b.is_file
            &&& a.is_file == b.is_file ==> !listing_after(a.name@, b.name@)
        }),
{
    listing::lemma_what_the_listing_holds(entries@, r@, r@[k]);
    let a = entries@[r@[k] as int].name@;
    let b = entries@[r@[l] as int].name@;
    if entries@[r@[k] as int].is_file == entries@[r@[l] as int].is_file && listing_after(a, b) {
        let n = choose|n: int| #[trigger] differs_at(a, b, n);
        let same = b.take(n);
        assert(a =~= same + seq![a[n]] + a.skip(n + 1));
        if n < b.len() {
            assert(b =~= same + seq![b[n]] + b.skip(n + 1));
            listing::lemma_order_of_names(same, b[n], b.skip(n + 1), a[n], a.skip(n + 1));
        } else {
            assert(same =~= b);
            lemma_longer_comes_after(b, a[n], a.skip(n + 1));
        }
    }
}

/// The names agree before `n`, and there `a` goes on where `b` ends, or has the larger
/// character.
pub open spec fn differs_at(a: Seq<char>, b: Seq<char>, n: int) -> bool {
    &&& 0 <= n < a.len()
    &&& n <= b.len()
    &&& a.take(n) == b.take(n)
    &&& n == b.len() || a[n] > b[n]
}

/// The name `a` comes after the name `b`.
pub open spec fn listing_after(a: Seq<char>, b: Seq<char>) -> bool {
    exists|n: int| #[trigger] differs_at(a, b, n)
}

proof fn lemma_longer_comes_after(b: Seq<char>, x: char, rest: Seq<char>)
    ensures
        !listing::text_le(b + seq![x] + rest, b),
    decreases b.len(),
{
    let a = b + seq![x] + rest;
    if b.len() > 0 {
        lemma_longer_comes_after(b.skip(1), x, rest);
        assert(a.skip(1) =~= b.skip(1) + seq![x] + rest);
    }
}

/// A size is written exactly below 1024 bytes, and from there on to the nearest tenth of
/// a unit.
pub proof fn lemma_writing_a_size(n: u64, r: String)
    requires
        call_ensures(listing::format_size, (n,), r),
        n < 0x20_0000_0000_0000,
    ensures
        n < 1024 ==> r@ == digits(n as nat) + " B"@,
        1024 <= n < 1_048_576 ==> exists|t: nat|
            r@ == #[trigger] digits(t / 10) + seq!['.'] + digits(t % 10) + " KB"@ && -1024 <= 2 * (t
                * 1024 - 10 * n) <= 1024,
        1_048_576 <= n < 1_073_741_824 ==> exists|t: nat|
            r@ == #[trigger] digits(t / 10) + seq!['.'] + digits(t % 10) + " MB"@ && -1_048_576 <= 2
                * (t * 1_048_576 - 10 * n) <= 1_048_576,
        1_073_741_824 <= n ==> exists|t: nat|
            r@ == #[trigger] digits(t / 10) + seq!['.'] + digits(t % 10) + " GB"@ && -1_073_741_824
                <= 2 * (t * 1_073_741_824 - 10 * n) <= 1_073_741_824,
{
    listing::lemma_size_text(n as nat);
    reveal_strlit(".");
    assert("."@ =~= seq!['.']);
    if 1024 <= n < 1_048_576 {
        let t = choose|t: nat|
            r@ == #[trigger] listing::tenths_text(t) + " KB"@ && -1024 <= 2 * (t * 1024 - 10 * n)
                <= 1024;
        assert(r@ == digits(t / 10) + seq!['.'] + digits(t % 10) + " KB"@);
    }
    if 1_048_576 <= n < 1_073_741_824 {
        let t = choose|t: nat|
            r@ == #[trigger] listing::tenths_text(t) + " MB"@ && -1_048_576 <= 2 * (t * 1_048_576
                - 10 * n) <= 1_048_576;
        assert(r@ == digits(t / 10) + seq!['.'] + digits(t % 10) + " MB"@);
    }
    if 1_073_741_824 <= n {
        let t = choose|t: nat|
            r@ == #[trigger] listing::tenths_text(t) + " GB"@ && -1_073_741_824 <= 2 * (t
                * 1_073_741_824 - 10 * n) <= 1_073_741_824;
        assert(r@ == digits(t / 10) + seq!['.'] + digits(t % 10) + " GB"@);
    }
}

/// The moment so many days, hours, minutes and seconds after the epoch has that hour and
/// minute; the epoch is 1 January 1970.
pub proof fn lemma_telling_the_time(
    s: u64,
    day: u64,
    hour: u64,
    minute: u64,
    second: u64,
    r: (u32, u32, u32, u32, u32),
)
    requires
        call_ensures(listing::epoch_to_ymdhm, (s,), r),
        hour < 24,
        minute < 60,
        second < 60,
        s == day * 86_400 + hour * 3600 + minute * 60 + second,
    ensures
        r.3 == hour,
        r.4 == minute,
        1 <= r.1 <= 12,
        1 <= r.2 <= 31,
        day == 0 ==> r.0 == 1970 && r.1 == 1 && r.2 == 1,
{
    listing::lemma_time_of_day(day, hour, minute, second, s, r);
    if day == 0 {
        listing::lemma_first_day(s, r);
    }
}

/// A moment is written with its year, month, day, hour and minute at fixed places.
pub proof fn lemma_writing_the_time(s: u64, r: String)
    requires
        call_ensures(listing::format_time, (s,), r),
        moment_of(s).0 < 10_000,
    ensures
        r@.len() == 16,
        listing::is_moment(
            s,
            (
                text::value(r@.subrange(0, 4)) as u32,
                text::value(r@.subrange(5, 7)) as u32,
                text::value(r@.subrange(8, 10)) as u32,
                text::value(r@.subrange(11, 13)) as u32,
                text::value(r@.subrange(14, 16)) as u32,
            ),
        ),
        r@[4] == '-' && r@[7] == '-' && r@[10] == ' ' && r@[13] == ':',
{
    lemma_parts_of_a_moment(s, moment_of(s));
    listing::lemma_moment_text(moment_of(s));
}

proof fn lemma_parts_of_a_moment(s: u64, t: (u32, u32, u32, u32, u32))
    requires
        listing::is_moment(s, t),
    ensures
        t.1 < 100,
        t.2 < 100,
        t.3 < 100,
        t.4 < 100,
{
    assert(s % 86_400 / 3600 < 24);
}

// ---------------------------------------------------------------------------
// What is kept and what is passed on
// ---------------------------------------------------------------------------

/// The host's name is resolved once and kept.
pub proof fn lemma_host_is_remembered(
    env: Option<&str>,
    configured: Option<&str>,
    fqdn: Option<&str>,
    short: Option<&str>,
)
    ensures
        forall|kept: &mut Option<String>, r: String| #[trigger]
            call_ensures(
                host::remembered_public_host,
                (kept, env, configured, fqdn, short),
                r,
            ) ==> {
                &&& *kept matches Some(h) ==> r@ == h@
                &&& *kept is None ==> r@ == host::public_host(
                    paths::opt_str_view(env),
                    paths::opt_str_view(configured),
                    paths::opt_str_view(fqdn),
                    paths::opt_str_view(short),
                )
                &&& *final(kept) matches Some(h) && h@ == r@
            },
{
}

/// What `hostname` printed counts where it succeeded, without the white space around it.
pub proof fn lemma_output_of_hostname(
    success: bool,
    stdout: &str,
    a: Seq<char>,
    name: Seq<char>,
    b: Seq<char>,
    r: Option<String>,
)
    requires
        call_ensures(host::hostname_output, (success, stdout), r),
        forall|i: int| 0 <= i < a.len() ==> is_space(#[trigger] a[i]),
        forall|i: int| 0 <= i < b.len() ==> is_space(#[trigger] b[i]),
        name.len() > 0,
        !is_space(name[0]),
        !is_space(name.last()),
    ensures
        !success ==> r is None,
        success && stdout@ == a + name + b ==> (r matches Some(h) && h@ == name),
        stdout@ == a + b ==> r is None,
{
    host::lemma_stated(a, name, b);
}

/// The exit code of a command is passed on, and a signal counts as a failure.
pub proof fn lemma_exit_codes_are_passed_on(code: i32, r: i32)
    ensures
        call_ensures(lifecycle::command_exit_code, (Some(code),), r) ==> r == code,
        call_ensures(lifecycle::command_exit_code, (None::<i32>,), r) ==> r == 1,
{
}

/// The messages of an installation name what they are about.
pub proof fn lemma_messages_of_an_installation(
    s: &str,
    status: &str,
    out: &str,
    errors: &str,
    args: Vec<String>,
    r: String,
)
    ensures
        call_ensures(install::no_such_user, (s,), r) ==> r@ == "target user "@ + s@
            + " does not exist"@,
        call_ensures(install::user_systemd_unavailable, (s,), r) ==> text::holds(r@, s@)
            && text::holds(r@, "sudo servant service install --system"@),
        call_ensures(install::linger_note, (s,), r) ==> text::has_suffix(
            r@,
            "sudo loginctl enable-linger "@ + s@,
        ),
        call_ensures(install::health_failure, (s,), r) ==> r@
            == "service started but /health did not respond; check `"@ + s@ + "`"@,
        call_ensures(install::run_systemctl_failure, (&args, status), r) ==> r@ == "systemctl "@
            + install::spaced(views(args@)) + " exited "@ + status@,
        call_ensures(install::user_systemctl_failure, (&args, status, out, errors), r)
            ==> text::has_prefix(
            r@,
            "systemctl "@ + install::spaced(views(args@)) + " exited "@ + status@ + "\n"@,
        ) && text::holds(r@, install::printed("stdout"@, out@)) && text::has_suffix(
            r@,
            install::printed("stderr"@, errors@),
        ),
{
    if call_ensures(install::user_systemd_unavailable, (s,), r) {
        let head = "systemd user services are unavailable or failed on this host.\n\n"@;
        let tail = "\n\nTry the explicit system-service fallback instead:\n  sudo servant service install --system\n\nThis writes a root-owned systemd unit, but runs the servant daemon as your user."@;
        let hint = "sudo servant service install --system"@;
        reveal_strlit("\n\nTry the explicit system-service fallback instead:\n  sudo servant service install --system\n\nThis writes a root-owned systemd unit, but runs the servant daemon as your user.");
        reveal_strlit("sudo servant service install --system");
        assert(tail =~= tail.take(54) + hint + tail.skip(54 + hint.len() as int));
        assert(r@ =~= (head + s@ + tail.take(54)) + hint + tail.skip(54 + hint.len() as int));
    }
    if call_ensures(install::linger_note, (s,), r) {
        let middle = " failed).\nthe daemon will exit on logout. run as root:\n  sudo loginctl enable-linger "@;
        reveal_strlit(" failed).\nthe daemon will exit on logout. run as root:\n  sudo loginctl enable-linger ");
        reveal_strlit("sudo loginctl enable-linger ");
        let end = "sudo loginctl enable-linger "@ + s@;
        let n = "sudo loginctl enable-linger "@.len();
        assert(middle =~= middle.take(middle.len() - n) + "sudo loginctl enable-linger "@);
        assert(r@.skip(r@.len() - end.len()) =~= end);
    }
    if call_ensures(install::user_systemctl_failure, (&args, status, out, errors), r) {
        let lead = "systemctl "@ + install::spaced(views(args@)) + " exited "@ + status@ + "\n"@;
        let a = install::printed("stdout"@, out@);
        let b = install::printed("stderr"@, errors@);
        assert(r@ == lead + a + b);
        assert(r@.take(lead.len() as int) =~= lead);
        assert(r@.skip(r@.len() - b.len()) =~= b);
    }
}

/// The hits on record are handed out once each and forgotten; those that lie further
/// back than the usual span are forgotten by a sweep, and no other.
pub proof fn lemma_record_of_hits(now: Duration, id: i64)
    ensures
        forall|t: &mut TouchDebouncer, r: Vec<i64>| #[trigger]
            call_ensures(TouchDebouncer::flush, (t,), r) ==> {
                &&& r@.no_duplicates()
                &&& r@.contains(id) <==> t.pending().dom().contains(id)
                &&& !final(t).pending().dom().contains(id)
            },
        forall|t: &mut TouchDebouncer| #[trigger]
            call_ensures(TouchDebouncer::sweep, (t, now), ()) ==> {
                let at = now.secs * 1_000_000_000 + now.nanos;
                &&& final(t).pending().dom().contains(id) <==> t.pending().dom().contains(id)
                    && t.pending()[id] + t.window() >= at
                &&& final(t).pending().dom().contains(id) ==> final(t).pending()[id]
                    == t.pending()[id]
                &&& final(t).window() == t.window()
            },
{
    assert forall|t: &mut TouchDebouncer, r: Vec<i64>| #[trigger]
        call_ensures(TouchDebouncer::flush, (t,), r) implies (r@.contains(id)
        <==> t.pending().dom().contains(id)) by {
        assert(r@.to_set().contains(id) <==> r@.contains(id));
    }
}

/// Draining writes every hit on record and forgets it. Where none fails, each live
/// registration with a hit has its lifetime again, and every other row is as it was.
pub proof fn lemma_draining(now: i64, k: i64)
    ensures
        forall|t: &mut TouchDebouncer, c: &mut Connection, r: Drained| #[trigger]
            call_ensures(daemon::drain, (t, c, now), r) ==> {
                let m = rows(*c);
                let n = rows(*final(c));
                &&& !final(t).pending().dom().contains(k)
                &&& r.failed > r.overflowed ==> crate::db::some_failure()
                &&& r.failed == r.overflowed ==> {
                    &&& n.dom() == m.dom()
                    &&& m.dom().contains(k) && !t.pending().dom().contains(k) ==> n[k] == m[k]
                    &&& m.dom().contains(k) && !lasts(m[k], now) ==> n[k] == m[k]
                    &&& m.dom().contains(k) && t.pending().dom().contains(k) && m[k].expires_at
                        is Some && lasts(m[k], now) && m[k].ttl_seconds is Some && i64::MIN <= now
                        + m[k].ttl_seconds->0 <= i64::MAX ==> (n[k].expires_at matches Some(e) && e
                        == now + m[k].ttl_seconds->0)
                }
            },
{
    assert forall|t: &mut TouchDebouncer, c: &mut Connection, r: Drained| #[trigger]
        call_ensures(daemon::drain, (t, c, now), r) && r.failed == r.overflowed implies rows(
        *final(c),
    ).dom() == rows(*c).dom() by {
        assert(rows(*final(c)).dom() =~= rows(*c).dom());
    }
}

/// At the start the sources of all registrations are named, each with its own id.
pub proof fn lemma_sources_at_the_start(k: i64)
    ensures
        forall|c: &mut Connection, res: Result<Vec<(i64, String)>, DbError>| #[trigger]
            call_ensures(daemon::start_up, (c,), res) ==> (res matches Ok(v) ==> {
                let n = rows(*final(c));
                &&& n.dom().contains(k) ==> exists|i: int|
                    0 <= i < v@.len() && (#[trigger] v@[i]).0 == k && v@[i].1@ == n[k].source_path
                &&& forall|i: int|
                    0 <= i < v@.len() ==> n.dom().contains((#[trigger] v@[i]).0)
                &&& crate::db::user_version(*c) >= 1 ==> *final(c) == *c
            }),
{
    assert forall|c: &mut Connection, res: Result<Vec<(i64, String)>, DbError>| #[trigger]
        call_ensures(daemon::start_up, (c,), res) && res is Ok && rows(*final(c)).dom().contains(
            k,
        ) implies exists|i: int|
        0 <= i < res->Ok_0@.len() && (#[trigger] res->Ok_0@[i]).0 == k && res->Ok_0@[i].1@ == rows(
            *final(c),
        )[k].source_path by {
        let v = res->Ok_0@;
        let i = choose|i: int| 0 <= i < v.len() && (#[trigger] v[i]).0 == k;
        assert(rows(*final(c)).dom().contains(v[i].0));
    }
}

/// Hits are written once in half the lifetime, at least a second and at most the usual
/// span.
pub proof fn lemma_span_between_writes(usual: Duration, ttl: i64, r: Duration)
    requires
        call_ensures(ttl::coalesce_window, (usual, ttl), r),
    ensures
        r.total() <= usual.total(),
        ttl >= 2 ==> r.total() == usual.total() || 2 * r.total() == ttl * 1_000_000_000,
        ttl >= 2 ==> 2 * r.total() <= ttl * 1_000_000_000,
        ttl < 2 ==> r.total() == usual.total() || r.total() == 1_000_000_000,
        ttl < 2 ==> r.total() <= 1_000_000_000,
{
    ttl::lemma_coalescing_span(usual.total(), ttl);
}

} // verus!
