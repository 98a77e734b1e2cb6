//! The command line's side of the control plane: which request a command sends,
//! what an answer means, and what is printed of it.

use vstd::prelude::*;

use crate::config::{state_path, Config};
use crate::control::{new_row, HealthResponse, RegisterRequest, RegistrationView, TtlRequest};
use crate::db::{opt_view, Kind};
use crate::output;
use crate::output::json_string;
use crate::paths::join_view;
use crate::text;
use crate::text::{all_digits, digits, has_prefix, left_aligned, signed_digits, value};
use crate::ttl;
use crate::ttl::{expires_text, signed_seconds, to_signed, Duration, Ttl};

verus! {

// ---------------------------------------------------------------------------
// Failures
// ---------------------------------------------------------------------------

/// A failure that has to do with the daemon.
#[derive(Debug)]
pub enum ClientError {
    /// The daemon cannot be reached.
    Unreachable(String),
}

impl ClientError {
    /// What the failure says.
    pub fn message(&self) -> (r: String)
        ensures
            r@ == match *self {
                ClientError::Unreachable(why) => "daemon not running ("@ + why@ + ")"@,
            },
    {
        match self {
            ClientError::Unreachable(why) => text::joined3(
                "daemon not running (",
                why.as_str(),
                ")",
            ),
        }
    }
}

/// Why a command failed.
#[derive(Debug)]
pub enum Failure {
    Client(ClientError),
    Other(String),
}

/// Why the control socket could not be connected to.
#[derive(Debug, Clone, Copy, PartialEq, Eq, Structural)]
pub enum ConnectError {
    Refused,
    NotFound,
    Other,
}

/// What is said where nobody listens on the control socket.
pub open spec fn no_socket(socket: Seq<char>) -> Seq<char> {
    "no socket at "@ + socket
        + "\nhint: run `servant service start` or `servant service install`"@
}

/// The failure where the control socket could not be connected to; `message` is
/// what the system says.
pub fn connect_failure(kind: ConnectError, socket: &str, message: String) -> (r: Failure)
    ensures
        match kind {
            ConnectError::Other => r matches Failure::Other(m) && m@ == message@,
            _ => r matches Failure::Client(ClientError::Unreachable(why)) && why@ == no_socket(
                socket@,
            ),
        },
{
    match kind {
        ConnectError::Other => Failure::Other(message),
        _ => Failure::Client(
            ClientError::Unreachable(
                text::joined3(
                    "no socket at ",
                    socket,
                    "\nhint: run `servant service start` or `servant service install`",
                ),
            ),
        ),
    }
}

// ---------------------------------------------------------------------------
// Requests
// ---------------------------------------------------------------------------

/// A request to the daemon.
#[derive(Debug)]
pub struct ControlRequest {
    pub method: &'static str,
    pub path: String,
    /// The body as JSON.
    pub body: Option<String>,
}

impl ControlRequest {
    /// The request has this method, this path and this body.
    pub open spec fn is(self, method: Seq<char>, path: Seq<char>, body: Option<Seq<char>>) -> bool {
        self.method@ == method && self.path@ == path && opt_view(self.body) == body
    }
}

/// A client of the daemon.
#[derive(Debug)]
pub struct ControlClient {
    pub socket: String,
}

/// A JSON object with one text.
pub open spec fn json_object(key: Seq<char>, quoted: Seq<char>) -> Seq<char> {
    "{\""@ + key + "\":"@ + quoted + "}"@
}

fn one_field(key: &str, quoted: &str) -> (r: String)
    ensures
        r@ == json_object(key@, quoted@),
{
    let mut out: String = text::joined3("{\"", key, "\":");
    out.append(quoted);
    out.append("}");
    out
}

impl ControlClient {
    /// A client that connects to the control socket under the home folder.
    pub fn new(cfg: &Config, home: &str) -> (r: ControlClient)
        ensures
            r.socket@ == join_view(state_path(home@), "control.sock"@),
    {
        ControlClient { socket: cfg.control_socket_path(home) }
    }

    /// Registers a file or folder; `body` is the request as JSON.
    pub fn register(&self, body: String) -> (r: ControlRequest)
        ensures
            r.is("POST"@, "/register"@, Some(body@)),
    {
        ControlRequest { method: "POST", path: text::owned("/register"), body: Some(body) }
    }

    /// Lists the live registrations.
    pub fn list(&self) -> (r: ControlRequest)
        ensures
            r.is("GET"@, "/list"@, None),
    {
        ControlRequest { method: "GET", path: text::owned("/list"), body: None }
    }

    /// Removes the registration of an id.
    pub fn rm_by_id(&self, id: i64) -> (r: ControlRequest)
        ensures
            r.is("DELETE"@, "/registrations/"@ + signed_digits(id as int), None),
    {
        let number: String = text::decimal_signed(id);
        ControlRequest {
            method: "DELETE",
            path: text::joined("/registrations/", number.as_str()),
            body: None,
        }
    }

    /// Removes the registration of a URL path.
    pub fn rm_by_url(&self, url_path: &str) -> (r: ControlRequest)
        ensures
            r.is("DELETE"@, "/by-url"@, Some(json_object("url_path"@, json_string(url_path@)))),
    {
        let quoted: String = output::json_quoted(url_path);
        ControlRequest {
            method: "DELETE",
            path: text::owned("/by-url"),
            body: Some(one_field("url_path", quoted.as_str())),
        }
    }

    /// Removes the registration of a source path.
    pub fn rm_by_source(&self, source_path: &str) -> (r: ControlRequest)
        ensures
            r.is(
                "DELETE"@,
                "/by-source"@,
                Some(json_object("source_path"@, json_string(source_path@))),
            ),
    {
        let quoted: String = output::json_quoted(source_path);
        ControlRequest {
            method: "DELETE",
            path: text::owned("/by-source"),
            body: Some(one_field("source_path", quoted.as_str())),
        }
    }

    /// Asks how the daemon is doing.
    pub fn health(&self) -> (r: ControlRequest)
        ensures
            r.is("GET"@, "/health"@, None),
    {
        ControlRequest { method: "GET", path: text::owned("/health"), body: None }
    }
}

// ---------------------------------------------------------------------------
// Answers
// ---------------------------------------------------------------------------

/// The text at a place in a JSON document, or none where the document cannot be
/// read or has no text there, as `serde_json` reads it.
pub uninterp spec fn json_text_at(body: Seq<u8>, pointer: Seq<char>) -> Option<Seq<char>>;

/// How `hyper` writes a status code.
pub uninterp spec fn status_line(status: u16) -> Seq<char>;

/// Reads a JSON document with `serde_json::from_slice` and looks a text up in it
/// with `serde_json::Value::pointer`. What it finds depends on the bytes and the
/// pointer alone.
#[verifier::external_body]
fn json_text(body: &Vec<u8>, pointer: &str) -> (r: Option<String>)
    ensures
        opt_view(r) == json_text_at(body@, pointer@),
{
    let value: serde_json::Value = serde_json::from_slice(body).ok()?;
    value.pointer(pointer)?.as_str().map(|s| s.to_owned())
}

/// Writes a status code with the `Display` of `hyper::StatusCode`: the number and
/// its usual reason. A number that is no status code is written as it is. What is
/// written depends on the number alone.
#[verifier::external_body]
fn status_text(status: u16) -> (r: String)
    ensures
        r@ == status_line(status),
{
    match hyper::StatusCode::from_u16(status) {
        Ok(code) => code.to_string(),
        Err(_) => status.to_string(),
    }
}

/// The message of a refused request, given the error in the answer and how its
/// status is written.
pub fn refusal(error: Option<String>, status: &str) -> (r: String)
    ensures
        r@ == match error {
            Some(e) => e@,
            None => "daemon returned HTTP "@ + status@,
        },
{
    match error {
        Some(e) => e,
        None => text::joined("daemon returned HTTP ", status),
    }
}

/// The error message in the body of an answer.
pub fn parse_error_msg(body: &Vec<u8>) -> (r: Option<String>)
    ensures
        opt_view(r) == json_text_at(body@, "/error"@),
{
    json_text(body, "/error")
}

/// The JSON `null`.
pub open spec fn null_bytes() -> Seq<u8> {
    seq![110, 117, 108, 108]
}

/// What an answer brings: its body, `null` where it has none, or why the request
/// was refused.
pub fn answer(status: u16, body: Vec<u8>) -> (r: Result<Vec<u8>, String>)
    ensures
        match r {
            Ok(b) => 200 <= status < 300 && b@ == if body@.len() == 0 {
                null_bytes()
            } else {
                body@
            },
            Err(m) => !(200 <= status < 300) && m@ == match json_text_at(body@, "/error"@) {
                Some(e) => e,
                None => "daemon returned HTTP "@ + status_line(status),
            },
        },
{
    if !(200 <= status && status < 300) {
        let error: Option<String> = parse_error_msg(&body);
        let line: String = status_text(status);
        return Err(refusal(error, line.as_str()));
    }
    if body.len() == 0 {
        let mut null: Vec<u8> = Vec::new();
        null.push(110);
        null.push(117);
        null.push(108);
        null.push(108);
        proof {
            assert(null@ =~= null_bytes());
        }
        return Ok(null);
    }
    Ok(body)
}

// ---------------------------------------------------------------------------
// serve
// ---------------------------------------------------------------------------

/// The lifetime to ask for, given the one on the command line.
pub open spec fn asked_ttl(ttl: Option<Ttl>) -> TtlRequest {
    match ttl {
        Some(Ttl::Never) => TtlRequest::Never,
        Some(Ttl::Duration(d)) => TtlRequest::Seconds(signed_seconds(d.secs) as i64),
        None => TtlRequest::Default,
    }
}

/// The request to register the file or folder at the canonical path `abs`.
pub fn register_request(abs: &str, kind: Kind, ttl: Option<Ttl>, name: Option<String>) -> (r:
    RegisterRequest)
    ensures
        r.path@ == abs@,
        r.kind@ == kind.name(),
        r.ttl == asked_ttl(ttl),
        r.name == name,
{
    let ttl: TtlRequest = match ttl {
        Some(Ttl::Never) => TtlRequest::Never,
        Some(Ttl::Duration(d)) => TtlRequest::Seconds(to_signed(d.as_secs())),
        None => TtlRequest::Default,
    };
    RegisterRequest { path: text::owned(abs), kind: text::owned(kind.as_str()), ttl, name }
}

/// The URL of a URL path.
pub open spec fn url_text(host: Seq<char>, port: u16, url_path: Seq<char>) -> Seq<char> {
    "http://"@ + host + ":"@ + digits(port as nat) + url_path
}

/// The URL of a URL path.
pub fn public_url(host: &str, port: u16, url_path: &str) -> (r: String)
    ensures
        r@ == url_text(host@, port, url_path@),
{
    let mut out: String = text::joined3("http://", host, ":");
    let number: String = text::decimal(port as u64);
    out.append(number.as_str());
    out.append(url_path);
    out
}

/// How the line that reports what is served says when it expires.
pub open spec fn expires_phrase(secs: Option<i64>) -> Seq<char> {
    if secs matches Some(s) && s > 0 {
        ", expires "@ + expires_text(secs)
    } else {
        ", expires in "@ + expires_text(secs)
    }
}

/// The line that reports what is served.
pub fn serve_line(url: &str, id: i64, expires_in_secs: Option<i64>, reused: bool) -> (r: String)
    ensures
        r@ == "Serving "@ + url@ + "  (id="@ + signed_digits(id as int)
            + expires_phrase(expires_in_secs) + ")"@ + if reused {
            "  (reused)"@
        } else {
            ""@
        },
{
    let number: String = text::decimal_signed(id);
    let label: String = ttl::format_expires_in(expires_in_secs);
    let mut out: String = text::joined3("Serving ", url, "  (id=");
    out.append(number.as_str());
    out.append(
        match expires_in_secs {
            Some(s) if s > 0 => ", expires ",
            _ => ", expires in ",
        },
    );
    out.append(label.as_str());
    out.append(")");
    out.append(
        if reused {
            "  (reused)"
        } else {
            ""
        },
    );
    out
}

// ---------------------------------------------------------------------------
// ls
// ---------------------------------------------------------------------------

/// One line of the table of registrations.
pub open spec fn table_line(
    id: Seq<char>,
    url: Seq<char>,
    expires: Seq<char>,
    source: Seq<char>,
) -> Seq<char> {
    left_aligned(id, 5) + "  "@ + left_aligned(url, 40) + "  "@ + left_aligned(expires, 14) + "  "@
        + source
}

fn make_line(id: &str, url: &str, expires: &str, source: &str) -> (r: String)
    ensures
        r@ == table_line(id@, url@, expires@, source@),
{
    let mut out: String = text::align_left(id, 5);
    out.append("  ");
    out.append(text::align_left(url, 40).as_str());
    out.append("  ");
    out.append(text::align_left(expires, 14).as_str());
    out.append("  ");
    out.append(source);
    out
}

/// The line of a registration.
pub open spec fn registration_line(r: RegistrationView, host: Seq<char>, port: u16) -> Seq<char> {
    table_line(
        signed_digits(r.id as int),
        url_text(host, port, r.url_path@),
        expires_text(r.expires_in_secs),
        r.source_path@,
    ) + if r.missing {
        "  [MISSING]"@
    } else {
        ""@
    }
}

/// The lines of the table of registrations.
pub open spec fn table_lines(rows: Seq<RegistrationView>, host: Seq<char>, port: u16) -> Seq<
    Seq<char>,
> {
    if rows.len() == 0 {
        seq!["(no registrations)"@]
    } else {
        seq![table_line("ID"@, "URL"@, "EXPIRES"@, "SOURCE"@)] + Seq::new(
            rows.len(),
            |i: int| registration_line(rows[i], host, port),
        )
    }
}

fn render_line(row: &RegistrationView, host: &str, port: u16) -> (r: String)
    ensures
        r@ == registration_line(*row, host@, port),
{
    let id: String = text::decimal_signed(row.id);
    let url: String = public_url(host, port, row.url_path.as_str());
    let expires: String = ttl::format_expires_in(row.expires_in_secs);
    let mut out: String = make_line(
        id.as_str(),
        url.as_str(),
        expires.as_str(),
        row.source_path.as_str(),
    );
    out.append(
        if row.missing {
            "  [MISSING]"
        } else {
            ""
        },
    );
    out
}

/// The table of registrations, line by line.
pub fn ls_lines(rows: &Vec<RegistrationView>, host: &str, port: u16) -> (r: Vec<String>)
    ensures
        text::views(r@) == table_lines(rows@, host@, port),
{
    let mut out: Vec<String> = Vec::new();
    if rows.len() == 0 {
        out.push(text::owned("(no registrations)"));
        proof {
            assert(text::views(out@) =~= table_lines(rows@, host@, port));
        }
        return out;
    }
    out.push(make_line("ID", "URL", "EXPIRES", "SOURCE"));
    let mut i: usize = 0;
    while i < rows.len()
        invariant
            0 <= i <= rows.len(),
            rows@.len() > 0,
            out@.len() == i + 1,
            forall|k: int|
                0 <= k <= i ==> (#[trigger] out@[k])@ == table_lines(rows@, host@, port)[k],
        decreases rows.len() - i,
    {
        out.push(render_line(&rows[i], host, port));
        i = i + 1;
    }
    proof {
        assert(text::views(out@) =~= table_lines(rows@, host@, port));
    }
    out
}

// ---------------------------------------------------------------------------
// rm
// ---------------------------------------------------------------------------

/// What `rm` is asked to remove.
#[derive(Debug)]
pub enum RmTarget {
    Id(i64),
    Url(String),
    /// A path of the user, still to be made canonical.
    Source(String),
}

/// The path in a URL: what follows its third slash, with a slash before it; the
/// text itself where there is no third slash.
pub open spec fn url_part(target: Seq<char>) -> Seq<char> {
    let rest = after_slashes(target, 3);
    match rest {
        Some(p) => "/"@ + p,
        None => target,
    }
}

/// What follows the `n`th slash, or none where there are fewer.
pub open spec fn after_slashes(s: Seq<char>, n: nat) -> Option<Seq<char>>
    decreases n,
{
    if n == 0 {
        Some(s)
    } else {
        let k = text::first_index(s, '/');
        if k < s.len() {
            after_slashes(s.skip(k + 1), (n - 1) as nat)
        } else {
            None
        }
    }
}

/// What a target of `rm` means; `exists` says whether the target is a path that
/// leads to something.
pub open spec fn rm_meaning(target: Seq<char>, exists_there: bool, r: Result<RmTarget, String>) -> bool {
    if all_digits(target) {
        match r {
            Ok(RmTarget::Id(id)) => target.len() > 0 && id == value(target),
            Ok(_) => false,
            Err(e) => if target.len() == 0 {
                e@ == "cannot parse integer from empty string"@
            } else {
                value(target) > i64::MAX && e@ == "number too large to fit in target type"@
            },
        }
    } else if has_prefix(target, "/"@) && !exists_there {
        r matches Ok(RmTarget::Url(u)) && u@ == target
    } else if has_prefix(target, "http://"@) {
        r matches Ok(RmTarget::Url(u)) && u@ == url_part(target)
    } else {
        r matches Ok(RmTarget::Source(p)) && p@ == target
    }
}

fn url_path_of(target: &str) -> (r: String)
    ensures
        r@ == url_part(target@),
{
    let x = text::chars_of(target);
    let mut at: usize = 0;
    let mut n: usize = 0;
    proof {
        assert(x@.skip(0) =~= x@);
    }
    while n < 3
        invariant
            0 <= n <= 3,
            0 <= at <= x.len(),
            x@ == target@,
            after_slashes(target@, 3) == after_slashes(x@.skip(at as int), (3 - n) as nat),
        decreases 3 - n,
    {
        let ghost rest = x@.skip(at as int);
        let ghost from = at as int;
        while at < x.len() && x[at] != '/'
            invariant
                0 <= from <= at <= x.len(),
                forall|k: int| from <= k < at ==> #[trigger] x@[k] != '/',
            decreases x.len() - at,
        {
            at = at + 1;
        }
        proof {
            text::lemma_first_index(rest, '/');
            let k = text::first_index(rest, '/');
            lemma_first_slash(x@, from, at as int);
            assert(k == at - from);
        }
        if at >= x.len() {
            return text::owned(target);
        }
        proof {
            assert(rest.skip(at - from + 1) =~= x@.skip(at + 1));
        }
        at = at + 1;
        n = n + 1;
    }
    let p: String = text::text_between(&x, at, x.len());
    proof {
        assert(p@ =~= x@.skip(at as int));
    }
    text::joined("/", p.as_str())
}

proof fn lemma_first_slash(x: Seq<char>, from: int, at: int)
    requires
        0 <= from <= at <= x.len(),
        forall|k: int| from <= k < at ==> #[trigger] x[k] != '/',
        at < x.len() ==> x[at] == '/',
    ensures
        text::first_index(x.skip(from), '/') == at - from,
{
    let rest = x.skip(from);
    text::lemma_first_index(rest, '/');
    let k = text::first_index(rest, '/');
    if k < at - from {
        assert(rest[k] == x[from + k]);
    }
    if k > at - from {
        assert(rest[at - from] == x[at]);
    }
}

/// What a target of `rm` means: an id where it is all digits, else a URL path where
/// it begins with a slash and leads to nothing, else the path of a URL, else a
/// source path.
pub fn rm_target(target: &str, exists_there: bool) -> (r: Result<RmTarget, String>)
    ensures
        rm_meaning(target@, exists_there, r),
{
    if text::only_digits(target) {
        if target.is_empty() {
            return Err(text::owned("cannot parse integer from empty string"));
        }
        return match text::parse_digits(target) {
            Some(id) => Ok(RmTarget::Id(id)),
            None => Err(text::owned("number too large to fit in target type")),
        };
    }
    if text::starts_with(target, "/") && !exists_there {
        return Ok(RmTarget::Url(text::owned(target)));
    }
    if text::starts_with(target, "http://") {
        return Ok(RmTarget::Url(url_path_of(target)));
    }
    Ok(RmTarget::Source(text::owned(target)))
}

/// The line that reports a removal, given the URL path in the answer.
pub fn removed_line(url_path: Option<String>) -> (r: String)
    ensures
        r@ == "Removed "@ + match url_path {
            Some(u) => u@,
            None => "(unknown)"@,
        },
{
    match url_path {
        Some(u) => text::joined("Removed ", u.as_str()),
        None => text::joined("Removed ", "(unknown)"),
    }
}

/// The line that reports a removal, given the body of the answer.
pub fn removal_line(body: &Vec<u8>) -> (r: String)
    ensures
        r@ == "Removed "@ + match json_text_at(body@, "/removed/url_path"@) {
            Some(u) => u,
            None => "(unknown)"@,
        },
{
    removed_line(json_text(body, "/removed/url_path"))
}

// ---------------------------------------------------------------------------
// status
// ---------------------------------------------------------------------------

/// The line that reports how the daemon is doing.
pub fn status_report(h: &HealthResponse) -> (r: String)
    ensures
        r@ == "daemon: "@ + h.status@ + " (v"@ + h.version@ + ") bind="@ + h.bind@ + ":"@ + digits(
            h.port as nat,
        ) + " registrations="@ + signed_digits(h.registrations as int) + " uptime="@ + digits(
            h.uptime_secs as nat,
        ) + "s"@,
{
    let mut out: String = text::joined3("daemon: ", h.status.as_str(), " (v");
    out.append(h.version.as_str());
    out.append(") bind=");
    out.append(h.bind.as_str());
    out.append(":");
    out.append(text::decimal(h.port as u64).as_str());
    out.append(" registrations=");
    out.append(text::decimal_signed(h.registrations).as_str());
    out.append(" uptime=");
    out.append(text::decimal(h.uptime_secs).as_str());
    out.append("s");
    out
}

// ---------------------------------------------------------------------------
// What the requests are for
// ---------------------------------------------------------------------------

/// A lifetime of whole seconds on the command line is asked for as it is, `never` as
/// never, and none as the daemon's own.
pub proof fn lemma_lifetime_is_asked_for(d: Duration)
    ensures
        d.secs <= i64::MAX ==> (asked_ttl(Some(Ttl::Duration(d))) matches TtlRequest::Seconds(n) && n
            == d.secs),
        asked_ttl(Some(Ttl::Never)) == TtlRequest::Never,
        asked_ttl(None) == TtlRequest::Default,
{
}

/// A registration made at `now` with a lifetime of `d` on the command line expires `d`
/// later, and each hit gives it `d` again; with `never` it does not expire, and without
/// one it lives as long as the daemon's own lifetime says.
pub proof fn lemma_lifetime_becomes_the_deadline(
    req: RegisterRequest,
    asked: Option<Ttl>,
    default: Ttl,
    d: Duration,
    now: i64,
    kind: Kind,
    url: Seq<char>,
)
    requires
        req.ttl == asked_ttl(asked),
        d.secs <= i64::MAX,
        now + d.secs <= i64::MAX,
    ensures
        ({
            let row = new_row(req, default, now, kind, url);
            let timed = asked == Some(Ttl::Duration(d)) || (asked is None && default
                == Ttl::Duration(d));
            let untimed = asked == Some(Ttl::Never) || (asked is None && default == Ttl::Never);
            &&& timed ==> (row.expires_at matches Some(e) && e == now + d.secs) && (
            row.ttl_seconds matches Some(t) && t == d.secs)
            &&& untimed ==> row.expires_at is None && row.ttl_seconds is None
            &&& row.created_at == now
            &&& row.url_path == url
            &&& row.source_path == req.path@
            &&& row.kind == kind
            &&& row.name_slug == opt_view(req.name)
            &&& row.last_hit_at is None && row.missing_since is None
        }),
{
}

proof fn lemma_no_slash_behind(s: Seq<char>, t: Seq<char>)
    requires
        !s.contains('/'),
    ensures
        text::first_index(s + seq!['/'] + t, '/') == s.len(),
{
    let all = s + seq!['/'] + t;
    text::lemma_first_index(all, '/');
    let k = text::first_index(all, '/');
    assert(all[s.len() as int] == '/');
    if k < s.len() {
        assert(s[k] == all[k]);
    }
}

/// The URL path in `http://HOST/REST` is a slash followed by exactly REST.
pub proof fn lemma_url_part(host: Seq<char>, rest: Seq<char>)
    requires
        !host.contains('/'),
    ensures
        url_part("http://"@ + host + seq!['/'] + rest) == seq!['/'] + rest,
{
    reveal_strlit("http://");
    reveal_strlit("/");
    assert("/"@ =~= seq!['/']);
    reveal_with_fuel(after_slashes, 4);
    let none = Seq::<char>::empty();
    let http = seq!['h', 't', 't', 'p', ':'];
    let tail = host + seq!['/'] + rest;
    let s = "http://"@ + host + seq!['/'] + rest;
    assert(s =~= http + seq!['/'] + (seq!['/'] + tail));
    assert(!http.contains('/'));
    lemma_no_slash_behind(http, seq!['/'] + tail);
    assert(s.skip(6) =~= seq!['/'] + tail);
    assert(seq!['/'] + tail =~= none + seq!['/'] + tail);
    lemma_no_slash_behind(none, tail);
    assert((seq!['/'] + tail).skip(1) =~= tail);
    lemma_no_slash_behind(host, rest);
    assert(tail.skip(host.len() as int + 1) =~= rest);
}

/// The URL that is printed of a registration leads `rm` to the registration's own URL
/// path.
pub proof fn lemma_printed_url_is_removed(
    host: Seq<char>,
    port: u16,
    url_path: Seq<char>,
    there: bool,
    r: Result<RmTarget, String>,
)
    requires
        !host.contains('/'),
        url_path.len() > 0,
        url_path[0] == '/',
        rm_meaning(url_text(host, port, url_path), there, r),
    ensures
        url_part(url_text(host, port, url_path)) == url_path,
        r matches Ok(RmTarget::Url(u)) && u@ == url_path,
{
    reveal_strlit("http://");
    reveal_strlit(":");
    reveal_strlit("/");
    let number = digits(port as nat);
    text::lemma_digits(port as nat);
    let full = host + ":"@ + number;
    assert(!full.contains('/')) by {
        if full.contains('/') {
            let i = choose|i: int| 0 <= i < full.len() && full[i] == '/';
            if i < host.len() {
                assert(host[i] == '/');
            } else if i > host.len() {
                assert(full[i] == number[i - host.len() - 1]);
                assert(text::is_digit(number[i - host.len() - 1]));
            }
        }
    }
    let rest = url_path.skip(1);
    let s = url_text(host, port, url_path);
    assert(s =~= "http://"@ + full + seq!['/'] + rest);
    lemma_url_part(full, rest);
    assert(seq!['/'] + rest =~= url_path);
    assert(s[0] == 'h');
    assert(!all_digits(s)) by {
        assert(!text::is_digit(s[0]));
    }
    assert(!has_prefix(s, "/"@)) by {
        if has_prefix(s, "/"@) {
            assert(s.take(1)[0] == s[0]);
        }
    }
    assert(has_prefix(s, "http://"@)) by {
        assert(s.take(7) =~= "http://"@);
    }
}

/// A number leads `rm` to the registration of that id, a path that leads to nothing to
/// the registration of that URL path, and a path that leads to something, or any other
/// text that is no URL, to the registration of that source.
pub proof fn lemma_rm_targets(
    id: i64,
    target: Seq<char>,
    there: bool,
    r: Result<RmTarget, String>,
)
    ensures
        id >= 0 && rm_meaning(digits(id as nat), there, r) ==> r == Ok::<RmTarget, String>(
            RmTarget::Id(id),
        ),
        target.len() > 0 && target[0] == '/' && !there && rm_meaning(target, there, r) ==> (
        r matches Ok(RmTarget::Url(u)) && u@ == target),
        target.len() > 0 && target[0] == '/' && there && rm_meaning(target, there, r) ==> (
        r matches Ok(RmTarget::Source(p)) && p@ == target),
        target.len() > 0 && !text::is_digit(target[0]) && target[0] != '/' && target[0] != 'h'
            && rm_meaning(target, there, r) ==> (r matches Ok(RmTarget::Source(p)) && p@ == target),
{
    text::lemma_digits(id as nat);
    reveal_strlit("/");
    reveal_strlit("http://");
    if target.len() > 0 {
        assert(target.take(1) =~= seq![target[0]]);
        assert("/"@ =~= seq!['/']);
        if !text::is_digit(target[0]) {
            assert(!all_digits(target));
        }
        if has_prefix(target, "http://"@) {
            assert(target.take(7)[0] == target[0]);
        }
        if has_prefix(target, "/"@) {
            assert(target.take(1)[0] == target[0]);
        }
    }
}

/// A URL is the scheme, the host, the port behind a colon and the URL path.
pub proof fn lemma_url_text(host: Seq<char>, port: u16, url_path: Seq<char>)
    ensures
        text::has_prefix(url_text(host, port, url_path), "http://"@ + host + ":"@),
        text::has_suffix(url_text(host, port, url_path), url_path),
        url_text(host, port, url_path).len() == "http://"@.len() + host.len() + ":"@.len() + digits(
            port as nat,
        ).len() + url_path.len(),
        url_text(host, port, url_path).subrange(
            ("http://"@ + host + ":"@).len() as int,
            url_text(host, port, url_path).len() - url_path.len(),
        ) == digits(port as nat),
{
    let u = url_text(host, port, url_path);
    let lead = "http://"@ + host + ":"@;
    assert(u.take(lead.len() as int) =~= lead);
    assert(u.skip(u.len() - url_path.len()) =~= url_path);
    assert(u.subrange(lead.len() as int, u.len() - url_path.len()) =~= digits(port as nat));
}

/// Of a registration that expires, the line that reports it says how long it has, and
/// of any other that it never does, or that it has expired.
pub proof fn lemma_expires_phrase(s: i64)
    ensures
        expires_phrase(None) == ", expires in never"@,
        s <= 0 ==> expires_phrase(Some(s)) == ", expires in expired"@,
        0 < s < 3600 ==> expires_phrase(Some(s)) == ", expires in "@ + ttl::humantime_text(
            s as u64,
            0,
        ),
{
    reveal_strlit(", expires ");
    reveal_strlit(", expires in ");
    reveal_strlit("in ");
    reveal_strlit("never");
    reveal_strlit("expired");
    reveal_strlit(", expires in never");
    reveal_strlit(", expires in expired");
    ttl::lemma_time_left(s);
    assert(", expires in "@ + "never"@ =~= ", expires in never"@);
    assert(", expires in "@ + "expired"@ =~= ", expires in expired"@);
    if 0 < s < 3600 {
        let span = ttl::humantime_text(s as u64, 0);
        assert(", expires "@ + ("in "@ + span) =~= ", expires in "@ + span);
    }
}

/// The columns of the table stand at fixed places, as long as what stands in them is
/// not too wide, and the source comes last and whole.
pub proof fn lemma_table_columns(
    id: Seq<char>,
    url: Seq<char>,
    expires: Seq<char>,
    source: Seq<char>,
)
    ensures
        has_prefix(table_line(id, url, expires, source), id),
        text::has_suffix(table_line(id, url, expires, source), source),
        id.len() <= 5 ==> table_line(id, url, expires, source).subrange(
            7,
            7 + url.len() as int,
        ) == url,
        id.len() <= 5 && url.len() <= 40 ==> table_line(id, url, expires, source).subrange(
            49,
            49 + expires.len() as int,
        ) == expires,
        id.len() <= 5 && url.len() <= 40 && expires.len() <= 14 ==> table_line(
            id,
            url,
            expires,
            source,
        ).skip(65) == source,
{
    reveal_strlit("  ");
    let l = table_line(id, url, expires, source);
    text::lemma_left_aligned(id, 5);
    text::lemma_left_aligned(url, 40);
    text::lemma_left_aligned(expires, 14);
    assert(l.take(id.len() as int) =~= id);
    assert(l.skip(l.len() - source.len()) =~= source);
    if id.len() <= 5 {
        assert(l.subrange(7, 7 + url.len() as int) =~= url);
        if url.len() <= 40 {
            assert(l.subrange(49, 49 + expires.len() as int) =~= expires);
            if expires.len() <= 14 {
                assert(l.skip(65) =~= source);
            }
        }
    }
}

/// The line of a registration begins with its id and ends with its source path, behind
/// which it is marked where the source is missing.
pub proof fn lemma_line_of_registration(r: RegistrationView, host: Seq<char>, port: u16)
    ensures
        r.id >= 0 ==> has_prefix(registration_line(r, host, port), digits(r.id as nat)),
        !r.missing ==> text::has_suffix(registration_line(r, host, port), r.source_path@),
        r.missing ==> text::has_suffix(
            registration_line(r, host, port),
            r.source_path@ + "  [MISSING]"@,
        ),
        0 <= r.id && digits(r.id as nat).len() <= 5 ==> registration_line(r, host, port).subrange(
            7,
            7 + url_text(host, port, r.url_path@).len() as int,
        ) == url_text(host, port, r.url_path@),
{
    reveal_strlit("");
    let id = signed_digits(r.id as int);
    let url = url_text(host, port, r.url_path@);
    let t = table_line(id, url, expires_text(r.expires_in_secs), r.source_path@);
    lemma_table_columns(id, url, expires_text(r.expires_in_secs), r.source_path@);
    let l = registration_line(r, host, port);
    assert(l.take(id.len() as int) =~= t.take(id.len() as int));
    if r.missing {
        let tail = r.source_path@ + "  [MISSING]"@;
        assert(t =~= t.take(t.len() - r.source_path@.len()) + r.source_path@);
        assert(l.skip(l.len() - tail.len()) =~= tail);
    } else {
        assert(l =~= t);
    }
    if 0 <= r.id && digits(r.id as nat).len() <= 5 {
        assert(l.subrange(7, 7 + url.len() as int) =~= t.subrange(7, 7 + url.len() as int));
    }
}

/// The table has a heading and one line for each registration, in their order; without
/// any it says so.
pub proof fn lemma_lines_of_table(
    rows: Seq<RegistrationView>,
    host: Seq<char>,
    port: u16,
    i: int,
)
    ensures
        rows.len() == 0 ==> table_lines(rows, host, port) == seq!["(no registrations)"@],
        rows.len() > 0 ==> table_lines(rows, host, port).len() == rows.len() + 1,
        0 <= i < rows.len() ==> table_lines(rows, host, port)[i + 1] == registration_line(
            rows[i],
            host,
            port,
        ),
{
}

/// Where nobody listens, the path of the socket is named.
pub proof fn lemma_no_socket_names_it(socket: Seq<char>)
    ensures
        has_prefix(no_socket(socket), "no socket at "@ + socket),
{
    let lead = "no socket at "@ + socket;
    assert(no_socket(socket).take(lead.len() as int) =~= lead);
}

/// An object with one field holds the key in quotation marks and then what is given.
pub proof fn lemma_json_object(key: Seq<char>, quoted: Seq<char>)
    ensures
        json_object(key, quoted) == seq!['{', '"'] + key + seq!['"', ':'] + quoted + seq!['}'],
{
    reveal_strlit("{\"");
    reveal_strlit("\":");
    reveal_strlit("}");
    assert("{\""@ =~= seq!['{', '"']);
    assert("\":"@ =~= seq!['"', ':']);
    assert("}"@ =~= seq!['}']);
}

/// What is all digits leads `rm` to the number it writes, unless that is too large; what
/// is neither that, nor begins with a slash or `http://`, to the source of that path; and
/// a URL without a path to itself.
pub proof fn lemma_any_target(
    target: Seq<char>,
    host: Seq<char>,
    there: bool,
    r: Result<RmTarget, String>,
)
    requires
        rm_meaning(target, there, r),
    ensures
        target.len() == 0 ==> r is Err,
        target.len() > 0 && all_digits(target) ==> {
            &&& value(target) <= i64::MAX ==> (r matches Ok(RmTarget::Id(id)) && id == value(target))
            &&& value(target) > i64::MAX ==> r is Err
        },
        !all_digits(target) && target.len() > 0 && target[0] != '/' && !has_prefix(
            target,
            "http://"@,
        ) ==> (r matches Ok(RmTarget::Source(p)) && p@ == target),
        target == "http://"@ + host && !host.contains('/') ==> (r matches Ok(RmTarget::Url(u)) && u@
            == target),
{
    reveal_strlit("/");
    reveal_strlit("http://");
    if target.len() == 0 {
        assert(all_digits(target));
    }
    if target.len() > 0 && has_prefix(target, "/"@) {
        assert(target.take(1)[0] == target[0]);
    }
    if target == "http://"@ + host && !host.contains('/') {
        reveal_with_fuel(after_slashes, 4);
        let none = Seq::<char>::empty();
        let http = seq!['h', 't', 't', 'p', ':'];
        assert(target[0] == 'h' && !text::is_digit(target[0]));
        assert(!all_digits(target));
        assert(target.take(7) =~= "http://"@);
        assert(target =~= http + seq!['/'] + (seq!['/'] + host));
        lemma_no_slash_behind(http, seq!['/'] + host);
        assert(target.skip(6) =~= none + seq!['/'] + host);
        lemma_no_slash_behind(none, host);
        assert(target.skip(6).skip(1) =~= host);
        text::lemma_first_index(host, '/');
    }
}

/// A lifetime of any length is asked for as the signed number of the same bits.
pub proof fn lemma_any_lifetime_is_asked_for(d: Duration)
    ensures
        asked_ttl(Some(Ttl::Duration(d))) matches TtlRequest::Seconds(n) && (n - d.secs)
            % 0x1_0000_0000_0000_0000 == 0,
{
}

} // verus!
