//! The command line's side of the control plane.

use servant::cli::{
    command_json, env_json, exit_code, output_mode, usage_exit_code, Cli, Command, InstallArgs,
    JsonOnly, LifecycleArgs, RmArgs, ServeArgs, ServiceCommand,
};
use servant::client::{
    answer, connect_failure, ls_lines, parse_error_msg, public_url, refusal, register_request,
    removal_line, removed_line, rm_target, serve_line, status_report, ClientError, ConnectError,
    ControlClient, Failure, RmTarget,
};
use servant::config::Config;
use servant::control::{HealthResponse, RegistrationView, TtlRequest};
use servant::db::Kind;
use servant::output::{error_line, print_error, OutputMode};
use servant::ttl::{Duration, Ttl};

fn client() -> ControlClient {
    ControlClient::new(&Config::default(), "/home/bob")
}

fn view(id: i64, url: &str, source: &str, left: Option<i64>, missing: bool) -> RegistrationView {
    RegistrationView {
        id,
        url_path: url.to_string(),
        source_path: source.to_string(),
        kind: "file".to_string(),
        name_slug: None,
        created_at: 0,
        expires_at: None,
        ttl_seconds: None,
        last_hit_at: None,
        missing_since: None,
        missing,
        expires_in_secs: left,
    }
}

#[test]
fn requests_to_the_daemon() {
    let c = client();
    assert_eq!(c.socket, "/home/bob/.servant/control.sock");
    let r = c.register("{}".to_string());
    assert_eq!((r.method, r.path.as_str(), r.body.as_deref()), ("POST", "/register", Some("{}")));
    let r = c.list();
    assert_eq!((r.method, r.path.as_str(), r.body), ("GET", "/list", None));
    let r = c.health();
    assert_eq!((r.method, r.path.as_str(), r.body), ("GET", "/health", None));
    let r = c.rm_by_id(42);
    assert_eq!((r.method, r.path.as_str(), r.body), ("DELETE", "/registrations/42", None));
    let r = c.rm_by_url("/a\"b\\\n");
    assert_eq!(
        (r.method, r.path.as_str(), r.body.as_deref()),
        ("DELETE", "/by-url", Some("{\"url_path\":\"/a\\\"b\\\\\\n\"}"))
    );
    let r = c.rm_by_source("/é");
    assert_eq!(
        (r.method, r.path.as_str(), r.body.as_deref()),
        ("DELETE", "/by-source", Some("{\"source_path\":\"/é\"}"))
    );
}

#[test]
fn service_status_json_unreachable_hint_uses_service_commands() {
    let f = connect_failure(ConnectError::NotFound, "/s", "io".to_string());
    assert_eq!(exit_code(&f), 2);
    match f {
        Failure::Client(e) => {
            let error = e.message();
            assert!(error.contains("servant service start"), "{error}");
            assert!(error.contains("servant service install"), "{error}");
            assert_eq!(
                error,
                "daemon not running (no socket at /s\nhint: run `servant service start` or \
                 `servant service install`)"
            );
            let line = print_error(OutputMode::Json, &error, 2);
            let value: serde_json::Value = serde_json::from_str(&line).unwrap();
            assert_eq!(value["code"], 2);
            assert_eq!(value["error"], error.as_str());
        }
        Failure::Other(m) => panic!("expected a client error, got {m}"),
    }
    assert!(matches!(
        connect_failure(ConnectError::Refused, "/s", "io".to_string()),
        Failure::Client(ClientError::Unreachable(_))
    ));
    let f = connect_failure(ConnectError::Other, "/s", "io".to_string());
    assert_eq!(exit_code(&f), 1);
    assert!(matches!(f, Failure::Other(m) if m == "io"));
}

#[test]
fn answers_of_the_daemon() {
    let bytes = |s: &str| s.as_bytes().to_vec();
    assert_eq!(answer(200, bytes("[1]")), Ok(bytes("[1]")));
    assert_eq!(answer(204, Vec::new()), Ok(bytes("null")));
    assert_eq!(
        answer(404, bytes("{\"error\":\"no \\u0061\",\"code\":\"x\"}")),
        Err("no a".to_string())
    );
    assert_eq!(
        answer(404, bytes("oops")),
        Err("daemon returned HTTP 404 Not Found".to_string())
    );
    assert_eq!(
        answer(500, bytes("{\"error\":5}")),
        Err("daemon returned HTTP 500 Internal Server Error".to_string())
    );
    assert_eq!(
        answer(300, Vec::new()),
        Err("daemon returned HTTP 300 Multiple Choices".to_string())
    );
    assert_eq!(answer(199, Vec::new()).unwrap_err().starts_with("daemon returned HTTP 199"), true);
    assert_eq!(answer(42, Vec::new()), Err("daemon returned HTTP 42".to_string()));
    assert_eq!(parse_error_msg(&bytes("[{\"error\":\"x\"}]")), None);
    assert_eq!(refusal(None, "418"), "daemon returned HTTP 418");
    assert_eq!(refusal(Some("why".to_string()), "418"), "why");
}

#[test]
fn registration_is_asked_for() {
    let r = register_request("/a/b", Kind::Dir, None, None);
    assert_eq!((r.path.as_str(), r.kind.as_str(), r.ttl, r.name), ("/a/b", "dir", TtlRequest::Default, None));
    let ttl = Some(Ttl::Duration(Duration::from_millis(90_500)));
    assert_eq!(register_request("/a", Kind::File, ttl, None).ttl, TtlRequest::Seconds(90));
    let r = register_request("/a", Kind::File, Some(Ttl::Never), Some("n".to_string()));
    assert_eq!((r.ttl, r.name.as_deref()), (TtlRequest::Never, Some("n")));
}

#[test]
fn lines_of_serve() {
    let url = public_url("h.example", 4769, "/a.html");
    assert_eq!(url, "http://h.example:4769/a.html");
    assert_eq!(
        serve_line(&url, 3, Some(86_400), false),
        "Serving http://h.example:4769/a.html  (id=3, expires in 1day)"
    );
    assert_eq!(
        serve_line("u", 3, None, true),
        "Serving u  (id=3, expires in never)  (reused)"
    );
    assert_eq!(
        serve_line("u", 4, Some(0), false),
        "Serving u  (id=4, expires in expired)"
    );
    assert_eq!(
        serve_line("u", 5, Some(85_500), false),
        "Serving u  (id=5, expires in 23h 45m)"
    );
}

#[test]
fn lines_of_ls() {
    assert_eq!(ls_lines(&Vec::new(), "h", 1), vec!["(no registrations)"]);
    let rows = vec![
        view(1, "/a", "/s/a", None, false),
        view(123_456, "/b", "/s/b", Some(90), true),
    ];
    let lines = ls_lines(&rows, "h", 80);
    assert_eq!(
        lines[0],
        format!("{:<5}  {:<40}  {:<14}  SOURCE", "ID", "URL", "EXPIRES")
    );
    assert_eq!(
        lines[1],
        format!("{:<5}  {:<40}  {:<14}  {}", 1, "http://h:80/a", "never", "/s/a")
    );
    assert_eq!(
        lines[2],
        format!("{:<5}  {:<40}  {:<14}  {}  [MISSING]", 123_456, "http://h:80/b", "in 1m 30s", "/s/b")
    );
    assert_eq!(lines.len(), 3);
}

#[test]
fn targets_of_rm() {
    let meant = |t: &str, there: bool| match rm_target(t, there) {
        Ok(RmTarget::Id(n)) => format!("id {n}"),
        Ok(RmTarget::Url(u)) => format!("url {u}"),
        Ok(RmTarget::Source(p)) => format!("source {p}"),
        Err(e) => e,
    };
    assert_eq!(meant("42", false), "id 42");
    assert_eq!(meant("007", true), "id 7");
    assert_eq!(meant("9223372036854775807", false), "id 9223372036854775807");
    assert_eq!(
        meant("9223372036854775808", false),
        "number too large to fit in target type"
    );
    assert_eq!(meant("", false), "cannot parse integer from empty string");
    assert_eq!(meant("/a.html", false), "url /a.html");
    assert_eq!(meant("/a.html", true), "source /a.html");
    assert_eq!(meant("http://h:1/a/b", false), "url /a/b");
    assert_eq!(meant("http://h:1/", false), "url /");
    assert_eq!(meant("http://h:1", false), "url http://h:1");
    assert_eq!(meant("https://h/a", false), "source https://h/a");
    assert_eq!(meant("-5", false), "source -5");
    assert_eq!(meant("a/b", false), "source a/b");
    assert_eq!(meant("4x", true), "source 4x");
    // The messages are those of the standard library.
    assert_eq!(
        "".parse::<i64>().unwrap_err().to_string(),
        "cannot parse integer from empty string"
    );
    assert_eq!(
        "9223372036854775808".parse::<i64>().unwrap_err().to_string(),
        "number too large to fit in target type"
    );
}

#[test]
fn lines_of_rm_and_status() {
    assert_eq!(
        removal_line(&b"{\"removed\":{\"url_path\":\"/a\"}}".to_vec()),
        "Removed /a"
    );
    assert_eq!(removal_line(&b"null".to_vec()), "Removed (unknown)");
    assert_eq!(removal_line(&b"{\"removed\":{}}".to_vec()), "Removed (unknown)");
    assert_eq!(removed_line(Some("/x".to_string())), "Removed /x");
    let h = HealthResponse {
        status: "ok".to_string(),
        version: "1.2".to_string(),
        uptime_secs: 9,
        registrations: 3,
        port: 80,
        bind: "b".to_string(),
    };
    assert_eq!(
        status_report(&h),
        "daemon: ok (v1.2) bind=b:80 registrations=3 uptime=9s"
    );
}

#[test]
fn errors_are_printed() {
    assert_eq!(print_error(OutputMode::Human, "a\"b", 1), "servant: a\"b");
    assert_eq!(
        print_error(OutputMode::Json, "a\"b\n", -1),
        "{\"code\":-1,\"error\":\"a\\\"b\\n\"}"
    );
    assert_eq!(
        print_error(OutputMode::Json, "\u{0}\u{8}\u{c}\r\t\u{1f}\u{7f}/\\é", 2),
        "{\"code\":2,\"error\":\"\\u0000\\b\\f\\r\\t\\u001f\u{7f}/\\\\é\"}"
    );
    assert_eq!(error_line(OutputMode::Json, "x", 2, "\"y\""), "{\"code\":2,\"error\":\"y\"}");
}

#[test]
fn json_is_asked_for_in_three_ways() {
    assert!(!env_json(None));
    assert!(!env_json(Some("")));
    assert!(!env_json(Some("0")));
    assert!(env_json(Some("1")));
    assert!(env_json(Some("false")));
    let ls = |json: bool| Command::Ls(JsonOnly { json });
    let mode = |top: bool, command: Command, env: Option<&str>| {
        output_mode(&Cli { json: top, command }, env)
    };
    assert_eq!(mode(false, ls(false), None), OutputMode::Human);
    assert_eq!(mode(true, ls(false), None), OutputMode::Json);
    assert_eq!(mode(false, ls(true), None), OutputMode::Json);
    assert_eq!(mode(false, ls(false), Some("yes")), OutputMode::Json);
    assert_eq!(mode(false, Command::Daemon, Some("0")), OutputMode::Human);
    assert!(command_json(&Command::Serve(ServeArgs {
        path: "a".to_string(),
        ttl: None,
        name: None,
        json: true,
    })));
    assert!(command_json(&Command::Rm(RmArgs {
        target: "1".to_string(),
        json: true,
    })));
    assert!(command_json(&Command::Service(ServiceCommand::Status(JsonOnly { json: true }))));
    assert!(command_json(&Command::Service(ServiceCommand::Install(InstallArgs {
        port: None,
        bind: None,
        system: false,
        system_user: None,
        json: true,
    }))));
    assert!(!command_json(&Command::Service(ServiceCommand::Start(LifecycleArgs {
        system: false,
        system_user: None,
    }))));
    assert_eq!(usage_exit_code(true), 0);
    assert_eq!(usage_exit_code(false), 1);
}
