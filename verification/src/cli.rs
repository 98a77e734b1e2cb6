//! The command line: its commands and arguments, whom the output is for, and the
//! exit codes (`0` fine, `1` a mistake of the user or the configuration, `2` the
//! daemon cannot be reached).
//!
//! The commands that manage the service stand under `service`.

use vstd::prelude::*;

use crate::client::{ClientError, Failure};
use crate::output::OutputMode;
use crate::paths::opt_str_view;
use crate::text;
use crate::ttl::Ttl;

verus! {

/// Everything went well.
pub const EXIT_OK: i32 = 0;

/// The user or the configuration is mistaken.
pub const EXIT_USER_ERROR: i32 = 1;

/// The daemon cannot be reached.
pub const EXIT_DAEMON_UNREACHABLE: i32 = 2;

/// A command line.
#[derive(Debug)]
pub struct Cli {
    /// The output is for programs.
    pub json: bool,
    pub command: Command,
}

/// A command.
#[derive(Debug)]
pub enum Command {
    /// Register a file or folder and print its URL.
    Serve(ServeArgs),
    /// List the live registrations.
    Ls(JsonOnly),
    /// Remove a registration by id, URL or source path.
    Rm(RmArgs),
    /// Manage the service.
    Service(ServiceCommand),
    /// Run the daemon in the foreground.
    Daemon,
}

/// A command that manages the service.
#[derive(Debug)]
pub enum ServiceCommand {
    Install(InstallArgs),
    Uninstall(LifecycleArgs),
    Start(LifecycleArgs),
    Stop(LifecycleArgs),
    Restart(LifecycleArgs),
    /// Show how the daemon is doing.
    Status(JsonOnly),
    /// Show the daemon's log.
    Logs(LogsArgs),
}

/// The arguments of `serve`.
#[derive(Debug)]
pub struct ServeArgs {
    pub path: String,
    pub ttl: Option<Ttl>,
    /// The name in the URL.
    pub name: Option<String>,
    pub json: bool,
}

/// The arguments of a command that takes no others.
#[derive(Debug, Clone, Copy)]
pub struct JsonOnly {
    pub json: bool,
}

/// The arguments of `rm`.
#[derive(Debug)]
pub struct RmArgs {
    /// An id, a URL path, a URL or a source path.
    pub target: String,
    pub json: bool,
}

/// The arguments of `service install`.
#[derive(Debug)]
pub struct InstallArgs {
    pub port: Option<u16>,
    pub bind: Option<String>,
    /// Install a service of the system in place of one of the user.
    pub system: bool,
    /// The user that a service of the system runs as.
    pub system_user: Option<String>,
    pub json: bool,
}

/// The arguments of the other commands that change the service.
#[derive(Debug)]
pub struct LifecycleArgs {
    pub system: bool,
    pub system_user: Option<String>,
}

/// The arguments of `service logs`.
#[derive(Debug)]
pub struct LogsArgs {
    /// Wait for more.
    pub follow: bool,
    pub lines: Option<u32>,
    pub system: bool,
    pub system_user: Option<String>,
}

/// The value of `SERVANT_JSON` asks for JSON: it is set, and neither empty nor `0`.
pub open spec fn asks_json(value: Option<Seq<char>>) -> bool {
    value matches Some(v) && v.len() > 0 && v != "0"@
}

/// Whether the value of `SERVANT_JSON` asks for JSON.
pub fn env_json(value: Option<&str>) -> (r: bool)
    ensures
        r == asks_json(opt_str_view(value)),
{
    match value {
        None => false,
        Some(v) => !v.is_empty() && !text::same(v, "0"),
    }
}

/// The flag `--json` stands behind the command.
pub open spec fn command_asks_json(c: Command) -> bool {
    match c {
        Command::Serve(a) => a.json,
        Command::Ls(a) => a.json,
        Command::Rm(a) => a.json,
        Command::Service(ServiceCommand::Install(a)) => a.json,
        Command::Service(ServiceCommand::Status(a)) => a.json,
        _ => false,
    }
}

/// Whether the flag `--json` stands behind the command.
pub fn command_json(c: &Command) -> (r: bool)
    ensures
        r == command_asks_json(*c),
{
    match c {
        Command::Serve(a) => a.json,
        Command::Ls(a) => a.json,
        Command::Rm(a) => a.json,
        Command::Service(ServiceCommand::Install(a)) => a.json,
        Command::Service(ServiceCommand::Status(a)) => a.json,
        _ => false,
    }
}

/// Whom the output is for: for programs where the flag stands before or behind the
/// command, or `SERVANT_JSON` asks for it.
pub fn output_mode(cli: &Cli, env: Option<&str>) -> (r: OutputMode)
    ensures
        r == if cli.json || command_asks_json(cli.command) || asks_json(opt_str_view(env)) {
            OutputMode::Json
        } else {
            OutputMode::Human
        },
{
    if cli.json || command_json(&cli.command) || env_json(env) {
        OutputMode::Json
    } else {
        OutputMode::Human
    }
}

/// The exit code of a command that failed.
pub fn exit_code(failure: &Failure) -> (r: i32)
    ensures
        r == if *failure is Client {
            EXIT_DAEMON_UNREACHABLE
        } else {
            EXIT_USER_ERROR
        },
{
    match failure {
        Failure::Client(ClientError::Unreachable(_)) => EXIT_DAEMON_UNREACHABLE,
        Failure::Other(_) => EXIT_USER_ERROR,
    }
}

/// The exit code where the command line itself was not understood, or was only
/// asked about.
pub fn usage_exit_code(only_asked: bool) -> (r: i32)
    ensures
        r == if only_asked {
            EXIT_OK
        } else {
            EXIT_USER_ERROR
        },
{
    if only_asked {
        EXIT_OK
    } else {
        EXIT_USER_ERROR
    }
}

/// Any value of `SERVANT_JSON` but nothing and a zero asks for JSON.
pub proof fn lemma_environment_asks(value: Seq<char>)
    ensures
        !asks_json(None),
        asks_json(Some(value)) <==> value.len() > 0 && !(value.len() == 1 && value[0] == '0'),
{
    reveal_strlit("0");
    assert("0"@ =~= seq!['0']);
    if value.len() == 1 && value[0] == '0' {
        assert(value =~= "0"@);
    }
}

/// The flag behind `serve`, `ls`, `rm`, `service install` and `service status` asks for
/// JSON, and only where it is set.
pub proof fn lemma_flag_asks(c: Command)
    ensures
        c matches Command::Serve(a) ==> command_asks_json(c) == a.json,
        c matches Command::Ls(a) ==> command_asks_json(c) == a.json,
        c matches Command::Rm(a) ==> command_asks_json(c) == a.json,
        c matches Command::Service(ServiceCommand::Install(a)) ==> command_asks_json(c) == a.json,
        c matches Command::Service(ServiceCommand::Status(a)) ==> command_asks_json(c) == a.json,
        !(c is Serve) && !(c is Ls) && !(c is Rm) && !(c is Service) ==> !command_asks_json(c),
        c matches Command::Service(s) ==> !(s is Install) && !(s is Status) ==> !command_asks_json(
            c,
        ),
{
}

/// Success, a mistake of the user and a daemon that is not there have exit codes of
/// their own.
pub proof fn lemma_exit_codes()
    ensures
        EXIT_OK == 0,
        EXIT_USER_ERROR == 1,
        EXIT_DAEMON_UNREACHABLE == 2,
{
}

} // verus!
