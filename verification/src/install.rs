//! Installing the service: the unit files, the user that a service of the system
//! runs as, and the actions in their order.
//!
//! The usual service belongs to the user's own systemd. A service of the system is
//! the fallback for hosts where that is not available: its unit belongs to root,
//! and it still runs the daemon as the user.

use vstd::prelude::*;

use crate::cli::InstallArgs;
use crate::config;
use crate::config::{config_path, user_unit_path, Config};
use crate::paths;
use crate::paths::{join_view, opt_str_view};
use crate::text;
use crate::text::{digits, views};

verus! {

/// The user that a service of the system runs as.
#[derive(Debug)]
pub struct SystemServiceTarget {
    pub user: String,
    pub uid: u32,
    pub gid: u32,
    pub group: String,
    pub home: String,
}

impl SystemServiceTarget {
    /// The name of the service.
    pub fn service_name(&self) -> (r: String)
        ensures
            r@ == service_of(self.uid),
    {
        system_service_name(self.uid)
    }
}

/// The name of the service of the system for a user id.
pub open spec fn service_of(uid: u32) -> Seq<char> {
    "servant-user-"@ + digits(uid as nat) + ".service"@
}

/// The name of the service of the system for a user id.
pub fn system_service_name(uid: u32) -> (r: String)
    ensures
        r@ == service_of(uid),
{
    let number: String = text::decimal(uid as u64);
    text::joined3("servant-user-", number.as_str(), ".service")
}

/// Services of different users have different names.
pub proof fn lemma_service_names_differ(a: u32, b: u32)
    requires
        service_of(a) == service_of(b),
    ensures
        a == b,
{
    let p = "servant-user-"@;
    let q = ".service"@;
    assert(digits(a as nat) =~= service_of(a).subrange(
        p.len() as int,
        service_of(a).len() - q.len(),
    ));
    assert(digits(b as nat) =~= service_of(b).subrange(
        p.len() as int,
        service_of(b).len() - q.len(),
    ));
    text::lemma_digits_injective(a as nat, b as nat);
}

/// The path of the unit file of a service of the system.
pub open spec fn system_unit_view(uid: u32) -> Seq<char> {
    join_view("/etc/systemd/system"@, service_of(uid))
}

/// The path of the unit file of a service of the system.
pub fn system_unit_path(target: &SystemServiceTarget) -> (r: String)
    ensures
        r@ == system_unit_view(target.uid),
{
    let name: String = target.service_name();
    paths::join("/etc/systemd/system", name.as_str())
}

// ---------------------------------------------------------------------------
// Unit files
// ---------------------------------------------------------------------------

/// The unit file of the user's service.
pub open spec fn unit_text(exe: Seq<char>) -> Seq<char> {
    "[Unit]\nDescription=Servant — local static file server\nAfter=network.target\n\n[Service]\nType=simple\nExecStart="@
        + exe
        + " daemon\nRestart=on-failure\nRestartSec=2s\n\n[Install]\nWantedBy=default.target\n"@
}

/// The unit file of the user's service, which runs `exe_path`.
pub fn render_unit(exe_path: &str) -> (r: String)
    ensures
        r@ == unit_text(exe_path@),
{
    text::joined3(
        "[Unit]\nDescription=Servant — local static file server\nAfter=network.target\n\n[Service]\nType=simple\nExecStart=",
        exe_path,
        " daemon\nRestart=on-failure\nRestartSec=2s\n\n[Install]\nWantedBy=default.target\n",
    )
}

/// The unit file of a service of the system.
pub open spec fn system_unit_text(exe: Seq<char>, t: SystemServiceTarget) -> Seq<char> {
    "[Unit]\nDescription=Servant — local static file server for "@ + t.user@
        + "\nAfter=network-online.target\nWants=network-online.target\n\n[Service]\nType=simple\nUser="@
        + t.user@ + "\nGroup="@ + t.group@ + "\nEnvironment=HOME="@ + t.home@
        + "\nEnvironment=USER="@ + t.user@ + "\nWorkingDirectory="@ + t.home@ + "\nExecStart="@ + exe
        + " daemon\nRestart=on-failure\nRestartSec=2s\n\n[Install]\nWantedBy=multi-user.target\n"@
}

/// The unit file of a service of the system, which runs `exe_path` as the target
/// user.
pub fn render_system_unit(exe_path: &str, target: &SystemServiceTarget) -> (r: String)
    ensures
        r@ == system_unit_text(exe_path@, *target),
{
    let mut out: String = text::joined(
        "[Unit]\nDescription=Servant — local static file server for ",
        target.user.as_str(),
    );
    out.append(
        "\nAfter=network-online.target\nWants=network-online.target\n\n[Service]\nType=simple\nUser=",
    );
    out.append(target.user.as_str());
    out.append("\nGroup=");
    out.append(target.group.as_str());
    out.append("\nEnvironment=HOME=");
    out.append(target.home.as_str());
    out.append("\nEnvironment=USER=");
    out.append(target.user.as_str());
    out.append("\nWorkingDirectory=");
    out.append(target.home.as_str());
    out.append("\nExecStart=");
    out.append(exe_path);
    out.append(
        " daemon\nRestart=on-failure\nRestartSec=2s\n\n[Install]\nWantedBy=multi-user.target\n",
    );
    out
}

// ---------------------------------------------------------------------------
// The target user
// ---------------------------------------------------------------------------

/// The name of the user that a service of the system is to run as: the one on the
/// command line, else the one who called `sudo`, unless that is root.
pub open spec fn target_name(named: Option<Seq<char>>, sudo_user: Option<Seq<char>>) -> Option<
    Seq<char>,
> {
    match named {
        Some(n) => Some(n),
        None => match sudo_user {
            None => None,
            Some(u) => if u.len() == 0 || u == "root"@ {
                None
            } else {
                Some(u)
            },
        },
    }
}

/// The name of the user that a service of the system is to run as.
pub fn target_user(system_user: Option<&str>, sudo_user: Option<&str>) -> (r: Result<
    String,
    String,
>)
    ensures
        match r {
            Ok(n) => target_name(opt_str_view(system_user), opt_str_view(sudo_user)) == Some(n@),
            Err(e) => {
                &&& target_name(opt_str_view(system_user), opt_str_view(sudo_user)) is None
                &&& e@
                    == "could not determine which user the system service should run as. Re-run via sudo from your user account, or pass --system-user NAME"@
            },
        },
{
    match system_user {
        Some(n) => {
            return Ok(text::owned(n));
        },
        None => {},
    }
    match sudo_user {
        Some(u) => {
            if !u.is_empty() && !text::same(u, "root") {
                return Ok(text::owned(u));
            }
        },
        None => {},
    }
    Err(
        text::owned(
            "could not determine which user the system service should run as. Re-run via sudo from your user account, or pass --system-user NAME",
        ),
    )
}

/// What the system knows of a user.
#[derive(Debug)]
pub struct Account {
    pub name: String,
    pub uid: u32,
    pub gid: u32,
    /// The name of the group of that id, where it has one.
    pub group: Option<String>,
    pub home: String,
}

/// A text in quotes, as `Debug` writes it.
pub uninterp spec fn debug_text(s: Seq<char>) -> Seq<char>;

/// Writes a text with the `Debug` of `str`. What it writes depends on the text
/// alone.
#[verifier::external_body]
fn debug_quoted(s: &str) -> (r: String)
    ensures
        r@ == debug_text(s@),
{
    format!("{s:?}")
}

/// The message for a user who does not exist, given the name in quotes.
pub fn no_such_user(quoted: &str) -> (r: String)
    ensures
        r@ == "target user "@ + quoted@ + " does not exist"@,
{
    text::joined3("target user ", quoted, " does not exist")
}

/// The user that a service of the system runs as, given what the system knows of
/// the user named `user`. A service that runs as root is refused.
pub fn resolve_system_service_target(user: &str, account: Option<Account>) -> (r: Result<
    SystemServiceTarget,
    String,
>)
    ensures
        match account {
            None => r matches Err(e) && e@ == "target user "@ + debug_text(user@)
                + " does not exist"@,
            Some(a) => if a.uid == 0 {
                r matches Err(e) && e@
                    == "refusing to install servant system service that runs as root"@
            } else {
                r matches Ok(t) && t.user@ == a.name@ && t.uid == a.uid && t.gid == a.gid && t.home@
                    == a.home@ && t.group@ == match a.group {
                    Some(g) => g@,
                    None => digits(a.gid as nat),
                }
            },
        },
        r matches Ok(t) ==> t.uid != 0,
{
    let a: Account = match account {
        None => {
            let quoted: String = debug_quoted(user);
            return Err(no_such_user(quoted.as_str()));
        },
        Some(a) => a,
    };
    if a.uid == 0 {
        return Err(text::owned("refusing to install servant system service that runs as root"));
    }
    let group: String = match a.group {
        Some(g) => g,
        None => text::decimal(a.gid as u64),
    };
    Ok(SystemServiceTarget { user: a.name, uid: a.uid, gid: a.gid, group, home: a.home })
}

// ---------------------------------------------------------------------------
// The actions
// ---------------------------------------------------------------------------

/// Puts the port and the address of the command line into the configuration.
pub fn apply_install_overrides(cfg: &mut Config, args: &InstallArgs)
    ensures
        final(cfg).port == match args.port {
            Some(p) => p,
            None => old(cfg).port,
        },
        final(cfg).bind@ == match args.bind {
            Some(b) => b@,
            None => old(cfg).bind@,
        },
        final(cfg).default_ttl == old(cfg).default_ttl,
        final(cfg).public_host == old(cfg).public_host,
{
    match args.port {
        Some(p) => {
            cfg.port = p;
        },
        None => {},
    }
    match &args.bind {
        Some(b) => {
            cfg.bind = b.clone();
        },
        None => {},
    }
}

/// One action of an installation. Each must succeed before the next is taken,
/// except where it says otherwise.
#[derive(Debug)]
pub enum Action {
    /// Load the configuration of this home folder, put the command line's port and
    /// address into it, and save it to this path.
    UpdateConfig { home: String, path: String },
    /// Give those of these paths that are there to the target user.
    GiveToUser { uid: u32, gid: u32, paths: Vec<String> },
    /// Write a unit file.
    WriteUnit { path: String, text: String },
    /// Run `systemctl` with these arguments. Where the service is the user's, a
    /// failure is reported with the fallback.
    Systemctl { user_service: bool, args: Vec<String> },
    /// Let the user's services outlive the login. A failure is only noted.
    EnableLinger(String),
    /// Wait until the daemon answers, else point to this log.
    CheckHealth(String),
}

/// An action over plain text.
pub enum ActionView {
    UpdateConfig(Seq<char>, Seq<char>),
    GiveToUser(u32, u32, Seq<Seq<char>>),
    WriteUnit(Seq<char>, Seq<char>),
    Systemctl(bool, Seq<Seq<char>>),
    EnableLinger(Seq<char>),
    CheckHealth(Seq<char>),
}

impl Action {
    /// The action over plain text.
    pub open spec fn view(self) -> ActionView {
        match self {
            Action::UpdateConfig { home, path } => ActionView::UpdateConfig(home@, path@),
            Action::GiveToUser { uid, gid, paths } => ActionView::GiveToUser(uid, gid, views(paths@)),
            Action::WriteUnit { path, text } => ActionView::WriteUnit(path@, text@),
            Action::Systemctl { user_service, args } => ActionView::Systemctl(
                user_service,
                views(args@),
            ),
            Action::EnableLinger(u) => ActionView::EnableLinger(u@),
            Action::CheckHealth(log) => ActionView::CheckHealth(log@),
        }
    }
}

/// Actions over plain text.
pub open spec fn action_views(actions: Seq<Action>) -> Seq<ActionView> {
    Seq::new(actions.len(), |i: int| actions[i].view())
}

/// What an installation depends on.
#[derive(Debug)]
pub struct Host {
    /// `systemctl` is there.
    pub systemctl: bool,
    /// The command runs as root.
    pub root: bool,
    /// The path of the program.
    pub exe: String,
    /// The home folder of the user.
    pub home: String,
    /// The name of the user, empty where it is not known.
    pub user: String,
}

/// The path of the configuration file.
pub open spec fn config_file(home: Seq<char>) -> Seq<char> {
    join_view(config_path(home), "config.toml"@)
}

/// The actions that install the user's service.
pub open spec fn user_actions(host: Host) -> Seq<ActionView> {
    let before = seq![
        ActionView::UpdateConfig(host.home@, config_file(host.home@)),
        ActionView::WriteUnit(user_unit_path(host.home@), unit_text(host.exe@)),
        ActionView::Systemctl(true, seq!["--user"@, "daemon-reload"@]),
        ActionView::Systemctl(true, seq!["--user"@, "enable"@, "--now"@, "servant"@]),
    ];
    let linger = if host.user@.len() == 0 {
        Seq::empty()
    } else {
        seq![ActionView::EnableLinger(host.user@)]
    };
    before + linger + seq![ActionView::CheckHealth("journalctl --user -u servant"@)]
}

/// The actions that install a service of the system.
pub open spec fn system_actions(exe: Seq<char>, t: SystemServiceTarget) -> Seq<ActionView> {
    seq![
        ActionView::UpdateConfig(t.home@, config_file(t.home@)),
        ActionView::GiveToUser(
            t.uid,
            t.gid,
            seq![join_view(t.home@, ".config"@), config_path(t.home@), config_file(t.home@)],
        ),
        ActionView::WriteUnit(system_unit_view(t.uid), system_unit_text(exe, t)),
        ActionView::Systemctl(false, seq!["daemon-reload"@]),
        ActionView::Systemctl(false, seq!["enable"@, "--now"@, service_of(t.uid)]),
        ActionView::CheckHealth("journalctl -u "@ + service_of(t.uid)),
    ]
}

/// Arguments from plain text.
pub(crate) fn args_of(parts: &[&str]) -> (r: Vec<String>)
    ensures
        r@.len() == parts@.len(),
        forall|i: int| 0 <= i < parts@.len() ==> (#[trigger] r@[i])@ == parts@[i]@,
{
    let mut out: Vec<String> = Vec::new();
    let mut i: usize = 0;
    while i < parts.len()
        invariant
            0 <= i <= parts@.len(),
            out@.len() == i,
            forall|j: int| 0 <= j < i ==> (#[trigger] out@[j])@ == parts@[j]@,
        decreases parts@.len() - i,
    {
        out.push(text::owned(parts[i]));
        i = i + 1;
    }
    out
}

fn user_install(host: &Host) -> (r: Vec<Action>)
    ensures
        action_views(r@) == user_actions(*host),
{
    let mut out: Vec<Action> = Vec::new();
    let home: &str = host.home.as_str();
    out.push(
        Action::UpdateConfig { home: text::owned(home), path: config::config_file_path(home) },
    );
    out.push(
        Action::WriteUnit {
            path: config::systemd_unit_path(home),
            text: render_unit(host.exe.as_str()),
        },
    );
    let reload: Vec<String> = args_of(&["--user", "daemon-reload"]);
    let enable: Vec<String> = args_of(&["--user", "enable", "--now", "servant"]);
    proof {
        assert(views(reload@) =~= seq!["--user"@, "daemon-reload"@]);
        assert(views(enable@) =~= seq!["--user"@, "enable"@, "--now"@, "servant"@]);
    }
    out.push(Action::Systemctl { user_service: true, args: reload });
    out.push(Action::Systemctl { user_service: true, args: enable });
    if !host.user.as_str().is_empty() {
        out.push(Action::EnableLinger(host.user.clone()));
    }
    out.push(Action::CheckHealth(text::owned("journalctl --user -u servant")));
    proof {
        assert(action_views(out@) =~= user_actions(*host));
    }
    out
}

fn system_install(exe: &str, t: &SystemServiceTarget) -> (r: Vec<Action>)
    ensures
        action_views(r@) == system_actions(exe@, *t),
{
    let mut out: Vec<Action> = Vec::new();
    let home: &str = t.home.as_str();
    out.push(
        Action::UpdateConfig { home: text::owned(home), path: config::config_file_path(home) },
    );
    let mut given: Vec<String> = Vec::new();
    given.push(paths::join(home, ".config"));
    given.push(config::config_dir(home));
    given.push(config::config_file_path(home));
    let service: String = t.service_name();
    let reload: Vec<String> = args_of(&["daemon-reload"]);
    let enable: Vec<String> = args_of(&["enable", "--now", service.as_str()]);
    proof {
        assert(views(given@) =~= seq![
            join_view(t.home@, ".config"@),
            config_path(t.home@),
            config_file(t.home@),
        ]);
        assert(views(reload@) =~= seq!["daemon-reload"@]);
        assert(views(enable@) =~= seq!["enable"@, "--now"@, service_of(t.uid)]);
    }
    out.push(Action::GiveToUser { uid: t.uid, gid: t.gid, paths: given });
    out.push(Action::WriteUnit { path: system_unit_path(t), text: render_system_unit(exe, t) });
    out.push(Action::Systemctl { user_service: false, args: reload });
    out.push(Action::Systemctl { user_service: false, args: enable });
    out.push(Action::CheckHealth(text::joined("journalctl -u ", service.as_str())));
    proof {
        assert(action_views(out@) =~= system_actions(exe@, *t));
    }
    out
}

/// The option that names the user again, where one was named.
pub open spec fn user_option(system_user: Option<String>) -> Seq<char> {
    match system_user {
        None => ""@,
        Some(u) => " --system-user "@ + u@,
    }
}

/// The option that names the user again, where one was named.
pub(crate) fn repeat_user(system_user: &Option<String>) -> (r: String)
    ensures
        r@ == user_option(*system_user),
{
    match system_user {
        None => text::owned(""),
        Some(u) => text::joined(" --system-user ", u.as_str()),
    }
}

/// What an installation is refused with, where it is refused before anything is
/// done.
pub open spec fn install_refusal(
    args: InstallArgs,
    host: Host,
    target: Result<SystemServiceTarget, String>,
) -> Option<Seq<char>> {
    if !host.systemctl {
        Some(
            if args.system {
                "systemd not available: systemctl was not found in PATH"@
            } else {
                "systemd not available: systemctl was not found in PATH. servant service install requires Linux with systemd."@
            },
        )
    } else if args.system && !host.root {
        Some(
            "system install requires root. Try:\n  sudo servant service install --system"@
                + user_option(args.system_user),
        )
    } else if args.system && target is Err {
        Some(target->Err_0@)
    } else {
        None
    }
}

/// The actions that install the service, or why it is not installed. `target` is
/// looked at for a service of the system only.
pub fn run_install(
    args: &InstallArgs,
    host: &Host,
    target: &Result<SystemServiceTarget, String>,
) -> (r: Result<Vec<Action>, String>)
    ensures
        match install_refusal(*args, *host, *target) {
            Some(m) => r matches Err(e) && e@ == m,
            None => r matches Ok(actions) && action_views(actions@) == if args.system {
                system_actions(host.exe@, target->Ok_0)
            } else {
                user_actions(*host)
            },
        },
{
    if !host.systemctl {
        return Err(
            text::owned(
                if args.system {
                    "systemd not available: systemctl was not found in PATH"
                } else {
                    "systemd not available: systemctl was not found in PATH. servant service install requires Linux with systemd."
                },
            ),
        );
    }
    if !args.system {
        return Ok(user_install(host));
    }
    if !host.root {
        let option: String = repeat_user(&args.system_user);
        return Err(
            text::joined(
                "system install requires root. Try:\n  sudo servant service install --system",
                option.as_str(),
            ),
        );
    }
    match target {
        Err(e) => Err(e.clone()),
        Ok(t) => Ok(system_install(host.exe.as_str(), t)),
    }
}

/// The unit of a service of the system names the target user as the one it runs as.
pub proof fn lemma_system_unit_names_user(exe: Seq<char>, t: SystemServiceTarget)
    ensures
        ({
            let lead = "[Unit]\nDescription=Servant — local static file server for "@ + t.user@
                + "\nAfter=network-online.target\nWants=network-online.target\n\n[Service]\nType=simple\nUser="@
                + t.user@;
            text::has_prefix(system_unit_text(exe, t), lead)
        }),
{
    let lead = "[Unit]\nDescription=Servant — local static file server for "@ + t.user@
        + "\nAfter=network-online.target\nWants=network-online.target\n\n[Service]\nType=simple\nUser="@
        + t.user@;
    assert(system_unit_text(exe, t).take(lead.len() as int) =~= lead);
}

/// What is said where the user's systemd failed, given what it printed.
pub fn user_systemd_unavailable(reason: &str) -> (r: String)
    ensures
        r@ == "systemd user services are unavailable or failed on this host.\n\n"@ + reason@
            + "\n\nTry the explicit system-service fallback instead:\n  sudo servant service install --system\n\nThis writes a root-owned systemd unit, but runs the servant daemon as your user."@,
{
    text::joined3(
        "systemd user services are unavailable or failed on this host.\n\n",
        reason,
        "\n\nTry the explicit system-service fallback instead:\n  sudo servant service install --system\n\nThis writes a root-owned systemd unit, but runs the servant daemon as your user.",
    )
}

/// Arguments with a space between each two.
pub open spec fn spaced(args: Seq<Seq<char>>) -> Seq<char>
    decreases args.len(),
{
    if args.len() == 0 {
        Seq::empty()
    } else if args.len() == 1 {
        args[0]
    } else {
        spaced(args.drop_last()) + " "@ + args.last()
    }
}

/// Arguments with a space between each two.
pub fn space_out(args: &Vec<String>) -> (r: String)
    ensures
        r@ == spaced(views(args@)),
{
    let ghost all = views(args@);
    let mut out: String = String::new();
    let mut i: usize = 0;
    proof {
        assert(all.take(0) =~= Seq::empty());
    }
    while i < args.len()
        invariant
            0 <= i <= args.len(),
            all == views(args@),
            out@ == spaced(all.take(i as int)),
        decreases args.len() - i,
    {
        proof {
            assert(all.take(i + 1).drop_last() =~= all.take(i as int));
            assert(all.take(i + 1).last() == args@[i as int]@);
        }
        if i > 0 {
            out.append(" ");
        }
        out.append(args[i].as_str());
        proof {
            if i == 0 {
                assert(out@ =~= args@[0]@);
            }
        }
        i = i + 1;
    }
    proof {
        assert(all.take(i as int) =~= all);
    }
    out
}

/// What a command printed under that name, nothing where it printed only white
/// space.
pub open spec fn printed(name: Seq<char>, output: Seq<char>) -> Seq<char> {
    if text::trimmed(output).len() == 0 {
        ""@
    } else {
        name + ":\n"@ + text::trimmed(output) + "\n"@
    }
}

fn report_printed(name: &str, output: &str) -> (r: String)
    ensures
        r@ == printed(name@, output@),
{
    let t: String = text::trim(output);
    if t.as_str().is_empty() {
        return text::owned("");
    }
    let mut out: String = text::joined3(name, ":\n", t.as_str());
    out.append("\n");
    out
}

/// What is said where `systemctl` failed for the user's service: its arguments, how
/// it ended and what it printed.
pub fn user_systemctl_failure(args: &Vec<String>, status: &str, stdout: &str, stderr: &str) -> (r:
    String)
    ensures
        r@ == "systemctl "@ + spaced(views(args@)) + " exited "@ + status@ + "\n"@ + printed(
            "stdout"@,
            stdout@,
        ) + printed("stderr"@, stderr@),
{
    let line: String = space_out(args);
    let mut out: String = text::joined3("systemctl ", line.as_str(), " exited ");
    out.append(status);
    out.append("\n");
    out.append(report_printed("stdout", stdout).as_str());
    out.append(report_printed("stderr", stderr).as_str());
    out
}

/// What is said where `systemctl` failed for a service of the system.
pub fn run_systemctl_failure(args: &Vec<String>, status: &str) -> (r: String)
    ensures
        r@ == "systemctl "@ + spaced(views(args@)) + " exited "@ + status@,
{
    let line: String = space_out(args);
    let mut out: String = text::joined3("systemctl ", line.as_str(), " exited ");
    out.append(status);
    out
}

/// What is said where the user's services could not be made to outlive the login.
pub fn linger_note(user: &str) -> (r: String)
    ensures
        r@ == "note: could not enable linger (loginctl enable-linger "@ + user@
            + " failed).\nthe daemon will exit on logout. run as root:\n  sudo loginctl enable-linger "@
            + user@,
{
    let mut out: String = text::joined3(
        "note: could not enable linger (loginctl enable-linger ",
        user,
        " failed).\nthe daemon will exit on logout. run as root:\n  sudo loginctl enable-linger ",
    );
    out.append(user);
    out
}

/// What is said where the daemon did not answer in time.
pub fn health_failure(log_hint: &str) -> (r: String)
    ensures
        r@ == "service started but /health did not respond; check `"@ + log_hint@ + "`"@,
{
    text::joined3("service started but /health did not respond; check `", log_hint, "`")
}

/// What is printed of an installation, line by line.
pub open spec fn success_lines(
    mode: Seq<char>,
    unit: Seq<char>,
    exe: Seq<char>,
    target: Option<SystemServiceTarget>,
    cfg: Config,
) -> Seq<Seq<char>> {
    let service = match target {
        None => Seq::<Seq<char>>::empty(),
        Some(t) => seq![
            "  service: "@ + service_of(t.uid),
            "  user:    "@ + t.user@,
            "  home:    "@ + t.home@,
        ],
    };
    seq!["✓ servant installed"@, "  mode:    "@ + mode] + service + seq![
        "  unit:    "@ + unit,
        "  binary:  "@ + exe,
        "  bind:    "@ + (cfg.bind@ + ":"@ + digits(cfg.port as nat)),
        "  status:  running"@,
    ]
}

/// What is printed of an installation for people, line by line.
pub fn print_install_success(
    install_mode: &str,
    unit_path: &str,
    exe: &str,
    target: &Option<SystemServiceTarget>,
    cfg: &Config,
) -> (r: Vec<String>)
    ensures
        views(r@) == success_lines(install_mode@, unit_path@, exe@, *target, *cfg),
{
    let mut out: Vec<String> = Vec::new();
    out.push(text::owned("✓ servant installed"));
    out.push(text::joined("  mode:    ", install_mode));
    match target {
        None => {},
        Some(t) => {
            let service: String = t.service_name();
            out.push(text::joined("  service: ", service.as_str()));
            out.push(text::joined("  user:    ", t.user.as_str()));
            out.push(text::joined("  home:    ", t.home.as_str()));
        },
    }
    out.push(text::joined("  unit:    ", unit_path));
    out.push(text::joined("  binary:  ", exe));
    let address: String = cfg.listen_address();
    out.push(text::joined("  bind:    ", address.as_str()));
    out.push(text::owned("  status:  running"));
    proof {
        assert(views(out@) =~= success_lines(install_mode@, unit_path@, exe@, *target, *cfg));
    }
    out
}

// ---------------------------------------------------------------------------
// What an installation is
// ---------------------------------------------------------------------------

/// The service of the system is named after the user id, and so is its unit file.
pub proof fn lemma_service_is_named_after_the_user(uid: u32)
    ensures
        service_of(uid) == "servant-user-"@ + digits(uid as nat) + ".service"@,
        system_unit_view(uid) == "/etc/systemd/system/servant-user-"@ + digits(uid as nat)
            + ".service"@,
{
    reveal_strlit("servant-user-");
    reveal_strlit("/etc/systemd/system");
    reveal_strlit("/etc/systemd/system/servant-user-");
    assert(system_unit_view(uid) =~= "/etc/systemd/system/servant-user-"@ + digits(uid as nat)
        + ".service"@);
}

/// The unit of the user's service runs the program as the daemon.
pub proof fn lemma_unit_runs_the_program(exe: Seq<char>)
    ensures
        text::holds(unit_text(exe), "\nExecStart="@ + exe + " daemon\n"@),
        text::holds(unit_text(exe), "\nRestart=on-failure\n"@),
        text::holds(unit_text(exe), "\nWantedBy=default.target\n"@),
{
    let head = "[Unit]\nDescription=Servant — local static file server\nAfter=network.target\n\n[Service]\nType=simple\nExecStart="@;
    let tail = " daemon\nRestart=on-failure\nRestartSec=2s\n\n[Install]\nWantedBy=default.target\n"@;
    reveal_strlit("[Unit]\nDescription=Servant — local static file server\nAfter=network.target\n\n[Service]\nType=simple\nExecStart=");
    reveal_strlit(" daemon\nRestart=on-failure\nRestartSec=2s\n\n[Install]\nWantedBy=default.target\n");
    reveal_strlit("\nExecStart=");
    reveal_strlit(" daemon\n");
    reveal_strlit("\nRestart=on-failure\n");
    reveal_strlit("\nWantedBy=default.target\n");
    let s = unit_text(exe);
    let cut = head.take(head.len() - 11);
    assert(head =~= cut + "\nExecStart="@);
    assert(tail =~= " daemon\n"@ + tail.skip(8));
    assert(s =~= cut + ("\nExecStart="@ + exe + " daemon\n"@) + tail.skip(8));
    assert(tail =~= tail.take(7) + "\nRestart=on-failure\n"@ + tail.skip(27));
    assert(s =~= (head + exe + tail.take(7)) + "\nRestart=on-failure\n"@ + tail.skip(27));
    assert(tail =~= tail.take(tail.len() - 25) + "\nWantedBy=default.target\n"@);
    assert(s =~= (head + exe + tail.take(tail.len() - 25)) + "\nWantedBy=default.target\n"@
        + Seq::<char>::empty());
}

proof fn lemma_assoc(a: Seq<char>, b: Seq<char>, c: Seq<char>, d: Seq<char>)
    ensures
        a + b + c + d == a + (b + c + d),
{
    assert(a + b + c + d =~= a + (b + c + d));
}

proof fn lemma_line(before: Seq<char>, lead: Seq<char>, value: Seq<char>, after: Seq<char>)
    requires
        after.len() > 0,
        after[0] == '\n',
    ensures
        text::holds(before + (lead + value + after), lead + value + "\n"@),
{
    reveal_strlit("\n");
    let line = lead + value + "\n"@;
    assert(before + (lead + value + after) =~= before + line + after.skip(1));
}

proof fn lemma_lines_of_service(before: Seq<char>, t: SystemServiceTarget, exec: Seq<char>)
    requires
        exec.len() > 0,
        exec[0] == '\n',
    ensures
        ({
            let s = before + "\nUser="@ + t.user@ + "\nGroup="@ + t.group@ + "\nEnvironment=HOME="@
                + t.home@ + "\nEnvironment=USER="@ + t.user@ + "\nWorkingDirectory="@ + t.home@
                + exec;
            &&& text::holds(s, "\nUser="@ + t.user@ + "\n"@)
            &&& text::holds(s, "\nGroup="@ + t.group@ + "\n"@)
            &&& text::holds(s, "\nEnvironment=HOME="@ + t.home@ + "\n"@)
            &&& text::holds(s, "\nEnvironment=USER="@ + t.user@ + "\n"@)
            &&& text::holds(s, "\nWorkingDirectory="@ + t.home@ + "\n"@)
        }),
{
    let user = "\nUser="@;
    let group = "\nGroup="@;
    let home = "\nEnvironment=HOME="@;
    let who = "\nEnvironment=USER="@;
    let folder = "\nWorkingDirectory="@;
    let b1 = before + user + t.user@;
    let b2 = b1 + group + t.group@;
    let b3 = b2 + home + t.home@;
    let b4 = b3 + who + t.user@;
    let a4 = folder + t.home@ + exec;
    let a3 = who + t.user@ + a4;
    let a2 = home + t.home@ + a3;
    let a1 = group + t.group@ + a2;
    let s = b4 + folder + t.home@ + exec;
    lemma_assoc(b4, folder, t.home@, exec);
    lemma_assoc(b3, who, t.user@, a4);
    lemma_assoc(b2, home, t.home@, a3);
    lemma_assoc(b1, group, t.group@, a2);
    lemma_assoc(before, user, t.user@, a1);
    assert(a4[0] == '\n') by {
        reveal_strlit("\nWorkingDirectory=");
    }
    assert(a3[0] == '\n') by {
        reveal_strlit("\nEnvironment=USER=");
    }
    assert(a2[0] == '\n') by {
        reveal_strlit("\nEnvironment=HOME=");
    }
    assert(a1[0] == '\n') by {
        reveal_strlit("\nGroup=");
    }
    lemma_line(b4, folder, t.home@, exec);
    lemma_line(b3, who, t.user@, a4);
    lemma_line(b2, home, t.home@, a3);
    lemma_line(b1, group, t.group@, a2);
    lemma_line(before, user, t.user@, a1);
}

proof fn lemma_lines_of_program(before: Seq<char>, exe: Seq<char>, tail: Seq<char>, end: Seq<char>)
    ensures
        text::holds(
            before + "\nExecStart="@ + exe + (" daemon\n"@ + tail + end),
            "\nExecStart="@ + exe + " daemon\n"@,
        ),
        text::holds(before + "\nExecStart="@ + exe + (" daemon\n"@ + tail + end), end),
{
    let s = before + "\nExecStart="@ + exe + (" daemon\n"@ + tail + end);
    assert(s =~= before + ("\nExecStart="@ + exe + " daemon\n"@) + (tail + end));
    assert(s =~= (before + "\nExecStart="@ + exe + " daemon\n"@ + tail) + end
        + Seq::<char>::empty());
}

/// The unit of a service of the system runs the program as the daemon, as the target
/// user, in the user's group and home folder.
pub proof fn lemma_system_unit_runs_as_the_user(exe: Seq<char>, t: SystemServiceTarget)
    ensures
        text::holds(system_unit_text(exe, t), "\nUser="@ + t.user@ + "\n"@),
        text::holds(system_unit_text(exe, t), "\nGroup="@ + t.group@ + "\n"@),
        text::holds(system_unit_text(exe, t), "\nEnvironment=HOME="@ + t.home@ + "\n"@),
        text::holds(system_unit_text(exe, t), "\nEnvironment=USER="@ + t.user@ + "\n"@),
        text::holds(system_unit_text(exe, t), "\nWorkingDirectory="@ + t.home@ + "\n"@),
        text::holds(system_unit_text(exe, t), "\nExecStart="@ + exe + " daemon\n"@),
        text::holds(system_unit_text(exe, t), "\nWantedBy=multi-user.target\n"@),
{
    let s = system_unit_text(exe, t);
    let head = "[Unit]\nDescription=Servant — local static file server for "@;
    let net = "\nAfter=network-online.target\nWants=network-online.target\n\n[Service]\nType=simple\nUser="@;
    let tail = " daemon\nRestart=on-failure\nRestartSec=2s\n\n[Install]\nWantedBy=multi-user.target\n"@;
    let end = "\nWantedBy=multi-user.target\n"@;
    let user = "\nUser="@;
    let cut = net.take(net.len() - 6);
    assert(net == cut + user) by {
        reveal_strlit("\nAfter=network-online.target\nWants=network-online.target\n\n[Service]\nType=simple\nUser=");
        reveal_strlit("\nUser=");
        assert(net =~= cut + user);
    }
    let middle = tail.subrange(8, tail.len() - end.len());
    assert(tail == " daemon\n"@ + middle + end) by {
        reveal_strlit(" daemon\nRestart=on-failure\nRestartSec=2s\n\n[Install]\nWantedBy=multi-user.target\n");
        reveal_strlit(" daemon\n");
        reveal_strlit("\nWantedBy=multi-user.target\n");
        assert(tail =~= " daemon\n"@ + middle + end);
    }
    let exec = "\nExecStart="@ + exe + tail;
    assert(exec.len() > 0 && exec[0] == '\n') by {
        reveal_strlit("\nExecStart=");
    }
    let before = head + t.user@ + cut;
    assert(head + t.user@ + net == before + user) by {
        assert(head + t.user@ + net =~= before + user);
    }
    let lines = head + t.user@ + net + t.user@ + "\nGroup="@ + t.group@ + "\nEnvironment=HOME="@
        + t.home@ + "\nEnvironment=USER="@ + t.user@ + "\nWorkingDirectory="@ + t.home@;
    lemma_assoc(lines, "\nExecStart="@, exe, tail);
    assert(s == lines + exec);
    lemma_lines_of_service(before, t, exec);
    lemma_lines_of_program(lines, exe, middle, end);
}

/// The user on the command line counts, else the one who called `sudo`, who may not be
/// root.
pub proof fn lemma_whom_the_service_runs_as(name: Seq<char>, sudo: Option<Seq<char>>)
    ensures
        target_name(Some(name), sudo) == Some(name),
        name.len() > 0 && name != "root"@ ==> target_name(None, Some(name)) == Some(name),
        target_name(None, Some("root"@)) is None,
        target_name(None, Some(Seq::empty())) is None,
        target_name(None, None) is None,
{
}

/// An installation is refused without `systemctl`, and one of the system also without
/// the rights of root or without a user; no other is.
pub proof fn lemma_refused_installations(
    args: InstallArgs,
    host: Host,
    target: Result<SystemServiceTarget, String>,
)
    ensures
        install_refusal(args, host, target) is Some <==> !host.systemctl || (args.system && (
        !host.root || target is Err)),
        host.systemctl && args.system && !host.root ==> (args.system_user matches Some(u)
            ==> install_refusal(args, host, target) == Some(
            "system install requires root. Try:\n  sudo servant service install --system"@
                + (" --system-user "@ + u@),
        )),
        host.systemctl && args.system && host.root ==> (target matches Err(e) ==> install_refusal(
            args,
            host,
            target,
        ) == Some(e@)),
{
}

/// The user's service is installed by saving the configuration, writing the unit file,
/// and having the user's systemd read it and start the service; where the user is
/// known, the service is made to outlive the login; at last the daemon must answer.
pub proof fn lemma_how_the_user_service_is_installed(host: Host)
    requires
        host.home@.len() > 0,
        host.home@.last() != '/',
    ensures
        ({
            let a = user_actions(host);
            let known = host.user@.len() > 0;
            &&& a.len() == if known {
                6int
            } else {
                5
            }
            &&& a[0] == ActionView::UpdateConfig(
                host.home@,
                host.home@ + "/.config/servant/config.toml"@,
            )
            &&& a[1] matches ActionView::WriteUnit(p, unit) && p == host.home@
                + "/.config/systemd/user/servant.service"@ && text::holds(
                unit,
                "\nExecStart="@ + host.exe@ + " daemon\n"@,
            )
            &&& a[2] == ActionView::Systemctl(true, seq!["--user"@, "daemon-reload"@])
            &&& a[3] == ActionView::Systemctl(
                true,
                seq!["--user"@, "enable"@, "--now"@, "servant"@],
            )
            &&& known ==> a[4] == ActionView::EnableLinger(host.user@)
            &&& a.last() == ActionView::CheckHealth("journalctl --user -u servant"@)
        }),
{
    config::lemma_where_files_are(host.home@);
    lemma_unit_runs_the_program(host.exe@);
}

/// A service of the system is installed by saving the user's configuration, giving it
/// to the user, writing the unit file, and having systemd read it and start the service;
/// at last the daemon must answer.
pub proof fn lemma_how_a_system_service_is_installed(exe: Seq<char>, t: SystemServiceTarget)
    requires
        t.home@.len() > 0,
        t.home@.last() != '/',
    ensures
        ({
            let a = system_actions(exe, t);
            let service = "servant-user-"@ + digits(t.uid as nat) + ".service"@;
            &&& a.len() == 6
            &&& a[0] == ActionView::UpdateConfig(
                t.home@,
                t.home@ + "/.config/servant/config.toml"@,
            )
            &&& a[1] matches ActionView::GiveToUser(uid, gid, given) && uid == t.uid && gid == t.gid
                && given.len() == 3 && given[0] == t.home@ + "/.config"@ && given[1] == t.home@
                + "/.config/servant"@ && given[2] == t.home@ + "/.config/servant/config.toml"@
            &&& a[2] matches ActionView::WriteUnit(p, unit) && p
                == "/etc/systemd/system/servant-user-"@ + digits(t.uid as nat) + ".service"@
                && text::holds(unit, "\nUser="@ + t.user@ + "\n"@) && text::holds(
                unit,
                "\nExecStart="@ + exe + " daemon\n"@,
            )
            &&& a[3] == ActionView::Systemctl(false, seq!["daemon-reload"@])
            &&& a[4] == ActionView::Systemctl(false, seq!["enable"@, "--now"@, service])
            &&& a[5] == ActionView::CheckHealth("journalctl -u "@ + service)
        }),
{
    config::lemma_where_files_are(t.home@);
    lemma_service_is_named_after_the_user(t.uid);
    lemma_system_unit_runs_as_the_user(exe, t);
    reveal_strlit(".config");
    reveal_strlit("/.config");
    assert(join_view(t.home@, ".config"@) =~= t.home@ + "/.config"@);
}

/// Arguments stand one behind the other with one space between.
pub proof fn lemma_spaced(args: Seq<Seq<char>>, last: Seq<char>)
    ensures
        spaced(Seq::empty()) == Seq::<char>::empty(),
        spaced(seq![last]) == last,
        args.len() > 0 ==> spaced(args.push(last)) == spaced(args) + seq![' '] + last,
{
    reveal_strlit(" ");
    assert(" "@ =~= seq![' ']);
    assert(args.push(last).drop_last() =~= args);
}

/// What a command printed is reported under its name without the white space around
/// it, and white space alone is not.
pub proof fn lemma_printed(name: Seq<char>, a: Seq<char>, s: Seq<char>, b: Seq<char>)
    requires
        forall|i: int| 0 <= i < a.len() ==> text::is_space(#[trigger] a[i]),
        forall|i: int| 0 <= i < b.len() ==> text::is_space(#[trigger] b[i]),
        s.len() > 0,
        !text::is_space(s[0]),
        !text::is_space(s.last()),
    ensures
        printed(name, a + s + b) == name + seq![':', '\n'] + s + seq!['\n'],
        printed(name, a + b).len() == 0,
{
    let none = Seq::<char>::empty();
    reveal_strlit("");
    reveal_strlit(":\n");
    reveal_strlit("\n");
    assert(":\n"@ =~= seq![':', '\n']);
    assert("\n"@ =~= seq!['\n']);
    text::lemma_trimmed_around(a, s, b);
    text::lemma_trimmed_around(a, none, b);
    assert(a + none + b =~= a + b);
}

/// What is printed of an installation names its mode, its unit, its program and the
/// address, and for a service of the system its name, user and home folder.
pub proof fn lemma_what_an_installation_prints(
    mode: Seq<char>,
    unit: Seq<char>,
    exe: Seq<char>,
    target: Option<SystemServiceTarget>,
    cfg: Config,
)
    ensures
        ({
            let l = success_lines(mode, unit, exe, target, cfg);
            let n = l.len() as int;
            &&& n == if target is Some {
                9int
            } else {
                6
            }
            &&& text::has_suffix(l[1], mode)
            &&& target matches Some(t) ==> text::has_suffix(
                l[2],
                "servant-user-"@ + digits(t.uid as nat) + ".service"@,
            ) && text::has_suffix(l[3], t.user@) && text::has_suffix(l[4], t.home@)
            &&& text::has_suffix(l[n - 4], unit)
            &&& text::has_suffix(l[n - 3], exe)
            &&& text::has_suffix(l[n - 2], cfg.bind@ + ":"@ + digits(cfg.port as nat))
        }),
{
    let l = success_lines(mode, unit, exe, target, cfg);
    let n = l.len() as int;
    assert(l[1].skip(l[1].len() - mode.len()) =~= mode);
    assert(l[n - 4].skip(l[n - 4].len() - unit.len()) =~= unit);
    assert(l[n - 3].skip(l[n - 3].len() - exe.len()) =~= exe);
    let address = cfg.bind@ + ":"@ + digits(cfg.port as nat);
    assert(l[n - 2].skip(l[n - 2].len() - address.len()) =~= address);
    if target is Some {
        let t = target->0;
        let service = service_of(t.uid);
        assert(l[2].skip(l[2].len() - service.len()) =~= service);
        assert(l[3].skip(l[3].len() - t.user@.len()) =~= t.user@);
        assert(l[4].skip(l[4].len() - t.home@.len()) =~= t.home@);
    }
}

} // verus!
