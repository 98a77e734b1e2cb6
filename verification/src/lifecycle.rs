//! Starting, stopping and removing the service, and showing its log: the commands
//! that are run for it. The service is the user's unless one of the system is
//! asked for.

use vstd::prelude::*;

use crate::cli::{LifecycleArgs, LogsArgs};
use crate::config;
use crate::config::user_unit_path;
use crate::install;
use crate::install::{service_of, system_unit_view, user_option, SystemServiceTarget};
use crate::text;
use crate::text::{digits, views};

verus! {

/// The service of the system that a command is for, or why it is not known: one who
/// is not root must name the user. `target` is what became of looking the user up.
pub open spec fn lifecycle_target(
    system_user: Option<String>,
    root: bool,
    target: Result<SystemServiceTarget, String>,
) -> Result<SystemServiceTarget, Seq<char>> {
    if system_user is Some || root {
        match target {
            Ok(t) => Ok(t),
            Err(e) => Err(e@),
        }
    } else {
        Err(
            "--system lifecycle commands need the target user. Try:\n  sudo servant service <command> --system\nor:\n  servant service <command> --system --system-user $USER"@,
        )
    }
}

/// The service of the system that a command is for.
pub fn resolve_lifecycle_system_target<'a>(
    system_user: &Option<String>,
    root: bool,
    target: &'a Result<SystemServiceTarget, String>,
) -> (r: Result<&'a SystemServiceTarget, String>)
    ensures
        match lifecycle_target(*system_user, root, *target) {
            Ok(t) => r matches Ok(x) && *x == t,
            Err(m) => r matches Err(e) && e@ == m,
        },
{
    if system_user.is_some() || root {
        match target {
            Ok(t) => Ok(t),
            Err(e) => Err(e.clone()),
        }
    } else {
        Err(
            text::owned(
                "--system lifecycle commands need the target user. Try:\n  sudo servant service <command> --system\nor:\n  servant service <command> --system --system-user $USER",
            ),
        )
    }
}

/// What is said where there is no `systemctl`.
pub open spec fn no_systemctl() -> Seq<char> {
    "systemd not available; servant requires Linux with systemd"@
}

/// The arguments of `systemctl` for a command on the service, or why there are none.
pub open spec fn systemctl_args(
    verb: Seq<char>,
    args: LifecycleArgs,
    systemctl: bool,
    root: bool,
    target: Result<SystemServiceTarget, String>,
) -> Result<Seq<Seq<char>>, Seq<char>> {
    if !systemctl {
        Err(no_systemctl())
    } else if args.system {
        match lifecycle_target(args.system_user, root, target) {
            Ok(t) => Ok(seq![verb, service_of(t.uid)]),
            Err(m) => Err(m),
        }
    } else {
        Ok(seq!["--user"@, verb, "servant"@])
    }
}

/// The view of arguments, or of why there are none.
pub open spec fn args_view(r: Result<Vec<String>, String>) -> Result<Seq<Seq<char>>, Seq<char>> {
    match r {
        Ok(v) => Ok(views(v@)),
        Err(e) => Err(e@),
    }
}

fn manage(
    verb: &str,
    args: &LifecycleArgs,
    systemctl: bool,
    root: bool,
    target: &Result<SystemServiceTarget, String>,
) -> (r: Result<Vec<String>, String>)
    ensures
        args_view(r) == systemctl_args(verb@, *args, systemctl, root, *target),
{
    if !systemctl {
        return Err(text::owned("systemd not available; servant requires Linux with systemd"));
    }
    if args.system {
        match resolve_lifecycle_system_target(&args.system_user, root, target) {
            Err(e) => Err(e),
            Ok(t) => {
                let service: String = t.service_name();
                let out: Vec<String> = install::args_of(&[verb, service.as_str()]);
                proof {
                    assert(views(out@) =~= seq![verb@, service_of(t.uid)]);
                }
                Ok(out)
            },
        }
    } else {
        let out: Vec<String> = install::args_of(&["--user", verb, "servant"]);
        proof {
            assert(views(out@) =~= seq!["--user"@, verb@, "servant"@]);
        }
        Ok(out)
    }
}

/// The arguments of `systemctl` that start the service.
pub fn start(
    args: &LifecycleArgs,
    systemctl: bool,
    root: bool,
    target: &Result<SystemServiceTarget, String>,
) -> (r: Result<Vec<String>, String>)
    ensures
        args_view(r) == systemctl_args("start"@, *args, systemctl, root, *target),
{
    manage("start", args, systemctl, root, target)
}

/// The arguments of `systemctl` that stop the service.
pub fn stop(
    args: &LifecycleArgs,
    systemctl: bool,
    root: bool,
    target: &Result<SystemServiceTarget, String>,
) -> (r: Result<Vec<String>, String>)
    ensures
        args_view(r) == systemctl_args("stop"@, *args, systemctl, root, *target),
{
    manage("stop", args, systemctl, root, target)
}

/// The arguments of `systemctl` that restart the service.
pub fn restart(
    args: &LifecycleArgs,
    systemctl: bool,
    root: bool,
    target: &Result<SystemServiceTarget, String>,
) -> (r: Result<Vec<String>, String>)
    ensures
        args_view(r) == systemctl_args("restart"@, *args, systemctl, root, *target),
{
    manage("restart", args, systemctl, root, target)
}

/// The exit code of a command: its own, and `1` where a signal ended it.
pub fn command_exit_code(code: Option<i32>) -> (r: i32)
    ensures
        r == match code {
            Some(c) => c,
            None => 1,
        },
{
    match code {
        Some(c) => c,
        None => 1,
    }
}

/// How the service is removed. The failures of its steps do not count.
#[derive(Debug)]
pub struct Removal {
    /// The arguments of `systemctl` that stop and disable the service.
    pub disable: Vec<String>,
    /// The unit file to be removed.
    pub unit: String,
    /// The arguments of `systemctl` that make it forget the unit.
    pub reload: Vec<String>,
    /// What is printed then.
    pub message: String,
}

/// Why the service is not removed, where it is not.
pub open spec fn uninstall_refusal(
    args: LifecycleArgs,
    systemctl: bool,
    root: bool,
    target: Result<SystemServiceTarget, String>,
) -> Option<Seq<char>> {
    if !systemctl {
        Some(no_systemctl())
    } else if args.system {
        match lifecycle_target(args.system_user, root, target) {
            Err(m) => Some(m),
            Ok(_) => if root {
                None
            } else {
                Some(
                    "system uninstall requires root. Try:\n  sudo servant service uninstall --system"@
                        + user_option(args.system_user),
                )
            },
        }
    } else {
        None
    }
}

/// How the service of the user with that home folder, or of the system, is removed.
pub open spec fn removes(r: Removal, args: LifecycleArgs, home: Seq<char>, t: SystemServiceTarget) -> bool {
    if args.system {
        &&& views(r.disable@) == seq!["disable"@, "--now"@, service_of(t.uid)]
        &&& r.unit@ == system_unit_view(t.uid)
        &&& views(r.reload@) == seq!["daemon-reload"@]
        &&& r.message@
            == "✓ servant system service uninstalled (kept ~/.servant/registry.db and ~/.config/servant/config.toml for user "@
            + t.user@ + ")"@
    } else {
        &&& views(r.disable@) == seq!["--user"@, "disable"@, "--now"@, "servant"@]
        &&& r.unit@ == user_unit_path(home)
        &&& views(r.reload@) == seq!["--user"@, "daemon-reload"@]
        &&& r.message@
            == "✓ servant uninstalled (kept ~/.servant/registry.db and ~/.config/servant/config.toml)"@
    }
}

/// How the service is removed, or why it is not. The registry and the configuration
/// are kept.
pub fn uninstall(
    args: &LifecycleArgs,
    systemctl: bool,
    root: bool,
    home: &str,
    target: &Result<SystemServiceTarget, String>,
) -> (r: Result<Removal, String>)
    ensures
        match uninstall_refusal(*args, systemctl, root, *target) {
            Some(m) => r matches Err(e) && e@ == m,
            None => r matches Ok(x) && removes(x, *args, home@, target->Ok_0),
        },
{
    if !systemctl {
        return Err(text::owned("systemd not available; servant requires Linux with systemd"));
    }
    if !args.system {
        let disable: Vec<String> = install::args_of(&["--user", "disable", "--now", "servant"]);
        let reload: Vec<String> = install::args_of(&["--user", "daemon-reload"]);
        proof {
            assert(views(disable@) =~= seq!["--user"@, "disable"@, "--now"@, "servant"@]);
            assert(views(reload@) =~= seq!["--user"@, "daemon-reload"@]);
        }
        return Ok(
            Removal {
                disable,
                unit: config::systemd_unit_path(home),
                reload,
                message: text::owned(
                    "✓ servant uninstalled (kept ~/.servant/registry.db and ~/.config/servant/config.toml)",
                ),
            },
        );
    }
    let t: &SystemServiceTarget = match resolve_lifecycle_system_target(
        &args.system_user,
        root,
        target,
    ) {
        Err(e) => {
            return Err(e);
        },
        Ok(t) => t,
    };
    if !root {
        let option: String = install::repeat_user(&args.system_user);
        return Err(
            text::joined(
                "system uninstall requires root. Try:\n  sudo servant service uninstall --system",
                option.as_str(),
            ),
        );
    }
    let service: String = t.service_name();
    let disable: Vec<String> = install::args_of(&["disable", "--now", service.as_str()]);
    let reload: Vec<String> = install::args_of(&["daemon-reload"]);
    proof {
        assert(views(disable@) =~= seq!["disable"@, "--now"@, service_of(t.uid)]);
        assert(views(reload@) =~= seq!["daemon-reload"@]);
    }
    Ok(
        Removal {
            disable,
            unit: install::system_unit_path(t),
            reload,
            message: text::joined3(
                "✓ servant system service uninstalled (kept ~/.servant/registry.db and ~/.config/servant/config.toml for user ",
                t.user.as_str(),
                ")",
            ),
        },
    )
}

/// The arguments of `journalctl` that show the log, or why there are none.
pub open spec fn journalctl_args(
    args: LogsArgs,
    journalctl: bool,
    root: bool,
    target: Result<SystemServiceTarget, String>,
) -> Result<Seq<Seq<char>>, Seq<char>> {
    let follow = if args.follow {
        seq!["-f"@]
    } else {
        Seq::empty()
    };
    let lines = match args.lines {
        None => Seq::<Seq<char>>::empty(),
        Some(n) => seq!["-n"@, digits(n as nat)],
    };
    if !journalctl {
        Err("journalctl not available"@)
    } else if args.system {
        match lifecycle_target(args.system_user, root, target) {
            Err(m) => Err(m),
            Ok(t) => Ok(seq!["-u"@, service_of(t.uid)] + follow + lines),
        }
    } else {
        Ok(seq!["--user-unit"@, "servant"@] + follow + lines)
    }
}

/// The arguments of `journalctl` that show the service's log.
pub fn logs(
    args: &LogsArgs,
    journalctl: bool,
    root: bool,
    target: &Result<SystemServiceTarget, String>,
) -> (r: Result<Vec<String>, String>)
    ensures
        args_view(r) == journalctl_args(*args, journalctl, root, *target),
{
    if !journalctl {
        return Err(text::owned("journalctl not available"));
    }
    let mut out: Vec<String> = Vec::new();
    if args.system {
        match resolve_lifecycle_system_target(&args.system_user, root, target) {
            Err(e) => {
                return Err(e);
            },
            Ok(t) => {
                out.push(text::owned("-u"));
                out.push(t.service_name());
            },
        }
    } else {
        out.push(text::owned("--user-unit"));
        out.push(text::owned("servant"));
    }
    if args.follow {
        out.push(text::owned("-f"));
    }
    match args.lines {
        None => {},
        Some(n) => {
            out.push(text::owned("-n"));
            out.push(text::decimal(n as u64));
        },
    }
    proof {
        let expected = journalctl_args(*args, journalctl, root, *target);
        assert(expected is Ok);
        assert(views(out@) =~= expected->Ok_0);
    }
    Ok(out)
}

// ---------------------------------------------------------------------------
// What the commands are
// ---------------------------------------------------------------------------

/// A command on the user's service is run for `servant` under the user's systemd, and
/// one on a service of the system for the service named after the user id.
pub proof fn lemma_what_systemctl_is_asked(
    verb: Seq<char>,
    args: LifecycleArgs,
    root: bool,
    t: SystemServiceTarget,
    target: Result<SystemServiceTarget, String>,
)
    ensures
        !args.system ==> systemctl_args(verb, args, true, root, target) == Ok::<
            Seq<Seq<char>>,
            Seq<char>,
        >(seq!["--user"@, verb, "servant"@]),
        args.system && (args.system_user is Some || root) ==> systemctl_args(
            verb,
            args,
            true,
            root,
            Ok(t),
        ) == Ok::<Seq<Seq<char>>, Seq<char>>(
            seq![verb, "servant-user-"@ + digits(t.uid as nat) + ".service"@],
        ),
        systemctl_args(verb, args, false, root, target) is Err,
        args.system && args.system_user is None && !root ==> systemctl_args(
            verb,
            args,
            true,
            root,
            target,
        ) is Err,
        args.system && (args.system_user is Some || root) ==> (target matches Err(e)
            ==> systemctl_args(verb, args, true, root, target) == Err::<Seq<Seq<char>>, Seq<char>>(
            e@,
        )),
{
}

/// The log that is shown is that of the same service; it is followed where that is
/// asked for, and cut to the lines that are asked for.
pub proof fn lemma_what_journalctl_is_asked(
    args: LogsArgs,
    root: bool,
    t: SystemServiceTarget,
    lines: u32,
)
    ensures
        ({
            let r = journalctl_args(args, true, root, Ok(t));
            let unit = if args.system {
                seq!["-u"@, "servant-user-"@ + digits(t.uid as nat) + ".service"@]
            } else {
                seq!["--user-unit"@, "servant"@]
            };
            !args.system || args.system_user is Some || root ==> {
                &&& !args.follow && args.lines is None ==> r == Ok::<Seq<Seq<char>>, Seq<char>>(
                    unit,
                )
                &&& args.follow && args.lines is None ==> r == Ok::<Seq<Seq<char>>, Seq<char>>(
                    unit.push("-f"@),
                )
                &&& !args.follow && args.lines == Some(lines) ==> r == Ok::<
                    Seq<Seq<char>>,
                    Seq<char>,
                >(unit.push("-n"@).push(digits(lines as nat)))
                &&& args.follow && args.lines == Some(lines) ==> r == Ok::<
                    Seq<Seq<char>>,
                    Seq<char>,
                >(unit.push("-f"@).push("-n"@).push(digits(lines as nat)))
            }
        }),
        journalctl_args(args, false, root, Ok(t)) is Err,
        args.system && args.system_user is None && !root ==> journalctl_args(
            args,
            true,
            root,
            Ok(t),
        ) is Err,
{
    let r = journalctl_args(args, true, root, Ok(t));
    let unit = if args.system {
        seq!["-u"@, "servant-user-"@ + digits(t.uid as nat) + ".service"@]
    } else {
        seq!["--user-unit"@, "servant"@]
    };
    if !args.system || args.system_user is Some || root {
        let v = r->Ok_0;
        if !args.follow && args.lines is None {
            assert(v =~= unit);
        }
        if args.follow && args.lines is None {
            assert(v =~= unit.push("-f"@));
        }
        if !args.follow && args.lines == Some(lines) {
            assert(v =~= unit.push("-n"@).push(digits(lines as nat)));
        }
        if args.follow && args.lines == Some(lines) {
            assert(v =~= unit.push("-f"@).push("-n"@).push(digits(lines as nat)));
        }
    }
}

/// A removal is refused without `systemctl`, and one of a service of the system also
/// where its user is not known or the command does not run as root; no other is.
pub proof fn lemma_refused_removals(
    args: LifecycleArgs,
    systemctl: bool,
    root: bool,
    target: Result<SystemServiceTarget, String>,
)
    ensures
        uninstall_refusal(args, systemctl, root, target) is Some <==> !systemctl || (args.system && (
        !root || target is Err)),
{
}

/// The service that is removed is the one that was installed: the same unit file, and
/// the same name.
pub proof fn lemma_what_was_installed_is_removed(
    r: Removal,
    args: LifecycleArgs,
    home: Seq<char>,
    t: SystemServiceTarget,
)
    requires
        removes(r, args, home, t),
        home.len() > 0,
        home.last() != '/',
    ensures
        !args.system ==> {
            &&& r.unit@ == home + "/.config/systemd/user/servant.service"@
            &&& views(r.disable@) == seq!["--user"@, "disable"@, "--now"@, "servant"@]
            &&& views(r.reload@) == seq!["--user"@, "daemon-reload"@]
        },
        args.system ==> {
            let service = "servant-user-"@ + digits(t.uid as nat) + ".service"@;
            &&& r.unit@ == "/etc/systemd/system/"@ + service
            &&& views(r.disable@) == seq!["disable"@, "--now"@, service]
            &&& views(r.reload@) == seq!["daemon-reload"@]
            &&& text::holds(r.message@, t.user@)
        },
{
    config::lemma_where_files_are(home);
    install::lemma_service_is_named_after_the_user(t.uid);
    if args.system {
        let service = "servant-user-"@ + digits(t.uid as nat) + ".service"@;
        reveal_strlit("servant-user-");
        reveal_strlit("/etc/systemd/system/");
        reveal_strlit("/etc/systemd/system/servant-user-");
        assert(r.unit@ =~= "/etc/systemd/system/"@ + service);
        text::lemma_holds(
            "✓ servant system service uninstalled (kept ~/.servant/registry.db and ~/.config/servant/config.toml for user "@,
            t.user@,
            ")"@,
        );
    }
}

} // verus!
