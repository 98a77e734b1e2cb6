//! Installing and managing the service.

use servant::cli::{InstallArgs, LifecycleArgs, LogsArgs};
use servant::config::Config;
use servant::install::{
    apply_install_overrides, health_failure, linger_note, no_such_user, print_install_success,
    render_system_unit, render_unit, resolve_system_service_target, run_install,
    run_systemctl_failure, space_out, system_service_name, system_unit_path, target_user,
    user_systemctl_failure, user_systemd_unavailable, Account, Action, Host, SystemServiceTarget,
};
use servant::lifecycle::{
    command_exit_code, logs, resolve_lifecycle_system_target, restart, start, stop, uninstall,
};

fn alice() -> SystemServiceTarget {
    SystemServiceTarget {
        user: "alice".to_string(),
        uid: 1001,
        gid: 1001,
        group: "alice".to_string(),
        home: "/home/alice".to_string(),
    }
}

fn host(systemctl: bool, root: bool, user: &str) -> Host {
    Host {
        systemctl,
        root,
        exe: "/usr/bin/servant".to_string(),
        home: "/home/bob".to_string(),
        user: user.to_string(),
    }
}

fn install_args(system: bool, system_user: Option<&str>) -> InstallArgs {
    InstallArgs {
        port: None,
        bind: None,
        system,
        system_user: system_user.map(|s| s.to_string()),
        json: false,
    }
}

fn manage_args(system: bool, system_user: Option<&str>) -> LifecycleArgs {
    LifecycleArgs {
        system,
        system_user: system_user.map(|s| s.to_string()),
    }
}

fn nobody() -> Result<SystemServiceTarget, String> {
    Err("no target".to_string())
}

#[test]
fn unit_file_renders() {
    let out = render_unit("/usr/local/bin/servant");
    assert!(out.contains("ExecStart=/usr/local/bin/servant daemon"));
    assert!(out.contains("WantedBy=default.target"));
    assert!(out.contains("Restart=on-failure"));
    assert!(out.contains("After=network.target"));
}

#[test]
fn system_unit_file_runs_as_target_user() {
    let target = alice();
    let out = render_system_unit("/usr/local/bin/servant", &target);
    assert!(out.contains("Description=Servant — local static file server for alice"));
    assert!(out.contains("User=alice"));
    assert!(out.contains("Group=alice"));
    assert!(out.contains("Environment=HOME=/home/alice"));
    assert!(out.contains("ExecStart=/usr/local/bin/servant daemon"));
    assert!(out.contains("WantedBy=multi-user.target"));
}

#[test]
fn system_service_name_is_uid_scoped() {
    assert_eq!(system_service_name(1001), "servant-user-1001.service");
    assert_eq!(alice().service_name(), "servant-user-1001.service");
    assert_eq!(
        system_unit_path(&alice()),
        "/etc/systemd/system/servant-user-1001.service"
    );
}

#[test]
fn unit_files_in_full() {
    assert_eq!(
        render_unit("/bin/servant"),
        "[Unit]\n\
         Description=Servant — local static file server\n\
         After=network.target\n\
         \n\
         [Service]\n\
         Type=simple\n\
         ExecStart=/bin/servant daemon\n\
         Restart=on-failure\n\
         RestartSec=2s\n\
         \n\
         [Install]\n\
         WantedBy=default.target\n"
    );
    assert_eq!(
        render_system_unit("/bin/servant", &alice()),
        "[Unit]\n\
         Description=Servant — local static file server for alice\n\
         After=network-online.target\n\
         Wants=network-online.target\n\
         \n\
         [Service]\n\
         Type=simple\n\
         User=alice\n\
         Group=alice\n\
         Environment=HOME=/home/alice\n\
         Environment=USER=alice\n\
         WorkingDirectory=/home/alice\n\
         ExecStart=/bin/servant daemon\n\
         Restart=on-failure\n\
         RestartSec=2s\n\
         \n\
         [Install]\n\
         WantedBy=multi-user.target\n"
    );
}

#[test]
fn target_user_is_named_or_called_sudo() {
    assert_eq!(target_user(Some("carol"), Some("bob")), Ok("carol".to_string()));
    assert_eq!(target_user(None, Some("bob")), Ok("bob".to_string()));
    let unknown = "could not determine which user the system service should run as. Re-run via \
                   sudo from your user account, or pass --system-user NAME";
    for sudo in [None, Some(""), Some("root")] {
        assert_eq!(target_user(None, sudo), Err(unknown.to_string()));
    }
}

#[test]
fn target_is_never_root() {
    let account = |uid: u32, group: Option<&str>| Account {
        name: "alice".to_string(),
        uid,
        gid: 77,
        group: group.map(|g| g.to_string()),
        home: "/home/alice".to_string(),
    };
    let t = resolve_system_service_target("alice", Some(account(5, Some("staff")))).unwrap();
    assert_eq!((t.uid, t.gid, t.group.as_str()), (5, 77, "staff"));
    assert_eq!((t.user.as_str(), t.home.as_str()), ("alice", "/home/alice"));
    let t = resolve_system_service_target("alice", Some(account(5, None))).unwrap();
    assert_eq!(t.group, "77");
    assert_eq!(
        resolve_system_service_target("root", Some(account(0, None))).unwrap_err(),
        "refusing to install servant system service that runs as root"
    );
    assert_eq!(
        resolve_system_service_target("a\"b", None).unwrap_err(),
        "target user \"a\\\"b\" does not exist"
    );
    assert_eq!(no_such_user("x"), "target user x does not exist");
}

#[test]
fn command_line_overrides_the_configuration() {
    let mut cfg = Config::default();
    apply_install_overrides(&mut cfg, &install_args(false, None));
    assert_eq!((cfg.port, cfg.bind.as_str()), (4769, "0.0.0.0"));
    let mut args = install_args(false, None);
    args.port = Some(80);
    args.bind = Some("::1".to_string());
    apply_install_overrides(&mut cfg, &args);
    assert_eq!((cfg.port, cfg.bind.as_str()), (80, "::1"));
}

#[test]
fn user_service_is_installed() {
    let actions =
        run_install(&install_args(false, None), &host(true, false, "bob"), &nobody()).unwrap();
    assert_eq!(actions.len(), 6);
    assert!(matches!(&actions[0], Action::UpdateConfig { home, path }
        if home == "/home/bob" && path == "/home/bob/.config/servant/config.toml"));
    assert!(matches!(&actions[1], Action::WriteUnit { path, text }
        if path == "/home/bob/.config/systemd/user/servant.service"
            && *text == render_unit("/usr/bin/servant")));
    assert!(matches!(&actions[2], Action::Systemctl { user_service: true, args }
        if space_out(args) == "--user daemon-reload"));
    assert!(matches!(&actions[3], Action::Systemctl { user_service: true, args }
        if space_out(args) == "--user enable --now servant"));
    assert!(matches!(&actions[4], Action::EnableLinger(u) if u == "bob"));
    assert!(matches!(&actions[5], Action::CheckHealth(l) if l == "journalctl --user -u servant"));
    // Nobody's services are to outlive the login.
    let actions =
        run_install(&install_args(false, None), &host(true, false, ""), &nobody()).unwrap();
    assert_eq!(actions.len(), 5);
}

#[test]
fn system_service_is_installed() {
    let actions =
        run_install(&install_args(true, None), &host(true, true, "root"), &Ok(alice())).unwrap();
    assert_eq!(actions.len(), 6);
    assert!(matches!(&actions[0], Action::UpdateConfig { home, path }
        if home == "/home/alice" && path == "/home/alice/.config/servant/config.toml"));
    assert!(matches!(&actions[1], Action::GiveToUser { uid: 1001, gid: 1001, paths }
        if space_out(paths) == "/home/alice/.config /home/alice/.config/servant \
            /home/alice/.config/servant/config.toml"));
    assert!(matches!(&actions[2], Action::WriteUnit { path, text }
        if *path == system_unit_path(&alice())
            && *text == render_system_unit("/usr/bin/servant", &alice())));
    assert!(matches!(&actions[3], Action::Systemctl { user_service: false, args }
        if space_out(args) == "daemon-reload"));
    assert!(matches!(&actions[4], Action::Systemctl { user_service: false, args }
        if space_out(args) == "enable --now servant-user-1001.service"));
    assert!(matches!(&actions[5], Action::CheckHealth(l)
        if l == "journalctl -u servant-user-1001.service"));
}

#[test]
fn installations_are_refused() {
    let refused = |args: InstallArgs, h: Host, t: Result<SystemServiceTarget, String>| {
        run_install(&args, &h, &t).unwrap_err()
    };
    assert_eq!(
        refused(install_args(false, None), host(false, false, ""), nobody()),
        "systemd not available: systemctl was not found in PATH. servant service install \
         requires Linux with systemd."
    );
    assert_eq!(
        refused(install_args(true, None), host(false, true, ""), nobody()),
        "systemd not available: systemctl was not found in PATH"
    );
    assert_eq!(
        refused(install_args(true, None), host(true, false, ""), Ok(alice())),
        "system install requires root. Try:\n  sudo servant service install --system"
    );
    assert_eq!(
        refused(install_args(true, Some("al")), host(true, false, ""), Ok(alice())),
        "system install requires root. Try:\n  sudo servant service install --system --system-user al"
    );
    assert_eq!(
        refused(install_args(true, None), host(true, true, ""), nobody()),
        "no target"
    );
}

#[test]
fn failures_of_commands_are_explained() {
    let args = vec!["--user".to_string(), "daemon-reload".to_string()];
    assert_eq!(
        user_systemctl_failure(&args, "exit status: 1", " out \n", "\n"),
        "systemctl --user daemon-reload exited exit status: 1\nstdout:\nout\n"
    );
    assert_eq!(
        user_systemctl_failure(&args, "x", "", "bad\n"),
        "systemctl --user daemon-reload exited x\nstderr:\nbad\n"
    );
    assert_eq!(
        run_systemctl_failure(&args, "exit status: 4"),
        "systemctl --user daemon-reload exited exit status: 4"
    );
    assert_eq!(space_out(&Vec::new()), "");
    assert_eq!(
        user_systemd_unavailable("why"),
        "systemd user services are unavailable or failed on this host.\n\nwhy\n\n\
         Try the explicit system-service fallback instead:\n  sudo servant service install --system\n\n\
         This writes a root-owned systemd unit, but runs the servant daemon as your user."
    );
    assert_eq!(
        linger_note("bob"),
        "note: could not enable linger (loginctl enable-linger bob failed).\n\
         the daemon will exit on logout. run as root:\n  sudo loginctl enable-linger bob"
    );
    assert_eq!(
        health_failure("journalctl"),
        "service started but /health did not respond; check `journalctl`"
    );
}

#[test]
fn success_is_reported() {
    let cfg = Config::default();
    assert_eq!(
        print_install_success("user", "/u", "/e", &None, &cfg),
        vec![
            "✓ servant installed",
            "  mode:    user",
            "  unit:    /u",
            "  binary:  /e",
            "  bind:    0.0.0.0:4769",
            "  status:  running",
        ]
    );
    assert_eq!(
        print_install_success("system", "/u", "/e", &Some(alice()), &cfg)[1..5].to_vec(),
        vec![
            "  mode:    system",
            "  service: servant-user-1001.service",
            "  user:    alice",
            "  home:    /home/alice",
        ]
    );
}

#[test]
fn service_is_managed_through_systemctl() {
    let user = manage_args(false, None);
    let line = |r: Result<Vec<String>, String>| r.map(|v| space_out(&v));
    let ok = |s: &str| Ok(s.to_string());
    assert_eq!(line(start(&user, true, false, &nobody())), ok("--user start servant"));
    assert_eq!(line(stop(&user, true, false, &nobody())), ok("--user stop servant"));
    assert_eq!(line(restart(&user, true, false, &nobody())), ok("--user restart servant"));
    let system = manage_args(true, Some("alice"));
    assert_eq!(
        line(start(&system, true, false, &Ok(alice()))),
        ok("start servant-user-1001.service")
    );
    assert_eq!(
        line(stop(&manage_args(true, None), true, true, &Ok(alice()))),
        ok("stop servant-user-1001.service")
    );
    assert_eq!(
        line(start(&user, false, false, &nobody())),
        Err("systemd not available; servant requires Linux with systemd".to_string())
    );
    assert_eq!(
        line(restart(&manage_args(true, None), true, true, &nobody())),
        Err("no target".to_string())
    );
    assert_eq!(
        resolve_lifecycle_system_target(&None, false, &Ok(alice())).unwrap_err(),
        "--system lifecycle commands need the target user. Try:\n  sudo servant service <command> \
         --system\nor:\n  servant service <command> --system --system-user $USER"
    );
    assert_eq!(command_exit_code(Some(3)), 3);
    assert_eq!(command_exit_code(None), 1);
}

#[test]
fn service_is_removed() {
    let r = uninstall(&manage_args(false, None), true, false, "/home/bob", &nobody()).unwrap();
    assert_eq!(space_out(&r.disable), "--user disable --now servant");
    assert_eq!(r.unit, "/home/bob/.config/systemd/user/servant.service");
    assert_eq!(space_out(&r.reload), "--user daemon-reload");
    assert_eq!(
        r.message,
        "✓ servant uninstalled (kept ~/.servant/registry.db and ~/.config/servant/config.toml)"
    );
    let r = uninstall(&manage_args(true, None), true, true, "/root", &Ok(alice())).unwrap();
    assert_eq!(space_out(&r.disable), "disable --now servant-user-1001.service");
    assert_eq!(r.unit, system_unit_path(&alice()));
    assert_eq!(space_out(&r.reload), "daemon-reload");
    assert_eq!(
        r.message,
        "✓ servant system service uninstalled (kept ~/.servant/registry.db and \
         ~/.config/servant/config.toml for user alice)"
    );
    let e = uninstall(&manage_args(true, Some("alice")), true, false, "/", &Ok(alice()));
    assert_eq!(
        e.unwrap_err(),
        "system uninstall requires root. Try:\n  sudo servant service uninstall --system \
         --system-user alice"
    );
    assert!(uninstall(&manage_args(false, None), false, false, "/", &nobody()).is_err());
}

#[test]
fn log_is_shown() {
    let args = |follow: bool, lines: Option<u32>, system: bool| LogsArgs {
        follow,
        lines,
        system,
        system_user: None,
    };
    let line = |r: Result<Vec<String>, String>| r.map(|v| space_out(&v));
    assert_eq!(
        line(logs(&args(false, None, false), true, false, &nobody())),
        Ok("--user-unit servant".to_string())
    );
    assert_eq!(
        line(logs(&args(true, Some(20), false), true, false, &nobody())),
        Ok("--user-unit servant -f -n 20".to_string())
    );
    assert_eq!(
        line(logs(&args(true, None, true), true, true, &Ok(alice()))),
        Ok("-u servant-user-1001.service -f".to_string())
    );
    assert_eq!(
        line(logs(&args(true, None, false), false, true, &nobody())),
        Err("journalctl not available".to_string())
    );
}
