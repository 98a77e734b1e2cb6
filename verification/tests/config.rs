//! The configuration, the program's files and the host's name.

use servant::config::{
    config_dir, config_file_path, home_dir, state_dir, systemd_unit_path, Config, ConfigFile,
    DEFAULT_BIND, DEFAULT_PORT,
};
use servant::host::{hostname_output, remembered_public_host, resolve_public_host};
use servant::ttl::{Duration, Ttl};

fn file(port: Option<u16>, bind: Option<&str>, ttl: Option<&str>, host: Option<&str>) -> ConfigFile {
    ConfigFile {
        port,
        bind: bind.map(|s| s.to_string()),
        default_ttl: ttl.map(|s| s.to_string()),
        public_host: host.map(|s| s.to_string()),
    }
}

#[test]
fn defaults_when_no_file() {
    let cfg = Config::load(None).unwrap();
    assert_eq!(cfg.port, DEFAULT_PORT);
    assert_eq!(cfg.bind, DEFAULT_BIND);
    assert_eq!(cfg.default_ttl, Ttl::Duration(Duration::from_secs(24 * 3600)));
    assert_eq!(cfg.public_host, None);
    assert_eq!((DEFAULT_PORT, DEFAULT_BIND), (4769, "0.0.0.0"));
}

#[test]
fn loads_override() {
    let cfg = Config::load(Some(file(Some(5000), Some("127.0.0.1"), Some("1h"), None))).unwrap();
    assert_eq!(cfg.port, 5000);
    assert_eq!(cfg.bind, "127.0.0.1");
    assert_eq!(cfg.default_ttl, Ttl::Duration(Duration::from_secs(3600)));
}

#[test]
fn never_ttl_in_config() {
    let cfg = Config::load(Some(file(None, None, Some("never"), None))).unwrap();
    assert_eq!(cfg.default_ttl, Ttl::Never);
    assert_eq!(cfg.port, DEFAULT_PORT);
}

#[test]
fn bad_lifetime_in_config_is_an_error() {
    assert_eq!(
        Config::load(Some(file(None, None, Some("60"), None))).unwrap_err(),
        "--ttl requires an explicit unit (e.g. 30s, 5m, 2h)"
    );
}

#[test]
fn empty_file_is_as_no_file() {
    let a = Config::load(Some(file(None, None, None, None))).unwrap();
    let b = Config::load(None).unwrap();
    assert_eq!((a.port, a.bind, a.default_ttl), (b.port, b.bind, b.default_ttl));
    assert_eq!(a.public_host, None);
}

#[test]
fn saved_configuration_loads_back() {
    for ttl in [
        Ttl::Never,
        Ttl::Duration(Duration::from_secs(1)),
        Ttl::Duration(Duration::from_millis(90_061_007)),
    ] {
        let cfg = Config {
            port: 1,
            bind: "::".to_string(),
            default_ttl: ttl,
            public_host: Some("h".to_string()),
        };
        let back = Config::load(Some(cfg.to_file())).unwrap();
        assert_eq!(back.port, 1);
        assert_eq!(back.bind, "::");
        assert_eq!(back.default_ttl, ttl);
        assert_eq!(back.public_host.as_deref(), Some("h"));
    }
}

#[test]
fn files_stand_under_the_home_folder() {
    let cfg = Config::default();
    assert_eq!(cfg.state_dir("/h"), "/h/.servant");
    assert_eq!(state_dir("/"), "/.servant");
    assert_eq!(cfg.registry_db_path("/h"), "/h/.servant/registry.db");
    assert_eq!(cfg.control_socket_path("/h"), "/h/.servant/control.sock");
    assert_eq!(cfg.daemon_lock_path("/h"), "/h/.servant/daemon.lock");
    assert_eq!(config_dir("/h"), "/h/.config/servant");
    assert_eq!(config_file_path("/h"), "/h/.config/servant/config.toml");
    assert_eq!(systemd_unit_path("/h"), "/h/.config/systemd/user/servant.service");
    assert_eq!(cfg.clone().listen_address(), "0.0.0.0:4769");
}

#[test]
fn home_folder_of_the_environment_comes_first() {
    assert_eq!(home_dir(Some("/e"), Some("/s")), Ok("/e".to_string()));
    assert_eq!(home_dir(Some(""), Some("/s")), Ok("".to_string()));
    assert_eq!(home_dir(None, Some("/s")), Ok("/s".to_string()));
    assert_eq!(home_dir(None, None), Err("could not resolve home directory".to_string()));
}

#[test]
fn public_host_is_chosen_in_order() {
    let all = |env, cfg, fqdn, short| resolve_public_host(env, cfg, fqdn, short);
    assert_eq!(all(Some(" e "), Some("c"), Some("f.q"), Some("s")), "e");
    assert_eq!(all(Some("  "), Some("\tc\n"), Some("f.q"), Some("s")), "c");
    assert_eq!(all(None, Some(""), Some("f.q"), Some("s")), "f.q");
    assert_eq!(all(None, None, Some("short"), Some("s")), "s");
    assert_eq!(all(None, None, None, Some("")), "localhost");
    assert_eq!(all(None, None, None, None), "localhost");
    assert_eq!(hostname_output(true, "h.example\n").as_deref(), Some("h.example"));
    assert_eq!(hostname_output(true, " \n"), None);
    assert_eq!(hostname_output(false, "h"), None);
}

#[test]
fn first_public_host_stands() {
    let mut kept = None;
    assert_eq!(remembered_public_host(&mut kept, None, Some("c"), None, None), "c");
    assert_eq!(kept.as_deref(), Some("c"));
    assert_eq!(remembered_public_host(&mut kept, Some("e"), Some("d"), None, Some("s")), "c");
    assert_eq!(kept.as_deref(), Some("c"));
}
