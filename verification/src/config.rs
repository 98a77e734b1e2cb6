//! The configuration, and where the program keeps its files.
//!
//! State lives in `~/.servant/` and the configuration in `~/.config/servant/`.

use vstd::prelude::*;

use crate::db::opt_view;
use crate::paths;
use crate::paths::{join_view, opt_str_view};
use crate::text;
use crate::text::trimmed;
use crate::ttl;
use crate::ttl::{humantime_duration, ttl_reading, Duration, Ttl};

verus! {

/// The port of the serving plane.
pub const DEFAULT_PORT: u16 = 4769;

/// The address of the serving plane.
pub const DEFAULT_BIND: &'static str = "0.0.0.0";

/// The lifetime of a registration in seconds where none is asked for: a day.
pub const DEFAULT_TTL_SECS: u64 = 86_400;

/// How the daemon runs.
#[derive(Debug)]
pub struct Config {
    pub port: u16,
    pub bind: String,
    pub default_ttl: Ttl,
    pub public_host: Option<String>,
}

/// What a configuration file says.
#[derive(Debug)]
pub struct ConfigFile {
    pub port: Option<u16>,
    pub bind: Option<String>,
    pub default_ttl: Option<String>,
    pub public_host: Option<String>,
}

/// The lifetime of a registration where none is asked for.
pub open spec fn usual_ttl() -> Ttl {
    Ttl::Duration(Duration { secs: DEFAULT_TTL_SECS, nanos: 0 })
}

/// The lifetime of a registration where none is asked for.
pub fn default_ttl() -> (r: Ttl)
    ensures
        r == usual_ttl(),
{
    Ttl::Duration(Duration::from_secs(DEFAULT_TTL_SECS))
}

impl Clone for Config {
    fn clone(&self) -> (r: Self)
        ensures
            r == *self,
    {
        Config {
            port: self.port,
            bind: self.bind.clone(),
            default_ttl: self.default_ttl,
            public_host: self.public_host.clone(),
        }
    }
}

impl Default for Config {
    fn default() -> (r: Self)
        ensures
            r.port == DEFAULT_PORT,
            r.bind@ == DEFAULT_BIND@,
            r.default_ttl == usual_ttl(),
            r.public_host is None,
    {
        Config {
            port: DEFAULT_PORT,
            bind: text::owned(DEFAULT_BIND),
            default_ttl: default_ttl(),
            public_host: None,
        }
    }
}

/// The lifetime that a configuration file sets, given what the duration in it
/// parses to: the usual one where it sets none.
pub open spec fn file_ttl(f: ConfigFile, parsed: Result<(u64, u32), Seq<char>>) -> Result<
    Ttl,
    Seq<char>,
> {
    match f.default_ttl {
        None => Ok(usual_ttl()),
        Some(t) => ttl_reading(t@, parsed),
    }
}

/// The duration text in a configuration file.
pub open spec fn file_ttl_text(f: ConfigFile) -> Seq<char> {
    match f.default_ttl {
        None => Seq::empty(),
        Some(t) => trimmed(t@),
    }
}

/// `c` is the configuration of a file: what the file does not say is as usual.
pub open spec fn configured(f: ConfigFile, ttl: Ttl, c: Config) -> bool {
    &&& c.port == match f.port {
        None => DEFAULT_PORT,
        Some(p) => p,
    }
    &&& c.bind@ == match f.bind {
        None => DEFAULT_BIND@,
        Some(b) => b@,
    }
    &&& c.default_ttl == ttl
    &&& opt_view(c.public_host) == opt_view(f.public_host)
}

impl Config {
    /// The configuration of a file with a lifetime that has been read from it.
    pub fn with_ttl(f: &ConfigFile, ttl: Ttl) -> (c: Config)
        ensures
            configured(*f, ttl, c),
    {
        Config {
            port: match f.port {
                None => DEFAULT_PORT,
                Some(p) => p,
            },
            bind: match &f.bind {
                None => text::owned(DEFAULT_BIND),
                Some(b) => b.clone(),
            },
            default_ttl: ttl,
            public_host: f.public_host.clone(),
        }
    }

    /// The configuration of a file, the usual one where there is none.
    pub fn load(file: Option<ConfigFile>) -> (res: Result<Config, String>)
        ensures
            match file {
                None => res matches Ok(c) && c.port == DEFAULT_PORT && c.bind@ == DEFAULT_BIND@
                    && c.default_ttl == usual_ttl() && c.public_host is None,
                Some(f) => match file_ttl(f, humantime_duration(file_ttl_text(f))) {
                    Ok(ttl) => res matches Ok(c) && configured(f, ttl, c),
                    Err(e) => res matches Err(m) && m@ == e,
                },
            },
            res matches Ok(c) ==> c.default_ttl.well_formed(),
    {
        let f: ConfigFile = match file {
            None => {
                return Ok(Config::default());
            },
            Some(f) => f,
        };
        let ttl: Ttl = match &f.default_ttl {
            None => default_ttl(),
            Some(t) => match ttl::parse_ttl(t.as_str()) {
                Ok(ttl) => ttl,
                Err(e) => {
                    return Err(e);
                },
            },
        };
        Ok(Config::with_ttl(&f, ttl))
    }

    /// What a file with this configuration says.
    pub fn to_file(&self) -> (f: ConfigFile)
        requires
            self.default_ttl.well_formed(),
        ensures
            f.port == Some(self.port),
            f.bind matches Some(b) && b@ == self.bind@,
            f.default_ttl matches Some(t) && t@ == self.default_ttl.rendering(),
            opt_view(f.public_host) == opt_view(self.public_host),
            // Reading the file gives the configuration back.
            (self.default_ttl matches Ttl::Duration(d) ==> 0 < d.secs)
                ==> file_ttl(
                f,
                humantime_duration(file_ttl_text(f)),
            ) == Ok::<Ttl, Seq<char>>(self.default_ttl) && configured(f, self.default_ttl, *self),
    {
        ConfigFile {
            port: Some(self.port),
            bind: Some(self.bind.clone()),
            default_ttl: Some(self.default_ttl.render()),
            public_host: self.public_host.clone(),
        }
    }

    /// The folder of the daemon's state.
    pub fn state_dir(&self, home: &str) -> (r: String)
        ensures
            r@ == state_path(home@),
    {
        state_dir(home)
    }

    /// The path of the registry.
    pub fn registry_db_path(&self, home: &str) -> (r: String)
        ensures
            r@ == join_view(state_path(home@), "registry.db"@),
    {
        paths::join(self.state_dir(home).as_str(), "registry.db")
    }

    /// The path of the control socket.
    pub fn control_socket_path(&self, home: &str) -> (r: String)
        ensures
            r@ == join_view(state_path(home@), "control.sock"@),
    {
        paths::join(self.state_dir(home).as_str(), "control.sock")
    }

    /// The path of the file that one daemon at a time locks.
    pub fn daemon_lock_path(&self, home: &str) -> (r: String)
        ensures
            r@ == join_view(state_path(home@), "daemon.lock"@),
    {
        paths::join(self.state_dir(home).as_str(), "daemon.lock")
    }

    /// The address that the serving plane listens on.
    pub fn listen_address(&self) -> (r: String)
        ensures
            r@ == self.bind@ + ":"@ + text::digits(self.port as nat),
    {
        let port: String = text::decimal(self.port as u64);
        text::joined3(self.bind.as_str(), ":", port.as_str())
    }
}

/// Two configurations that agree with the same file and lifetime say the same.
pub proof fn lemma_file_decides(f: ConfigFile, ttl: Ttl, a: Config, b: Config)
    requires
        configured(f, ttl, a),
        configured(f, ttl, b),
    ensures
        a.port == b.port,
        a.bind@ == b.bind@,
        a.default_ttl == b.default_ttl,
        opt_view(a.public_host) == opt_view(b.public_host),
{
}

/// The home folder: what the environment says, else what the system says.
pub fn home_dir(env: Option<&str>, system: Option<&str>) -> (r: Result<String, String>)
    ensures
        match r {
            Ok(h) => Some(h@) == if env is Some {
                opt_str_view(env)
            } else {
                opt_str_view(system)
            },
            Err(e) => env is None && system is None && e@ == "could not resolve home directory"@,
        },
{
    match env {
        Some(h) => Ok(text::owned(h)),
        None => match system {
            Some(h) => Ok(text::owned(h)),
            None => Err(text::owned("could not resolve home directory")),
        },
    }
}

/// The folder of the daemon's state.
pub open spec fn state_path(home: Seq<char>) -> Seq<char> {
    join_view(home, ".servant"@)
}

/// The folder of the configuration.
pub open spec fn config_path(home: Seq<char>) -> Seq<char> {
    join_view(join_view(home, ".config"@), "servant"@)
}

/// The folder of the daemon's state.
pub fn state_dir(home: &str) -> (r: String)
    ensures
        r@ == state_path(home@),
{
    paths::join(home, ".servant")
}

/// The folder of the configuration.
pub fn config_dir(home: &str) -> (r: String)
    ensures
        r@ == config_path(home@),
{
    let base: String = paths::join(home, ".config");
    paths::join(base.as_str(), "servant")
}

/// The path of the configuration file.
pub fn config_file_path(home: &str) -> (r: String)
    ensures
        r@ == join_view(config_path(home@), "config.toml"@),
{
    let dir: String = config_dir(home);
    paths::join(dir.as_str(), "config.toml")
}

/// The path of the unit file of the user's service.
pub open spec fn user_unit_path(home: Seq<char>) -> Seq<char> {
    join_view(
        join_view(join_view(join_view(home, ".config"@), "systemd"@), "user"@),
        "servant.service"@,
    )
}

/// The path of the unit file of the user's service.
pub fn systemd_unit_path(home: &str) -> (r: String)
    ensures
        r@ == user_unit_path(home@),
{
    let a: String = paths::join(home, ".config");
    let b: String = paths::join(a.as_str(), "systemd");
    let c: String = paths::join(b.as_str(), "user");
    paths::join(c.as_str(), "servant.service")
}

/// What is usual: the port, the address, and a day's lifetime.
pub proof fn lemma_what_is_usual()
    ensures
        DEFAULT_PORT == 4769,
        DEFAULT_BIND@ == "0.0.0.0"@,
        DEFAULT_TTL_SECS == 24 * 60 * 60,
        usual_ttl() matches Ttl::Duration(d) && d.secs == 24 * 60 * 60 && d.nanos == 0,
{
}

/// What a file says counts, and what it does not say is as usual.
pub proof fn lemma_what_the_file_says_counts(f: ConfigFile, ttl: Ttl, c: Config)
    requires
        configured(f, ttl, c),
    ensures
        f.port matches Some(p) ==> c.port == p,
        f.port is None ==> c.port == 4769,
        f.bind matches Some(b) ==> c.bind@ == b@,
        f.bind is None ==> c.bind@ == "0.0.0.0"@,
        f.public_host matches Some(h) ==> (c.public_host matches Some(g) && g@ == h@),
        f.public_host is None ==> c.public_host is None,
        c.default_ttl == ttl,
{
}

/// The lifetime that a file sets is the one that its text reads as, without the white
/// space around it; where it sets none it is a day.
pub proof fn lemma_lifetime_of_the_file(
    f: ConfigFile,
    t: String,
    parsed: Result<(u64, u32), Seq<char>>,
)
    ensures
        f.default_ttl is None ==> (file_ttl(f, parsed) matches Ok(Ttl::Duration(d)) && d.secs
            == 86_400 && d.nanos == 0),
        f.default_ttl == Some(t) ==> file_ttl(f, parsed) == ttl_reading(t@, parsed)
            && file_ttl_text(f) == trimmed(t@),
{
}

/// The program keeps its files in the home folder: its state in `.servant`, the
/// configuration in `.config/servant`, and its unit file where the user's service
/// manager looks for it.
pub proof fn lemma_where_files_are(home: Seq<char>)
    requires
        home.len() > 0,
        home.last() != '/',
    ensures
        state_path(home) == home + "/.servant"@,
        config_path(home) == home + "/.config/servant"@,
        user_unit_path(home) == home + "/.config/systemd/user/servant.service"@,
        join_view(state_path(home), "registry.db"@) == home + "/.servant/registry.db"@,
        join_view(state_path(home), "control.sock"@) == home + "/.servant/control.sock"@,
        join_view(state_path(home), "daemon.lock"@) == home + "/.servant/daemon.lock"@,
        join_view(config_path(home), "config.toml"@) == home + "/.config/servant/config.toml"@,
{
    reveal_strlit(".servant");
    reveal_strlit("/.servant");
    reveal_strlit(".config");
    reveal_strlit("servant");
    reveal_strlit("/.config/servant");
    reveal_strlit("systemd");
    reveal_strlit("user");
    reveal_strlit("servant.service");
    reveal_strlit("/.config/systemd/user/servant.service");
    reveal_strlit("registry.db");
    reveal_strlit("control.sock");
    reveal_strlit("daemon.lock");
    reveal_strlit("config.toml");
    reveal_strlit("/.servant/registry.db");
    reveal_strlit("/.servant/control.sock");
    reveal_strlit("/.servant/daemon.lock");
    reveal_strlit("/.config/servant/config.toml");
    assert(state_path(home) =~= home + "/.servant"@);
    assert(config_path(home) =~= home + "/.config/servant"@);
    assert(user_unit_path(home) =~= home + "/.config/systemd/user/servant.service"@);
    assert(join_view(state_path(home), "registry.db"@) =~= home + "/.servant/registry.db"@);
    assert(join_view(state_path(home), "control.sock"@) =~= home + "/.servant/control.sock"@);
    assert(join_view(state_path(home), "daemon.lock"@) =~= home + "/.servant/daemon.lock"@);
    assert(join_view(config_path(home), "config.toml"@) =~= home
        + "/.config/servant/config.toml"@);
}

} // verus!
