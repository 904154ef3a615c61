//! The server's configuration: defaults, and the overrides that the
//! `ARBORETUM_*` environment variables make.
use vstd::prelude::*;
use vstd::string::*;
use crate::text::{chars_of, parse_i64, parse_u64, parse_i64_spec, parse_u64_spec};

verus! {

/// The configuration of the server. `db_path` is the path of the SQLite
/// database file.
#[derive(Debug, Clone)]
pub struct Config {
    pub listen_addr: String,
    pub db_path: String,
    pub max_retention_seconds: i64,
    pub cleanup_interval_seconds: u64,
    pub max_logs: Option<i64>,
    pub max_spans: Option<i64>,
}

/// The values of the `ARBORETUM_*` variables, each where the variable is
/// set to valid Unicode (what `std::env::var(..).ok()` gives).
#[derive(Debug, Clone, Default)]
pub struct EnvVars {
    /// `ARBORETUM_LISTEN_ADDR`
    pub listen_addr: Option<String>,
    /// `ARBORETUM_DB_PATH`
    pub db_path: Option<String>,
    /// `ARBORETUM_MAX_RETENTION_SECONDS`
    pub max_retention_seconds: Option<String>,
    /// `ARBORETUM_CLEANUP_INTERVAL_SECONDS`
    pub cleanup_interval_seconds: Option<String>,
    /// `ARBORETUM_MAX_LOGS`
    pub max_logs: Option<String>,
    /// `ARBORETUM_MAX_SPANS`
    pub max_spans: Option<String>,
}

pub fn default_listen_addr() -> (r: String)
    ensures
        r@ == "0.0.0.0:3333"@,
{
    String::from_str("0.0.0.0:3333")
}

pub fn default_db_path() -> (r: String)
    ensures
        r@ == "arboretum.db"@,
{
    String::from_str("arboretum.db")
}

/// Two hours.
pub fn default_max_retention_seconds() -> (r: i64)
    ensures
        r == 7200,
{
    7200
}

/// Five minutes.
pub fn default_cleanup_interval_seconds() -> (r: u64)
    ensures
        r == 300,
{
    300
}

pub fn default_max_logs() -> (r: Option<i64>)
    ensures
        r is None,
{
    None
}

pub fn default_max_spans() -> (r: Option<i64>)
    ensures
        r is None,
{
    None
}

impl Default for Config {
    fn default() -> (r: Config)
        ensures
            config_values(r) == default_values(),
    {
        Config {
            listen_addr: default_listen_addr(),
            db_path: default_db_path(),
            max_retention_seconds: default_max_retention_seconds(),
            cleanup_interval_seconds: default_cleanup_interval_seconds(),
            max_logs: default_max_logs(),
            max_spans: default_max_spans(),
        }
    }
}

/// An optional text parsed as an `i64`: `None` where absent or invalid.
pub open spec fn parse_opt_i64(v: Option<String>) -> Option<i64> {
    match v {
        Some(s) => parse_i64_spec(s@),
        None => None,
    }
}

pub open spec fn parse_opt_u64(v: Option<String>) -> Option<u64> {
    match v {
        Some(s) => parse_u64_spec(s@),
        None => None,
    }
}

/// The configuration `c` with the overrides of `env`: a set address or
/// path replaces the configured one; a set retention or interval replaces
/// it where it parses; a set count limit replaces it with its parsed value,
/// or with no limit where it does not parse.
pub open spec fn overridden(c: ConfigValues, env: EnvVars) -> ConfigValues {
    (
        match env.listen_addr {
            Some(a) => a@,
            None => c.0,
        },
        match env.db_path {
            Some(p) => p@,
            None => c.1,
        },
        match parse_opt_i64(env.max_retention_seconds) {
            Some(v) => v,
            None => c.2,
        },
        match parse_opt_u64(env.cleanup_interval_seconds) {
            Some(v) => v,
            None => c.3,
        },
        if env.max_logs is Some {
            parse_opt_i64(env.max_logs)
        } else {
            c.4
        },
        if env.max_spans is Some {
            parse_opt_i64(env.max_spans)
        } else {
            c.5
        },
    )
}

/// The default values.
pub open spec fn default_values() -> ConfigValues {
    ("0.0.0.0:3333"@, "arboretum.db"@, 7200, 300, None, None)
}

/// The values of a configuration: address, database path, retention,
/// cleanup interval, log limit and span limit.
pub type ConfigValues = (Seq<char>, Seq<char>, i64, u64, Option<i64>, Option<i64>);

/// The values of a configuration, its texts as character sequences.
pub open spec fn config_values(c: Config) -> ConfigValues {
    (
        c.listen_addr@,
        c.db_path@,
        c.max_retention_seconds,
        c.cleanup_interval_seconds,
        c.max_logs,
        c.max_spans,
    )
}

fn parse_opt_i64_exec(v: &Option<String>) -> (r: Option<i64>)
    ensures
        r == parse_opt_i64(*v),
{
    match v {
        Some(s) => {
            let c = chars_of(s.as_str());
            parse_i64(c.as_slice())
        },
        None => None,
    }
}

fn parse_opt_u64_exec(v: &Option<String>) -> (r: Option<u64>)
    ensures
        r == parse_opt_u64(*v),
{
    match v {
        Some(s) => {
            let c = chars_of(s.as_str());
            parse_u64(c.as_slice())
        },
        None => None,
    }
}

impl Config {
    /// The configuration from the environment alone: the defaults with the
    /// overrides of `env`.
    pub fn from_env(env: &EnvVars) -> (r: Config)
        ensures
            config_values(r) == overridden(default_values(), *env),
    {
        let listen_addr = match &env.listen_addr {
            Some(a) => a.clone(),
            None => default_listen_addr(),
        };
        let db_path = match &env.db_path {
            Some(p) => p.clone(),
            None => default_db_path(),
        };
        let max_retention_seconds = match parse_opt_i64_exec(&env.max_retention_seconds) {
            Some(v) => v,
            None => default_max_retention_seconds(),
        };
        let cleanup_interval_seconds = match parse_opt_u64_exec(&env.cleanup_interval_seconds) {
            Some(v) => v,
            None => default_cleanup_interval_seconds(),
        };
        let max_logs = parse_opt_i64_exec(&env.max_logs);
        let max_spans = parse_opt_i64_exec(&env.max_spans);
        let r = Config {
            listen_addr,
            db_path,
            max_retention_seconds,
            cleanup_interval_seconds,
            max_logs,
            max_spans,
        };
        assert(config_values(r) =~= overridden(default_values(), *env));
        r
    }

    /// The configuration with the overrides of `env` applied.
    pub fn with_env_overrides(self, env: &EnvVars) -> (r: Config)
        ensures
            config_values(r) == overridden(config_values(self), *env),
    {
        let mut c = self;
        match &env.listen_addr {
            Some(a) => {
                c.listen_addr = a.clone();
            },
            None => {},
        }
        match &env.db_path {
            Some(p) => {
                c.db_path = p.clone();
            },
            None => {},
        }
        match parse_opt_i64_exec(&env.max_retention_seconds) {
            Some(v) => {
                c.max_retention_seconds = v;
            },
            None => {},
        }
        match parse_opt_u64_exec(&env.cleanup_interval_seconds) {
            Some(v) => {
                c.cleanup_interval_seconds = v;
            },
            None => {},
        }
        if env.max_logs.is_some() {
            c.max_logs = parse_opt_i64_exec(&env.max_logs);
        }
        if env.max_spans.is_some() {
            c.max_spans = parse_opt_i64_exec(&env.max_spans);
        }
        assert(config_values(c) =~= overridden(config_values(self), *env));
        c
    }
}

/// Overrides from an environment that sets nothing change nothing.
pub proof fn lemma_empty_env_keeps(c: ConfigValues, env: EnvVars)
    requires
        env.listen_addr is None,
        env.db_path is None,
        env.max_retention_seconds is None,
        env.cleanup_interval_seconds is None,
        env.max_logs is None,
        env.max_spans is None,
    ensures
        overridden(c, env) == c,
{
}

/// Applying the same overrides twice is applying them once.
pub proof fn lemma_overrides_idempotent(c: ConfigValues, env: EnvVars)
    ensures
        overridden(overridden(c, env), env) == overridden(c, env),
{
}

} // verus!
