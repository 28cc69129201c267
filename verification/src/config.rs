//! The server's settings.

use vstd::prelude::*;
use crate::util::Address;

verus! {

/// How much the server logs.
#[derive(Clone, Copy, Debug, PartialEq, Eq, Structural)]
pub enum LogLevel {
    Debug,
    Info,
    Warn,
    Error,
    Off,
}

/// The name of a level, as the logger reads it.
pub open spec fn log_level_text(l: LogLevel) -> Seq<char> {
    match l {
        LogLevel::Debug => "debug"@,
        LogLevel::Info => "info"@,
        LogLevel::Warn => "warn"@,
        LogLevel::Error => "error"@,
        LogLevel::Off => "off"@,
    }
}

impl Default for LogLevel {
    /// No logging.
    fn default() -> (r: Self)
        ensures
            r == LogLevel::Off,
    {
        LogLevel::Off
    }
}

impl LogLevel {
    pub fn to_str(&self) -> (r: &'static str)
        ensures
            r@ == log_level_text(*self),
    {
        match self {
            LogLevel::Debug => "debug",
            LogLevel::Info => "info",
            LogLevel::Warn => "warn",
            LogLevel::Error => "error",
            LogLevel::Off => "off",
        }
    }
}

/// Two levels are equal exactly when their names are: comparing levels and
/// comparing their names agree.
pub proof fn lemma_log_level_names_distinct(a: LogLevel, b: LogLevel)
    ensures
        a == b <==> log_level_text(a) == log_level_text(b),
{
    reveal_strlit("debug");
    reveal_strlit("info");
    reveal_strlit("warn");
    reveal_strlit("error");
    reveal_strlit("off");
    if a != b {
        let ta = log_level_text(a);
        let tb = log_level_text(b);
        if ta.len() == tb.len() {
            assert(ta[0] != tb[0] || ta[1] != tb[1]);
        }
    }
}

/// The settings: the log level, this server's address, and the addresses
/// of the servers it starts out knowing.
pub struct Config {
    pub log_level: Option<LogLevel>,
    pub self_addr: Address,
    pub others: Option<Vec<Address>>,
}

/// The settings file that the command line names: the argument after a
/// `--config` in second place, else `config.toml`.
pub open spec fn config_path_spec(args: Seq<Seq<char>>) -> Seq<char> {
    if args.len() >= 3 && args[1] == "--config"@ {
        args[2]
    } else {
        "config.toml"@
    }
}

impl Config {
    /// The settings file that the command line names.
    pub fn config_path(args: &Vec<String>) -> (r: String)
        ensures
            r@ == config_path_spec(crate::util::lists::texts(args@)),
    {
        let flag = "--config".to_owned();
        if args.len() >= 3 && args[1] == flag {
            args[2].clone()
        } else {
            "config.toml".to_owned()
        }
    }
}

} // verus!
