//! The server's configuration, from environment variables.
//!
//! A value that cannot be read falls back to the default, with a warning: the server never
//! refuses to start because of one.

use vstd::prelude::*;
use vstd::string::*;
use crate::text::{parse_unsigned, parsed_unsigned};

verus! {

/// How the server runs.
#[derive(Debug)]
pub struct ServerConfig {
    /// `ASTROBURST_BIND`: the address to listen on.
    pub bind: String,
    /// `ASTROBURST_SESSION_TTL`: idle seconds before a session is evicted.
    pub session_ttl: u64,
    /// `ASTROBURST_SESSION_MAX`: sessions at one time, at most.
    pub session_max: usize,
    /// `ASTROBURST_JOBS_MAX`: jobs at one time, at most.
    pub jobs_max: usize,
    /// `ASTROBURST_CACHE_MAX_ENTRIES`: images that a session's cache holds.
    pub cache_max_entries: usize,
    /// `ASTROBURST_CACHE_MAX_BYTES`: bytes that a session's cache holds.
    pub cache_max_bytes: u64,
    /// `ASTROBURST_CLEANUP_INTERVAL`: seconds between two sweeps for idle sessions.
    pub cleanup_interval: u64,
    /// `ASTROBURST_LOG_LEVEL`: the least level that is logged.
    pub log_level: String,
}

/// The variables as they are set.
#[derive(Debug)]
pub struct ServerVars {
    /// `ASTROBURST_BIND`, and whether it is a socket address.
    pub bind: Option<(String, bool)>,
    pub session_ttl: Option<String>,
    pub session_max: Option<String>,
    pub jobs_max: Option<String>,
    pub cache_max_entries: Option<String>,
    pub cache_max_bytes: Option<String>,
    pub cleanup_interval: Option<String>,
    pub log_level: Option<String>,
}

/// Whether `c` holds the documented defaults.
pub open spec fn is_default(c: ServerConfig) -> bool {
    &&& c.bind@ == "127.0.0.1:8097"@
    &&& c.session_ttl == 900
    &&& c.session_max == 8
    &&& c.jobs_max == 4
    &&& c.cache_max_entries == 32
    &&& c.cache_max_bytes == 2147483648
    &&& c.cleanup_interval == 60
    &&& c.log_level@ == "info"@
}

impl Default for ServerConfig {
    fn default() -> (c: Self)
        ensures
            is_default(c),
    {
        ServerConfig {
            bind: "127.0.0.1:8097".to_owned(),
            session_ttl: 900,
            session_max: 8,
            jobs_max: 4,
            cache_max_entries: 32,
            cache_max_bytes: 2147483648,
            cleanup_interval: 60,
            log_level: "info".to_owned(),
        }
    }
}

/// The number that a variable sets: the default where it is not set or cannot be read.
pub open spec fn number_or(raw: Option<String>, max: nat, default: nat) -> nat {
    match raw {
        None => default,
        Some(text) => match parsed_unsigned(text@, max) {
            Some(n) => n,
            None => default,
        },
    }
}

/// Whether a variable is set to what cannot be read as a number.
pub open spec fn unreadable(raw: Option<String>, max: nat) -> bool {
    raw matches Some(text) && parsed_unsigned(text@, max) is None
}

/// Reads a number from a variable, else takes the default.
pub fn env_or(raw: &Option<String>, max: u64, default: u64) -> (n: u64)
    requires
        default <= max,
    ensures
        n == number_or(*raw, max as nat, default as nat),
        n <= max,
{
    match raw {
        None => default,
        Some(text) => match parse_unsigned(text.as_str(), max) {
            Some(n) => n,
            None => default,
        },
    }
}

/// The variables whose values cannot be read, in the order of the configuration's fields.
pub open spec fn refused(vars: ServerVars) -> Seq<Seq<char>> {
    (if vars.bind matches Some((_, ok)) && !ok {
        seq!["ASTROBURST_BIND"@]
    } else {
        Seq::empty()
    }) + named_if(unreadable(vars.session_ttl, u64::MAX as nat), "ASTROBURST_SESSION_TTL"@)
        + named_if(unreadable(vars.session_max, usize::MAX as nat), "ASTROBURST_SESSION_MAX"@)
        + named_if(unreadable(vars.jobs_max, usize::MAX as nat), "ASTROBURST_JOBS_MAX"@) + named_if(
        unreadable(vars.cache_max_entries, usize::MAX as nat),
        "ASTROBURST_CACHE_MAX_ENTRIES"@,
    ) + named_if(unreadable(vars.cache_max_bytes, u64::MAX as nat), "ASTROBURST_CACHE_MAX_BYTES"@)
        + named_if(
        unreadable(vars.cleanup_interval, u64::MAX as nat),
        "ASTROBURST_CLEANUP_INTERVAL"@,
    )
}

/// A name, or none.
pub open spec fn named_if(b: bool, name: Seq<char>) -> Seq<Seq<char>> {
    if b {
        seq![name]
    } else {
        Seq::empty()
    }
}

fn is_unreadable(raw: &Option<String>, max: u64) -> (b: bool)
    ensures
        b == unreadable(*raw, max as nat),
{
    match raw {
        None => false,
        Some(text) => parse_unsigned(text.as_str(), max).is_none(),
    }
}

fn push_if(names: &mut Vec<&'static str>, b: bool, name: &'static str)
    ensures
        name_texts(final(names)@) == name_texts(old(names)@) + named_if(b, name@),
{
    if b {
        names.push(name);
    }
    assert(name_texts(names@) =~= name_texts(old(names)@) + named_if(b, name@));
}

/// The characters of each name.
pub open spec fn name_texts(names: Seq<&'static str>) -> Seq<Seq<char>> {
    Seq::new(names.len(), |i: int| names[i]@)
}

impl ServerConfig {
    /// Builds a configuration from the variables, with the names of those that cannot be read.
    pub fn from_vars(vars: &ServerVars) -> (r: (Self, Vec<&'static str>))
        ensures
            r.0.bind@ == match vars.bind {
                Some((text, ok)) => if ok {
                    text@
                } else {
                    "127.0.0.1:8097"@
                },
                None => "127.0.0.1:8097"@,
            },
            r.0.session_ttl == number_or(vars.session_ttl, u64::MAX as nat, 900),
            r.0.session_max == number_or(vars.session_max, usize::MAX as nat, 8),
            r.0.jobs_max == number_or(vars.jobs_max, usize::MAX as nat, 4),
            r.0.cache_max_entries == number_or(vars.cache_max_entries, usize::MAX as nat, 32),
            r.0.cache_max_bytes == number_or(vars.cache_max_bytes, u64::MAX as nat, 2147483648),
            r.0.cleanup_interval == number_or(vars.cleanup_interval, u64::MAX as nat, 60),
            r.0.log_level@ == match vars.log_level {
                Some(text) => text@,
                None => "info"@,
            },
            name_texts(r.1@) == refused(*vars),
    {
        let d = ServerConfig::default();
        let bind = match &vars.bind {
            Some((text, true)) => text.clone(),
            _ => d.bind,
        };
        let log_level = match &vars.log_level {
            Some(text) => text.clone(),
            None => d.log_level,
        };
        let most: u64 = usize::MAX as u64;
        let config = ServerConfig {
            bind,
            session_ttl: env_or(&vars.session_ttl, u64::MAX, d.session_ttl),
            session_max: env_or(&vars.session_max, most, d.session_max as u64) as usize,
            jobs_max: env_or(&vars.jobs_max, most, d.jobs_max as u64) as usize,
            cache_max_entries: env_or(
                &vars.cache_max_entries,
                most,
                d.cache_max_entries as u64,
            ) as usize,
            cache_max_bytes: env_or(&vars.cache_max_bytes, u64::MAX, d.cache_max_bytes),
            cleanup_interval: env_or(&vars.cleanup_interval, u64::MAX, d.cleanup_interval),
            log_level,
        };
        let mut names: Vec<&'static str> = Vec::new();
        let bad_bind = match &vars.bind {
            Some((_, ok)) => !*ok,
            None => false,
        };
        push_if(&mut names, bad_bind, "ASTROBURST_BIND");
        push_if(&mut names, is_unreadable(&vars.session_ttl, u64::MAX), "ASTROBURST_SESSION_TTL");
        push_if(&mut names, is_unreadable(&vars.session_max, most), "ASTROBURST_SESSION_MAX");
        push_if(&mut names, is_unreadable(&vars.jobs_max, most), "ASTROBURST_JOBS_MAX");
        push_if(
            &mut names,
            is_unreadable(&vars.cache_max_entries, most),
            "ASTROBURST_CACHE_MAX_ENTRIES",
        );
        push_if(
            &mut names,
            is_unreadable(&vars.cache_max_bytes, u64::MAX),
            "ASTROBURST_CACHE_MAX_BYTES",
        );
        push_if(
            &mut names,
            is_unreadable(&vars.cleanup_interval, u64::MAX),
            "ASTROBURST_CLEANUP_INTERVAL",
        );
        assert(name_texts(names@) =~= refused(*vars));
        (config, names)
    }
}

} // verus!
