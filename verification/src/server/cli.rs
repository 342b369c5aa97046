//! The program's command line.

use vstd::prelude::*;
use vstd::string::*;
use crate::server::config::ServerConfig;
use crate::text::{decimal, format_unsigned, same, starts_with};

verus! {

/// What the first argument asks for.
#[derive(Debug)]
pub enum Command {
    /// Start the server.
    Serve,
    /// Make a tunnel, from the arguments behind.
    Connect,
    /// Run the dashboard, from the arguments behind.
    Tui,
    Help,
    Version,
    /// Neither: complain with this message, show the usage, and exit with status 2.
    Unknown(String),
}

/// Whether `c` is what the first argument asks for. The server takes no argument, so that one it
/// does not know never starts it.
pub open spec fn is_command(c: Command, arg: Option<Seq<char>>) -> bool {
    match arg {
        None => c is Serve,
        Some(a) => if a == "connect"@ {
            c is Connect
        } else if a == "tui"@ {
            c is Tui
        } else if a == "-h"@ || a == "--help"@ || a == "help"@ {
            c is Help
        } else if a == "-V"@ || a == "--version"@ {
            c is Version
        } else {
            c is Unknown && c->Unknown_0@ == "astroburst-server: unknown "@ + if "-"@.is_prefix_of(
                a,
            ) {
                "flag"@
            } else {
                "command"@
            } + " '"@ + a + "'\n"@
        },
    }
}

/// Reads the first argument.
pub fn command(arg: Option<&str>) -> (c: Command)
    ensures
        is_command(
            c,
            match arg {
                Some(a) => Some(a@),
                None => None,
            },
        ),
{
    match arg {
        None => Command::Serve,
        Some(a) => if same(a, "connect") {
            Command::Connect
        } else if same(a, "tui") {
            Command::Tui
        } else if same(a, "-h") || same(a, "--help") || same(a, "help") {
            Command::Help
        } else if same(a, "-V") || same(a, "--version") {
            Command::Version
        } else {
            let mut m = "astroburst-server: unknown ".to_owned();
            if starts_with(a, "-") {
                m.append("flag");
            } else {
                m.append("command");
            }
            m.append(" '");
            m.append(a);
            m.append("'\n");
            Command::Unknown(m)
        },
    }
}

/// The usage, between the version and the default of the first variable.
pub const USAGE_COMMANDS: &'static str =
    "\n\nUSAGE:\n    astroburst-server                 Start the HTTP server (config via env vars)\n    astroburst-server connect <target>  Open an SSH tunnel to a remote server\n    astroburst-server tui [URL]         Run the live dashboard against a server\n    astroburst-server --help            Print this help\n    astroburst-server --version         Print the version\n\nThe server takes no flags; it is configured through environment variables:\n\n    ASTROBURST_BIND             TCP address to listen on   [default: ";

/// What `--help` prints, with the defaults of `d`.
pub open spec fn usage_of(version: Seq<char>, d: ServerConfig) -> Seq<char> {
    "astroburst-server "@ + version + USAGE_COMMANDS@ + d.bind@
        + "]\n    ASTROBURST_SESSION_TTL      idle seconds before evict  [default: "@ + decimal(
        d.session_ttl as nat,
    ) + "]\n    ASTROBURST_SESSION_MAX      max concurrent sessions    [default: "@ + decimal(
        d.session_max as nat,
    ) + "]\n    ASTROBURST_JOBS_MAX         max concurrent CPU jobs    [default: "@ + decimal(
        d.jobs_max as nat,
    ) + "]\n    ASTROBURST_CACHE_MAX_ENTRIES per-session LRU slots     [default: "@ + decimal(
        d.cache_max_entries as nat,
    ) + "]\n    ASTROBURST_CACHE_MAX_BYTES  per-session LRU byte cap   [default: "@ + decimal(
        d.cache_max_bytes as nat,
    ) + "]\n    ASTROBURST_CLEANUP_INTERVAL TTL sweep interval (secs)  [default: "@ + decimal(
        d.cleanup_interval as nat,
    ) + "]\n    ASTROBURST_LOG_LEVEL        log level (RUST_LOG wins)   [default: "@ + d.log_level@
        + "]\n"@
}

fn append_number(s: &mut String, n: u64)
    ensures
        final(s)@ == old(s)@ + decimal(n as nat),
{
    let digits = format_unsigned(n);
    s.append(digits.as_str());
}

/// What `--help` prints for a version, with the defaults of `d`.
pub fn usage(version: &str, d: &ServerConfig) -> (s: String)
    ensures
        s@ == usage_of(version@, *d),
{
    let mut s = "astroburst-server ".to_owned();
    s.append(version);
    s.append(USAGE_COMMANDS);
    s.append(d.bind.as_str());
    s.append("]\n    ASTROBURST_SESSION_TTL      idle seconds before evict  [default: ");
    append_number(&mut s, d.session_ttl);
    s.append("]\n    ASTROBURST_SESSION_MAX      max concurrent sessions    [default: ");
    append_number(&mut s, d.session_max as u64);
    s.append("]\n    ASTROBURST_JOBS_MAX         max concurrent CPU jobs    [default: ");
    append_number(&mut s, d.jobs_max as u64);
    s.append("]\n    ASTROBURST_CACHE_MAX_ENTRIES per-session LRU slots     [default: ");
    append_number(&mut s, d.cache_max_entries as u64);
    s.append("]\n    ASTROBURST_CACHE_MAX_BYTES  per-session LRU byte cap   [default: ");
    append_number(&mut s, d.cache_max_bytes);
    s.append("]\n    ASTROBURST_CLEANUP_INTERVAL TTL sweep interval (secs)  [default: ");
    append_number(&mut s, d.cleanup_interval);
    s.append("]\n    ASTROBURST_LOG_LEVEL        log level (RUST_LOG wins)   [default: ");
    s.append(d.log_level.as_str());
    s.append("]\n");
    s
}

} // verus!
