//! `connect <target>`: an SSH tunnel to a remote server that is bound to the loopback, with
//! reconnection.
//!
//! The system's OpenSSH binary is run, so that configured aliases, keys, agents and jump hosts
//! work. This module reads the command line, builds what is run, reads what comes back, and
//! decides what the supervisor does next; processes, sockets and clocks are its caller's.

use vstd::prelude::*;
use vstd::string::*;
use crate::server::json::{str_text_field, text_field_of_str};
use crate::text::{
    all_digits, contains, decimal, first_of, format_unsigned, last_of, lossy, lossy_of, occurs,
    only_digits, opt_text, parse_unsigned, parsed_unsigned, place_of, rsplit_once, same,
    split_once, split_once_text, starts_with, strip_prefix, texts, trim, trim_end_matches,
    trim_start, trimmed, trimmed_start, without_trailing,
};

verus! {

/// The port of the remote server where the arguments name none.
pub const DEFAULT_REMOTE_PORT: u16 = 8097;

/// The local end of the tunnel where `--local-port` is left out: fixed, so that the URL stays the
/// same from run to run.
pub const DEFAULT_LOCAL_PORT: u16 = 8097;

/// Seconds between the keepalives of `ssh`.
pub const SERVER_ALIVE_INTERVAL: u64 = 15;

/// Unanswered keepalives before `ssh` gives up.
pub const SERVER_ALIVE_COUNT_MAX: u64 = 3;

/// Seconds before the first reconnection.
pub const BACKOFF_INITIAL: u64 = 1;

/// Seconds before a reconnection, at most.
pub const BACKOFF_CAP: u64 = 30;

/// Seconds to wait for the forward to come up.
pub const TUNNEL_READY_TIMEOUT: u64 = 20;

/// What `--help` prints.
pub const USAGE: &'static str =
    "usage: astroburst-server connect <ssh-target> [--remote-port N] [--local-port N] [--json] [--tui] [--no-reconnect] [--max-retries N] [--start] [--remote-bin PATH]\n<ssh-target>: an ~/.ssh/config alias/hostname, or ssh://user@host[:sshport]\n--local-port defaults to 8097; pass 0 for a random free port";

/// An SSH destination: either a bare word left to OpenSSH, or that of an `ssh://` URL, whose port
/// is the SSH port.
#[derive(Debug, PartialEq)]
pub struct SshTarget {
    pub destination: String,
    pub ssh_port: Option<u16>,
}

/// What an `SshTarget` says.
pub struct TargetView {
    pub destination: Seq<char>,
    pub ssh_port: Option<u16>,
}

impl View for SshTarget {
    type V = TargetView;

    open spec fn view(&self) -> TargetView {
        TargetView { destination: self.destination@, ssh_port: self.ssh_port }
    }
}

/// The tunnel to make, and how to report on it.
#[derive(Debug)]
pub struct ConnectOptions {
    pub target: SshTarget,
    pub remote_port: u16,
    /// The local end: `None` for the default, `Some(0)` for a free port, else that port.
    pub local_port: Option<u16>,
    pub json: bool,
    pub reconnect: bool,
    /// `None` for any number of attempts.
    pub max_retries: Option<u32>,
    /// Launch the remote server where nothing listens.
    pub start: bool,
    /// The remote binary that `--start` runs.
    pub remote_bin: String,
    /// Run the dashboard.
    pub tui: bool,
}

/// What `ConnectOptions` say.
pub struct OptionsView {
    pub target: TargetView,
    pub remote_port: u16,
    pub local_port: Option<u16>,
    pub json: bool,
    pub reconnect: bool,
    pub max_retries: Option<u32>,
    pub start: bool,
    pub remote_bin: Seq<char>,
    pub tui: bool,
}

impl View for ConnectOptions {
    type V = OptionsView;

    open spec fn view(&self) -> OptionsView {
        OptionsView {
            target: self.target@,
            remote_port: self.remote_port,
            local_port: self.local_port,
            json: self.json,
            reconnect: self.reconnect,
            max_retries: self.max_retries,
            start: self.start,
            remote_bin: self.remote_bin@,
            tui: self.tui,
        }
    }
}

/// The `version` string of a `/health` body, where it has one.
pub fn extract_health_version(body: &str) -> (version: Option<String>)
    ensures
        opt_text(version) == text_field_of_str(body@, "version"@),
{
    str_text_field(body, "version")
}

/// The `major.minor` pair at the start of a version: the first two of its parts between dots.
pub open spec fn major_minor_of(v: Seq<char>) -> Option<(u64, u64)> {
    let s = trimmed(v);
    let i = first_of(s, '.');
    if i < s.len() {
        let behind = s.skip(i + 1);
        let major = parsed_unsigned(s.take(i), u64::MAX as nat);
        let minor = parsed_unsigned(behind.take(first_of(behind, '.')), u64::MAX as nat);
        match (major, minor) {
            (Some(a), Some(b)) => Some((a as u64, b as u64)),
            _ => None,
        }
    } else {
        None
    }
}

/// Reads the `major.minor` pair of a version.
pub fn major_minor(v: &str) -> (r: Option<(u64, u64)>)
    ensures
        r == major_minor_of(v@),
{
    let s = trim(v);
    match split_once(s, '.') {
        None => None,
        Some((first, behind)) => {
            let n: usize = crate::text::find(behind, '.');
            let second = behind.substring_char(0, n);
            let major = parse_unsigned(first, u64::MAX);
            let minor = parse_unsigned(second, u64::MAX);
            match (major, minor) {
                (Some(a), Some(b)) => Some((a, b)),
                _ => None,
            }
        },
    }
}

/// Two versions agree where their `major.minor` do; where one of them has none, where the texts
/// do.
pub open spec fn compatible(local: Seq<char>, remote: Seq<char>) -> bool {
    match (major_minor_of(local), major_minor_of(remote)) {
        (Some(l), Some(r)) => l == r,
        _ => trimmed(local) == trimmed(remote),
    }
}

/// Whether a client and a server agree.
pub fn versions_compatible(local: &str, remote: &str) -> (r: bool)
    ensures
        r == compatible(local@, remote@),
{
    match (major_minor(local), major_minor(remote)) {
        (Some(l), Some(r)) => l.0 == r.0 && l.1 == r.1,
        _ => same(trim(local), trim(remote)),
    }
}

/// Agreement does not depend on who asks, and every version agrees with itself.
pub proof fn compatibility_is_symmetric(a: Seq<char>, b: Seq<char>)
    ensures
        compatible(a, b) == compatible(b, a),
        compatible(a, a),
{
}

/// What a target says, or why it is none.
pub open spec fn parsed_target(raw: Seq<char>) -> Result<TargetView, Seq<char>> {
    if "ssh://"@.is_prefix_of(raw) {
        let rest = without_trailing(raw.skip("ssh://"@.len() as int), '/');
        let i = last_of(rest, ':');
        let port = rest.skip(i + 1);
        if rest.len() == 0 {
            Err("empty ssh:// target"@)
        } else if i >= 0 && port.len() > 0 && all_digits(port) {
            match parsed_unsigned(port, u16::MAX as nat) {
                None => Err("invalid ssh port '"@ + port + "'"@),
                Some(p) => if i == 0 {
                    Err("empty host in ssh:// target"@)
                } else {
                    Ok(TargetView { destination: rest.take(i), ssh_port: Some(p as u16) })
                },
            }
        } else {
            Ok(TargetView { destination: rest, ssh_port: None })
        }
    } else if raw.len() == 0 || raw[0] == '-' {
        Err("invalid ssh target '"@ + raw + "'"@)
    } else {
        Ok(TargetView { destination: raw, ssh_port: None })
    }
}

/// Whether `r` is what the texts `want` say.
pub open spec fn is_target(r: Result<SshTarget, String>, want: Result<TargetView, Seq<char>>) -> bool {
    match (r, want) {
        (Ok(t), Ok(w)) => t@ == w,
        (Err(e), Err(w)) => e@ == w,
        _ => false,
    }
}

/// `before`, `middle` and `after` in a row.
pub(crate) fn around(before: &str, middle: &str, after: &str) -> (s: String)
    ensures
        s@ == before@ + middle@ + after@,
{
    let mut s = before.to_owned();
    s.append(middle);
    s.append(after);
    s
}

/// Reads an SSH target.
pub fn parse_target(raw: &str) -> (r: Result<SshTarget, String>)
    ensures
        is_target(r, parsed_target(raw@)),
{
    if let Some(rest) = strip_prefix(raw, "ssh://") {
        let rest = trim_end_matches(rest, '/');
        if rest.unicode_len() == 0 {
            return Err("empty ssh:// target".to_owned());
        }
        match rsplit_once(rest, ':') {
            Some((head, p)) => {
                if p.unicode_len() > 0 && only_digits(p) {
                    match parse_unsigned(p, u16::MAX as u64) {
                        None => Err(around("invalid ssh port '", p, "'")),
                        Some(port) => {
                            if head.unicode_len() == 0 {
                                Err("empty host in ssh:// target".to_owned())
                            } else {
                                Ok(
                                    SshTarget {
                                        destination: head.to_owned(),
                                        ssh_port: Some(port as u16),
                                    },
                                )
                            }
                        },
                    }
                } else {
                    Ok(SshTarget { destination: rest.to_owned(), ssh_port: None })
                }
            },
            None => Ok(SshTarget { destination: rest.to_owned(), ssh_port: None }),
        }
    } else if raw.unicode_len() == 0 || raw.get_char(0) == '-' {
        Err(around("invalid ssh target '", raw, "'"))
    } else {
        Ok(SshTarget { destination: raw.to_owned(), ssh_port: None })
    }
}

/// The command line as read so far.
pub struct ArgsView {
    pub target: Option<TargetView>,
    pub remote_port: u16,
    pub local_port: Option<u16>,
    pub json: bool,
    pub reconnect: bool,
    pub max_retries: Option<u32>,
    pub start: bool,
    pub remote_bin: Seq<char>,
    pub tui: bool,
}

/// Before the first argument.
pub open spec fn no_args() -> ArgsView {
    ArgsView {
        target: None,
        remote_port: DEFAULT_REMOTE_PORT,
        local_port: None,
        json: false,
        reconnect: true,
        max_retries: None,
        start: false,
        remote_bin: "astroburst-server"@,
        tui: false,
    }
}

/// Whether an argument is followed by its value.
pub open spec fn takes_value(arg: Seq<char>) -> bool {
    arg == "--remote-port"@ || arg == "--local-port"@ || arg == "--max-retries"@ || arg
        == "--remote-bin"@
}

/// After an option and its value.
pub open spec fn with_value(st: ArgsView, arg: Seq<char>, value: Seq<char>) -> Result<
    ArgsView,
    Seq<char>,
> {
    if arg == "--remote-port"@ {
        match parsed_unsigned(value, u16::MAX as nat) {
            Some(p) => Ok(ArgsView { remote_port: p as u16, ..st }),
            None => Err("invalid --remote-port"@),
        }
    } else if arg == "--local-port"@ {
        match parsed_unsigned(value, u16::MAX as nat) {
            Some(p) => Ok(ArgsView { local_port: Some(p as u16), ..st }),
            None => Err("invalid --local-port"@),
        }
    } else if arg == "--max-retries"@ {
        match parsed_unsigned(value, u32::MAX as nat) {
            Some(n) => Ok(ArgsView { max_retries: Some(n as u32), ..st }),
            None => Err("invalid --max-retries"@),
        }
    } else {
        Ok(ArgsView { remote_bin: value, ..st })
    }
}

/// After a word that stands alone.
pub open spec fn with_word(st: ArgsView, arg: Seq<char>) -> Result<ArgsView, Seq<char>> {
    if arg == "--json"@ {
        Ok(ArgsView { json: true, ..st })
    } else if arg == "--no-reconnect"@ {
        Ok(ArgsView { reconnect: false, ..st })
    } else if arg == "--start"@ {
        Ok(ArgsView { start: true, ..st })
    } else if arg == "--tui"@ {
        Ok(ArgsView { tui: true, ..st })
    } else if arg == "--help"@ || arg == "-h"@ {
        Err(USAGE@)
    } else if st.target is None {
        match parsed_target(arg) {
            Ok(t) => Ok(ArgsView { target: Some(t), ..st }),
            Err(e) => Err(e),
        }
    } else {
        Err("unexpected argument '"@ + arg + "'"@)
    }
}

/// Reads arguments from left to right, up to the first one that is refused.
pub open spec fn scanned(args: Seq<Seq<char>>, st: ArgsView) -> Result<ArgsView, Seq<char>>
    decreases args.len(),
{
    if args.len() == 0 {
        Ok(st)
    } else if takes_value(args[0]) {
        if args.len() == 1 {
            Err(args[0] + " requires a value"@)
        } else {
            match with_value(st, args[0], args[1]) {
                Ok(next) => scanned(args.skip(2), next),
                Err(e) => Err(e),
            }
        }
    } else {
        match with_word(st, args[0]) {
            Ok(next) => scanned(args.skip(1), next),
            Err(e) => Err(e),
        }
    }
}

/// What a command line says, or why it is refused.
pub open spec fn parsed_args(args: Seq<Seq<char>>) -> Result<OptionsView, Seq<char>> {
    match scanned(args, no_args()) {
        Err(e) => Err(e),
        Ok(st) => if st.json && st.tui {
            Err("--json and --tui are mutually exclusive"@)
        } else {
            match st.target {
                None => Err("missing ssh target (try --help)"@),
                Some(target) => Ok(
                    OptionsView {
                        target,
                        remote_port: st.remote_port,
                        local_port: st.local_port,
                        json: st.json,
                        reconnect: st.reconnect,
                        max_retries: st.max_retries,
                        start: st.start,
                        remote_bin: st.remote_bin,
                        tui: st.tui,
                    },
                ),
            }
        },
    }
}

/// Whether `r` is what the texts `want` say.
pub open spec fn is_options(
    r: Result<ConnectOptions, String>,
    want: Result<OptionsView, Seq<char>>,
) -> bool {
    match (r, want) {
        (Ok(o), Ok(w)) => o@ == w,
        (Err(e), Err(w)) => e@ == w,
        _ => false,
    }
}

/// The command line as read so far.
struct Args {
    target: Option<SshTarget>,
    remote_port: u16,
    local_port: Option<u16>,
    json: bool,
    reconnect: bool,
    max_retries: Option<u32>,
    start: bool,
    remote_bin: String,
    tui: bool,
}

impl View for Args {
    type V = ArgsView;

    closed spec fn view(&self) -> ArgsView {
        ArgsView {
            target: match self.target {
                Some(t) => Some(t@),
                None => None,
            },
            remote_port: self.remote_port,
            local_port: self.local_port,
            json: self.json,
            reconnect: self.reconnect,
            max_retries: self.max_retries,
            start: self.start,
            remote_bin: self.remote_bin@,
            tui: self.tui,
        }
    }
}

/// Reads an option that takes a value.
fn read_value(st: &mut Args, arg: &str, value: &str) -> (r: Result<(), String>)
    requires
        takes_value(arg@),
    ensures
        match (r, with_value(old(st)@, arg@, value@)) {
            (Ok(_), Ok(next)) => final(st)@ == next,
            (Err(e), Err(want)) => e@ == want,
            _ => false,
        },
{
    if same(arg, "--remote-port") {
        match parse_unsigned(value, u16::MAX as u64) {
            Some(p) => {
                st.remote_port = p as u16;
                Ok(())
            },
            None => Err("invalid --remote-port".to_owned()),
        }
    } else if same(arg, "--local-port") {
        match parse_unsigned(value, u16::MAX as u64) {
            Some(p) => {
                st.local_port = Some(p as u16);
                Ok(())
            },
            None => Err("invalid --local-port".to_owned()),
        }
    } else if same(arg, "--max-retries") {
        match parse_unsigned(value, u32::MAX as u64) {
            Some(n) => {
                st.max_retries = Some(n as u32);
                Ok(())
            },
            None => Err("invalid --max-retries".to_owned()),
        }
    } else {
        st.remote_bin = value.to_owned();
        Ok(())
    }
}

/// Reads a word that stands alone.
fn read_word(st: &mut Args, arg: &str) -> (r: Result<(), String>)
    ensures
        match (r, with_word(old(st)@, arg@)) {
            (Ok(_), Ok(next)) => final(st)@ == next,
            (Err(e), Err(want)) => e@ == want,
            _ => false,
        },
{
    if same(arg, "--json") {
        st.json = true;
        Ok(())
    } else if same(arg, "--no-reconnect") {
        st.reconnect = false;
        Ok(())
    } else if same(arg, "--start") {
        st.start = true;
        Ok(())
    } else if same(arg, "--tui") {
        st.tui = true;
        Ok(())
    } else if same(arg, "--help") || same(arg, "-h") {
        Err(USAGE.to_owned())
    } else if st.target.is_none() {
        match parse_target(arg) {
            Ok(t) => {
                st.target = Some(t);
                Ok(())
            },
            Err(e) => Err(e),
        }
    } else {
        Err(around("unexpected argument '", arg, "'"))
    }
}

fn value_follows(arg: &str) -> (r: bool)
    ensures
        r == takes_value(arg@),
{
    same(arg, "--remote-port") || same(arg, "--local-port") || same(arg, "--max-retries") || same(
        arg,
        "--remote-bin",
    )
}

/// Reads the command line of `connect`.
pub fn parse_args(args: &[String]) -> (r: Result<ConnectOptions, String>)
    ensures
        is_options(r, parsed_args(texts(args@))),
{
    let ghost all = texts(args@);
    let mut st = Args {
        target: None,
        remote_port: DEFAULT_REMOTE_PORT,
        local_port: None,
        json: false,
        reconnect: true,
        max_retries: None,
        start: false,
        remote_bin: "astroburst-server".to_owned(),
        tui: false,
    };
    let mut i: usize = 0;
    assert(all.skip(0) =~= all);
    while i < args.len()
        invariant
            i <= args@.len(),
            all == texts(args@),
            scanned(all, no_args()) == scanned(all.skip(i as int), st@),
        decreases args.len() - i,
    {
        let arg = args[i].as_str();
        assert(all.skip(i as int)[0] == arg@);
        if value_follows(arg) {
            if i + 1 == args.len() {
                let mut message = arg.to_owned();
                message.append(" requires a value");
                return Err(message);
            }
            assert(all.skip(i as int)[1] == args@[i + 1]@);
            assert(all.skip(i as int).skip(2) =~= all.skip(i + 2));
            match read_value(&mut st, arg, args[i + 1].as_str()) {
                Ok(_) => {},
                Err(e) => {
                    return Err(e);
                },
            }
            i = i + 2;
        } else {
            assert(all.skip(i as int).skip(1) =~= all.skip(i + 1));
            match read_word(&mut st, arg) {
                Ok(_) => {},
                Err(e) => {
                    return Err(e);
                },
            }
            i = i + 1;
        }
    }
    if st.json && st.tui {
        return Err("--json and --tui are mutually exclusive".to_owned());
    }
    match st.target {
        None => Err("missing ssh target (try --help)".to_owned()),
        Some(target) => Ok(
            ConnectOptions {
                target,
                remote_port: st.remote_port,
                local_port: st.local_port,
                json: st.json,
                reconnect: st.reconnect,
                max_retries: st.max_retries,
                start: st.start,
                remote_bin: st.remote_bin,
                tui: st.tui,
            },
        ),
    }
}

/// The arguments of `ssh` for the tunnel. Both ends are the v4 loopback.
pub open spec fn ssh_args(target: TargetView, local_port: u16, remote_port: u16) -> Seq<Seq<char>> {
    seq![
        "-N"@,
        "-L"@,
        "127.0.0.1:"@ + decimal(local_port as nat) + ":127.0.0.1:"@ + decimal(remote_port as nat),
        "-o"@,
        "ExitOnForwardFailure=yes"@,
        "-o"@,
        "ServerAliveInterval="@ + decimal(SERVER_ALIVE_INTERVAL as nat),
        "-o"@,
        "ServerAliveCountMax="@ + decimal(SERVER_ALIVE_COUNT_MAX as nat),
        "-o"@,
        "BatchMode=yes"@,
    ] + port_args(target.ssh_port) + seq![target.destination]
}

/// The option that names the SSH port, where there is one.
pub open spec fn port_args(port: Option<u16>) -> Seq<Seq<char>> {
    match port {
        Some(p) => seq!["-p"@, decimal(p as nat)],
        None => Seq::empty(),
    }
}

/// `label` followed by a number.
pub(crate) fn with_number(label: &str, n: u64) -> (s: String)
    ensures
        s@ == label@ + decimal(n as nat),
{
    let mut s = label.to_owned();
    let digits = format_unsigned(n);
    s.append(digits.as_str());
    s
}

/// The arguments of `ssh`, without the program's name, for the tunnel process.
pub fn build_ssh_args(target: &SshTarget, local_port: u16, remote_port: u16) -> (args: Vec<String>)
    ensures
        texts(args@) == ssh_args(target@, local_port, remote_port),
{
    let mut forward = with_number("127.0.0.1:", local_port as u64);
    let remote = with_number(":127.0.0.1:", remote_port as u64);
    forward.append(remote.as_str());
    assert(forward@ =~= "127.0.0.1:"@ + decimal(local_port as nat) + ":127.0.0.1:"@ + decimal(
        remote_port as nat,
    ));
    let mut args: Vec<String> = Vec::new();
    args.push("-N".to_owned());
    args.push("-L".to_owned());
    args.push(forward);
    args.push("-o".to_owned());
    args.push("ExitOnForwardFailure=yes".to_owned());
    args.push("-o".to_owned());
    args.push(with_number("ServerAliveInterval=", SERVER_ALIVE_INTERVAL));
    args.push("-o".to_owned());
    args.push(with_number("ServerAliveCountMax=", SERVER_ALIVE_COUNT_MAX));
    args.push("-o".to_owned());
    args.push("BatchMode=yes".to_owned());
    if let Some(p) = target.ssh_port {
        args.push("-p".to_owned());
        args.push(format_unsigned(p as u64));
    }
    args.push(target.destination.clone());
    assert(texts(args@) =~= ssh_args(target@, local_port, remote_port));
    args
}

/// The local end of the tunnel, where it is fixed; none where a free port is to be picked.
pub fn chosen_local_port(local_port: Option<u16>) -> (port: Option<u16>)
    ensures
        port == match local_port {
            Some(p) => if p == 0 {
                None
            } else {
                Some(p)
            },
            None => Some(DEFAULT_LOCAL_PORT),
        },
{
    match local_port {
        Some(0) => None,
        Some(p) => Some(p),
        None => Some(DEFAULT_LOCAL_PORT),
    }
}

/// The outcome of one `/health` probe through the tunnel.
#[derive(Debug, PartialEq)]
pub enum ProbeResult {
    /// HTTP 200 with the health body.
    Healthy(String),
    /// The local port refused: the tunnel itself is not up.
    TunnelNotUp,
    /// The tunnel accepted, but no answer came through it: nothing listens at the remote end.
    RemoteNotListening,
}

/// What a `ProbeResult` says.
pub enum ProbeView {
    Healthy(Seq<char>),
    TunnelNotUp,
    RemoteNotListening,
}

impl View for ProbeResult {
    type V = ProbeView;

    open spec fn view(&self) -> ProbeView {
        match self {
            ProbeResult::Healthy(body) => ProbeView::Healthy(body@),
            ProbeResult::TunnelNotUp => ProbeView::TunnelNotUp,
            ProbeResult::RemoteNotListening => ProbeView::RemoteNotListening,
        }
    }
}

/// The request of the probe.
pub open spec fn probe_request_text(local_port: u16) -> Seq<char> {
    "GET /health HTTP/1.1\r\nHost: 127.0.0.1:"@ + decimal(local_port as nat)
        + "\r\nConnection: close\r\n\r\n"@
}

/// The request that asks for `/health` through the tunnel.
pub fn probe_request(local_port: u16) -> (request: String)
    ensures
        request@ == probe_request_text(local_port),
{
    let mut request = with_number("GET /health HTTP/1.1\r\nHost: 127.0.0.1:", local_port as u64);
    request.append("\r\nConnection: close\r\n\r\n");
    request
}

/// What the answer to a probe shows: health where it opens with status 200, and the body is what
/// follows the first empty line, trimmed.
pub open spec fn probe_outcome(response: Seq<char>) -> ProbeView {
    if "HTTP/1.1 200"@.is_prefix_of(response) || "HTTP/1.0 200"@.is_prefix_of(response) {
        let i = place_of(response, "\r\n\r\n"@, 0);
        if i < 0 {
            ProbeView::Healthy(Seq::empty())
        } else {
            ProbeView::Healthy(trimmed(response.skip(i + "\r\n\r\n"@.len())))
        }
    } else {
        ProbeView::RemoteNotListening
    }
}

/// Reads the answer to a probe; an empty one is none.
pub fn read_probe(response: &str) -> (r: ProbeResult)
    ensures
        r@ == probe_outcome(response@),
{
    if !starts_with(response, "HTTP/1.1 200") && !starts_with(response, "HTTP/1.0 200") {
        return ProbeResult::RemoteNotListening;
    }
    match split_once_text(response, "\r\n\r\n") {
        Some((_, body)) => ProbeResult::Healthy(trim(body).to_owned()),
        None => ProbeResult::Healthy(String::new()),
    }
}

/// What the bytes of an answer show: where none came, nothing listens at the remote end.
pub open spec fn answered(response: Seq<u8>) -> ProbeView {
    if response.len() == 0 {
        ProbeView::RemoteNotListening
    } else {
        probe_outcome(lossy_of(response))
    }
}

/// Reads the bytes that came through the tunnel.
pub fn probe_answer(response: &[u8]) -> (r: ProbeResult)
    ensures
        r@ == answered(response@),
{
    if response.len() == 0 {
        return ProbeResult::RemoteNotListening;
    }
    let text = lossy(response);
    read_probe(text.as_str())
}

/// A wait for the remote server: probes follow one another until one finds it healthy, or the time
/// is up.
pub struct HealthWait {
    last: ProbeResult,
}

impl View for HealthWait {
    type V = ProbeView;

    /// What the wait ends with where the time is up.
    closed spec fn view(&self) -> ProbeView {
        self.last@
    }
}

impl HealthWait {
    /// A wait without a probe so far.
    pub fn new() -> (w: Self)
        ensures
            w@ is TunnelNotUp,
    {
        HealthWait { last: ProbeResult::TunnelNotUp }
    }

    /// Takes in a probe; whether the wait is over.
    pub fn on_probe(&mut self, probe: ProbeResult) -> (over: bool)
        ensures
            final(self)@ == probe@,
            over == (probe@ is Healthy),
    {
        let over = match &probe {
            ProbeResult::Healthy(_) => true,
            _ => false,
        };
        self.last = probe;
        over
    }

    /// The last probe.
    pub fn outcome(self) -> (r: ProbeResult)
        ensures
            r@ == self@,
    {
        self.last
    }
}

/// A line that `ssh` prints for each forwarded connection while nothing listens at the remote end.
pub open spec fn channel_refused(line: Seq<char>) -> bool {
    let l = trimmed_start(line);
    &&& "channel "@.is_prefix_of(l)
    &&& occurs(l, "open failed"@)
    &&& occurs(l, "Connection refused"@)
}

/// Whether a line of `ssh` only repeats that nothing listens at the remote end.
pub fn is_channel_refused_noise(line: &str) -> (r: bool)
    ensures
        r == channel_refused(line@),
{
    let l = trim_start(line);
    starts_with(l, "channel ") && contains(l, "open failed") && contains(l, "Connection refused")
}

/// The characters that a shell takes as they are.
pub open spec fn is_plain(c: char) -> bool {
    ||| 'a' <= c <= 'z'
    ||| 'A' <= c <= 'Z'
    ||| '0' <= c <= '9'
    ||| c == '/'
    ||| c == '-'
    ||| c == '_'
    ||| c == '.'
}

/// A text inside single quotes: a single quote leaves the quotes, stands escaped, and opens them
/// again.
pub open spec fn escaped(s: Seq<char>) -> Seq<char>
    decreases s.len(),
{
    if s.len() == 0 {
        Seq::empty()
    } else if s[0] == '\'' {
        seq!['\'', '\\', '\'', '\''] + escaped(s.skip(1))
    } else {
        seq![s[0]] + escaped(s.skip(1))
    }
}

/// A text as one word of a shell's command line.
pub open spec fn quoted(s: Seq<char>) -> Seq<char> {
    if forall|i: int| 0 <= i < s.len() ==> is_plain(#[trigger] s[i]) {
        s
    } else {
        seq!['\''] + escaped(s) + seq!['\'']
    }
}

/// What a POSIX shell reads from a word of plain characters, single quotes and backslashes;
/// `inside` tells whether a single quote is open.
pub open spec fn shell_word(s: Seq<char>, inside: bool) -> Option<Seq<char>>
    decreases s.len(),
{
    if s.len() == 0 {
        if inside {
            None
        } else {
            Some(Seq::empty())
        }
    } else if s[0] == '\'' {
        shell_word(s.skip(1), !inside)
    } else if inside || is_plain(s[0]) {
        match shell_word(s.skip(1), inside) {
            Some(w) => Some(seq![s[0]] + w),
            None => None,
        }
    } else if s[0] == '\\' && s.len() > 1 {
        match shell_word(s.skip(2), false) {
            Some(w) => Some(seq![s[1]] + w),
            None => None,
        }
    } else {
        None
    }
}

/// Quotes a text as one word for the remote command line.
pub fn shell_quote(s: &str) -> (q: String)
    ensures
        q@ == quoted(s@),
{
    let v = crate::text::chars_of(s);
    let mut plain = true;
    let mut i: usize = 0;
    while i < v.len()
        invariant
            i <= v@.len(),
            v@ == s@,
            plain == (forall|j: int| 0 <= j < i ==> is_plain(#[trigger] s@[j])),
        decreases v.len() - i,
    {
        let c: char = v[i];
        let ok = ('a' <= c && c <= 'z') || ('A' <= c && c <= 'Z') || ('0' <= c && c <= '9') || c
            == '/' || c == '-' || c == '_' || c == '.';
        assert(ok == is_plain(s@[i as int]));
        plain = plain && ok;
        i = i + 1;
    }
    if plain {
        return s.to_owned();
    }
    let mut q = String::new();
    q.push('\'');
    let mut k: usize = 0;
    assert(s@.skip(0) =~= s@);
    assert(q@ + escaped(s@) =~= seq!['\''] + escaped(s@));
    while k < v.len()
        invariant
            k <= v@.len(),
            v@ == s@,
            q@ + escaped(s@.skip(k as int)) == seq!['\''] + escaped(s@),
        decreases v.len() - k,
    {
        let ghost before = q@;
        let ghost left = s@.skip(k as int);
        let c: char = v[k];
        if c == '\'' {
            q.push('\'');
            q.push('\\');
            q.push('\'');
            q.push('\'');
            assert(before + escaped(left) =~= q@ + escaped(left.skip(1)));
        } else {
            q.push(c);
            assert(before + escaped(left) =~= q@ + escaped(left.skip(1)));
        }
        assert(left.skip(1) =~= s@.skip(k + 1));
        k = k + 1;
    }
    assert(q@ =~= seq!['\''] + escaped(s@));
    q.push('\'');
    assert(q@ =~= seq!['\''] + escaped(s@) + seq!['\'']);
    q
}

proof fn lemma_escaped_reads_back(s: Seq<char>)
    ensures
        shell_word(escaped(s) + seq!['\''], true) == Some(s),
    decreases s.len(),
{
    let text = escaped(s) + seq!['\''];
    if s.len() == 0 {
        assert(text =~= seq!['\'']);
        assert(text.skip(1) =~= Seq::<char>::empty());
        assert(shell_word(text.skip(1), false) == Some(Seq::<char>::empty()));
        assert(s =~= Seq::<char>::empty());
    } else {
        let more = escaped(s.skip(1)) + seq!['\''];
        lemma_escaped_reads_back(s.skip(1));
        assert(seq![s[0]] + s.skip(1) =~= s);
        if s[0] == '\'' {
            let t1 = text.skip(1);
            let t3 = t1.skip(2);
            assert(text[0] == '\'' && t1[0] == '\\' && t1[1] == '\'' && t3[0] == '\'');
            assert(t3.skip(1) =~= more);
            assert(shell_word(t3, false) == Some(s.skip(1)));
            assert(shell_word(t1, false) == Some(seq!['\''] + s.skip(1)));
        } else {
            assert(text.skip(1) =~= more);
            assert(text[0] == s[0]);
        }
    }
}

proof fn lemma_plain_reads_back(s: Seq<char>)
    requires
        forall|i: int| 0 <= i < s.len() ==> is_plain(#[trigger] s[i]),
    ensures
        shell_word(s, false) == Some(s),
    decreases s.len(),
{
    if s.len() == 0 {
        assert(s =~= Seq::<char>::empty());
    } else {
        assert(is_plain(s[0]));
        assert forall|i: int| 0 <= i < s.skip(1).len() implies is_plain(#[trigger] s.skip(1)[i]) by {
            assert(is_plain(s[i + 1]));
        }
        lemma_plain_reads_back(s.skip(1));
        assert(seq![s[0]] + s.skip(1) =~= s);
    }
}

/// The machine-readable line and the dashboard exclude each other.
pub proof fn output_is_of_one_kind(args: Seq<Seq<char>>)
    ensures
        parsed_args(args) matches Ok(o) ==> !(o.json && o.tui),
{
}

/// A shell reads back from the quoted word the text that was quoted.
pub proof fn quoting_reads_back(s: Seq<char>)
    ensures
        shell_word(quoted(s), false) == Some(s),
{
    if forall|i: int| 0 <= i < s.len() ==> is_plain(#[trigger] s[i]) {
        lemma_plain_reads_back(s);
    } else {
        lemma_escaped_reads_back(s);
        let text = seq!['\''] + escaped(s) + seq!['\''];
        assert(text.skip(1) =~= escaped(s) + seq!['\'']);
    }
}

/// The remote script of `--start`: it looks for the binary, starts it detached with its output
/// in a log, and shows the end of that log where the server dies at once.
pub open spec fn start_script_text(opts: OptionsView) -> Seq<char> {
    let port = decimal(opts.remote_port as nat);
    "bin="@ + quoted(opts.remote_bin) + SCRIPT_LOG@ + port + SCRIPT_CHECK@ + port + SCRIPT_WATCH@
        + opts.target.destination + SCRIPT_END@
}

/// The start script, between the quoted binary and the port in the name of its log.
pub const SCRIPT_LOG: &'static str = "; log=\"${TMPDIR:-/tmp}/astroburst-server-";

/// The start script, up to the address to bind.
pub const SCRIPT_CHECK: &'static str =
    ".log\"; \\\nif ! command -v \"$bin\" >/dev/null 2>&1 && [ ! -x \"$bin\" ]; then \\\n  echo \"astroburst-connect: remote binary '$bin' not found on PATH and is not an executable path\" >&2; \\\n  echo \"astroburst-connect: pass --remote-bin with an absolute path (a non-login ssh shell often omits ~/.cargo/bin, ~/.local/bin)\" >&2; \\\n  exit 127; \\\nfi; \\\nnohup env ASTROBURST_BIND=127.0.0.1:";

/// The start script, up to the destination in its complaint.
pub const SCRIPT_WATCH: &'static str =
    " \"$bin\" >\"$log\" 2>&1 & \\\npid=$!; sleep 1; \\\nif ! kill -0 \"$pid\" 2>/dev/null; then \\\n  echo \"astroburst-connect: remote server exited immediately (see $log on ";

/// The start script, to its end.
pub const SCRIPT_END: &'static str =
    "); last lines:\" >&2; \\\n  tail -n 20 \"$log\" >&2 2>/dev/null || true; \\\n  exit 1; \\\nfi; \\\necho \"astroburst-connect: remote server started (pid $pid, logging to $log)\" >&2";

/// The script that launches the remote server.
pub fn start_script(opts: &ConnectOptions) -> (script: String)
    ensures
        script@ == start_script_text(opts@),
{
    let port = format_unsigned(opts.remote_port as u64);
    let bin = shell_quote(opts.remote_bin.as_str());
    let mut script = "bin=".to_owned();
    script.append(bin.as_str());
    script.append(SCRIPT_LOG);
    script.append(port.as_str());
    script.append(SCRIPT_CHECK);
    script.append(port.as_str());
    script.append(SCRIPT_WATCH);
    script.append(opts.target.destination.as_str());
    script.append(SCRIPT_END);
    script
}

/// The arguments of `ssh` that run the remote script.
pub open spec fn start_args_of(opts: OptionsView) -> Seq<Seq<char>> {
    seq!["-o"@, "BatchMode=yes"@] + port_args(opts.target.ssh_port) + seq![
        opts.target.destination,
        start_script_text(opts),
    ]
}

/// The arguments of `ssh`, without the program's name, that launch the remote server.
pub fn start_args(opts: &ConnectOptions) -> (args: Vec<String>)
    ensures
        texts(args@) == start_args_of(opts@),
{
    let mut args: Vec<String> = Vec::new();
    args.push("-o".to_owned());
    args.push("BatchMode=yes".to_owned());
    if let Some(p) = opts.target.ssh_port {
        args.push("-p".to_owned());
        args.push(format_unsigned(p as u64));
    }
    args.push(opts.target.destination.clone());
    args.push(start_script(opts));
    assert(texts(args@) =~= start_args_of(opts@));
    args
}

/// Why `--start` failed, where the remote script reported a failure.
pub fn start_failure(opts: &ConnectOptions) -> (reason: String)
    ensures
        reason@ == "--start failed to bring up astroburst-server on "@ + opts.target.destination@
            + " (see messages above)"@,
{
    around(
        "--start failed to bring up astroburst-server on ",
        opts.target.destination.as_str(),
        " (see messages above)",
    )
}

} // verus!
