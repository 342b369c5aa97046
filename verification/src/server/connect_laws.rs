//! What the command line of `connect` means, and what is run and read on its account, stated of the
//! texts themselves.

use vstd::prelude::*;
use vstd::string::*;
use crate::server::connect::{
    answered, channel_refused, compatible, escaped, is_plain, major_minor_of, no_args, parsed_args,
    parsed_target, probe_outcome, probe_request_text, quoted, scanned, ssh_args, start_args_of,
    start_script_text, takes_value, ArgsView, OptionsView, ProbeView, TargetView, SCRIPT_CHECK,
    SCRIPT_LOG, SCRIPT_WATCH,
};
use crate::text::{
    all_digits, decimal, is_space, occurs, occurs_at, place_of, trimmed, without_trailing,
};
use crate::text_laws::{
    a_part_is_found_where_it_first_stands, decimals_spell_their_number, lemma_first_is,
    lemma_last_is, lemma_trimmed_whole, only_the_trailing_characters_go,
    one_end_is_trimmed_alone, trimming_takes_the_space_around, written_numbers_are_read_back,
};

verus! {

/// A version is read by its first two numbers, whatever comes behind them.
pub proof fn versions_are_read_by_two_numbers(major: u64, minor: u64, patch: Seq<char>)
    requires
        patch.len() > 0 ==> patch[0] == '.' && !is_space(patch.last()),
    ensures
        major_minor_of(decimal(major as nat) + "."@ + decimal(minor as nat) + patch) == Some(
            (major, minor),
        ),
{
    reveal_strlit(".");
    let a = decimal(major as nat);
    let b = decimal(minor as nat);
    let s = a + "."@ + b + patch;
    decimals_spell_their_number(major as nat);
    decimals_spell_their_number(minor as nat);
    assert(!is_space(s[0])) by {
        assert(s[0] == a[0]);
    }
    assert(!is_space(s.last())) by {
        if patch.len() == 0 {
            assert(s.last() == b.last());
        } else {
            assert(s.last() == patch.last());
        }
    }
    lemma_trimmed_whole(s);
    let i = a.len() as int;
    assert(s[i] == '.');
    assert forall|j: int| 0 <= j < i implies #[trigger] s[j] != '.' by {
        assert(s[j] == a[j]);
    }
    lemma_first_is(s, '.', i);
    assert(s.take(i) =~= a);
    let behind = s.skip(i + 1);
    assert(behind =~= b + patch);
    assert forall|j: int| 0 <= j < b.len() implies #[trigger] behind[j] != '.' by {
        assert(behind[j] == b[j]);
    }
    if patch.len() > 0 {
        assert(behind[b.len() as int] == patch[0]);
    }
    lemma_first_is(behind, '.', b.len() as int);
    assert(behind.take(b.len() as int) =~= b);
    written_numbers_are_read_back(major as nat, u64::MAX as nat);
    written_numbers_are_read_back(minor as nat, u64::MAX as nat);
}

/// Two versions agree if and only if their first two numbers do; the rest does not matter.
pub proof fn versions_agree_by_two_numbers(
    a: (u64, u64),
    b: (u64, u64),
    pa: Seq<char>,
    pb: Seq<char>,
)
    requires
        pa.len() > 0 ==> pa[0] == '.' && !is_space(pa.last()),
        pb.len() > 0 ==> pb[0] == '.' && !is_space(pb.last()),
    ensures
        compatible(
            decimal(a.0 as nat) + "."@ + decimal(a.1 as nat) + pa,
            decimal(b.0 as nat) + "."@ + decimal(b.1 as nat) + pb,
        ) <==> a.0 == b.0 && a.1 == b.1,
{
    versions_are_read_by_two_numbers(a.0, a.1, pa);
    versions_are_read_by_two_numbers(b.0, b.1, pb);
}

proof fn lemma_no_trailing(s: Seq<char>, slashes: Seq<char>)
    requires
        s.len() > 0,
        s.last() != '/',
        forall|i: int| 0 <= i < slashes.len() ==> #[trigger] slashes[i] == '/',
    ensures
        without_trailing(s + slashes, '/') == s,
{
    let all = s + slashes;
    let t = without_trailing(all, '/');
    only_the_trailing_characters_go(all, '/');
    if t.len() > s.len() {
        assert(t.last() == all[t.len() - 1]);
        assert(all[t.len() - 1] == slashes[t.len() - 1 - s.len()]);
    }
    if t.len() < s.len() {
        assert(all[s.len() - 1] == s.last());
    }
    assert(t =~= s);
}

/// The port of an `ssh://` target is the number behind its last colon, and what stands before it is
/// the destination; a target without a number there has no port, and a bare word is a destination
/// as it stands. Slashes at the end of a URL do not count.
pub proof fn targets_name_a_host_and_a_port(host: Seq<char>, port: nat, slashes: Seq<char>)
    requires
        host.len() > 0,
        forall|i: int| 0 <= i < slashes.len() ==> #[trigger] slashes[i] == '/',
    ensures
        port <= 65535 ==> parsed_target("ssh://"@ + host + ":"@ + decimal(port) + slashes) == Ok::<
            TargetView,
            Seq<char>,
        >(TargetView { destination: host, ssh_port: Some(port as u16) }),
        port > 65535 ==> parsed_target("ssh://"@ + host + ":"@ + decimal(port) + slashes) == Err::<
            TargetView,
            Seq<char>,
        >("invalid ssh port '"@ + decimal(port) + "'"@),
        host.last() != '/' && (forall|i: int| 0 <= i < host.len() ==> #[trigger] host[i] != ':')
            ==> parsed_target("ssh://"@ + host + slashes) == Ok::<TargetView, Seq<char>>(
            (TargetView { destination: host, ssh_port: None }),
        ),
        host[0] != '-' && !"ssh://"@.is_prefix_of(host) ==> parsed_target(host) == Ok::<
            TargetView,
            Seq<char>,
        >((TargetView { destination: host, ssh_port: None })),
        host[0] == '-' ==> parsed_target(host) == Err::<TargetView, Seq<char>>(
            "invalid ssh target '"@ + host + "'"@,
        ),
{
    reveal_strlit("ssh://");
    reveal_strlit(":");
    let digits = decimal(port);
    decimals_spell_their_number(port);
    let rest = host + ":"@ + digits;
    let url = "ssh://"@ + host + ":"@ + digits + slashes;
    assert("ssh://"@ =~= url.subrange(0, 6));
    assert(url.skip(6) =~= rest + slashes);
    assert(rest.last() == digits.last());
    lemma_no_trailing(rest, slashes);
    let i = host.len() as int;
    assert(rest[i] == ':');
    assert forall|j: int| i < j < rest.len() implies #[trigger] rest[j] != ':' by {
        assert(rest[j] == digits[j - i - 1]);
    }
    lemma_last_is(rest, ':', i);
    assert(rest.skip(i + 1) =~= digits);
    assert(rest.take(i) =~= host);
    assert(all_digits(digits));
    written_numbers_are_read_back(port, u16::MAX as nat);
    if host.last() != '/' && (forall|i: int| 0 <= i < host.len() ==> #[trigger] host[i] != ':') {
        let bare = "ssh://"@ + host + slashes;
        assert("ssh://"@ =~= bare.subrange(0, 6));
        assert(bare.skip(6) =~= host + slashes);
        lemma_no_trailing(host, slashes);
        lemma_last_is(host, ':', -1);
    }
    if host[0] == '-' && "ssh://"@.is_prefix_of(host) {
        assert(host.subrange(0, 6)[0] == host[0]);
    }
}

/// An empty target is none.
pub proof fn an_empty_target_is_refused(slashes: Seq<char>)
    requires
        forall|i: int| 0 <= i < slashes.len() ==> #[trigger] slashes[i] == '/',
    ensures
        parsed_target(Seq::empty()) is Err,
        parsed_target("ssh://"@ + slashes) == Err::<TargetView, Seq<char>>("empty ssh:// target"@),
{
    reveal_strlit("ssh://");
    let url = "ssh://"@ + slashes;
    assert("ssh://"@ =~= url.subrange(0, 6));
    assert(url.skip(6) =~= slashes);
    let t = without_trailing(slashes, '/');
    only_the_trailing_characters_go(slashes, '/');
    if t.len() > 0 {
        assert(slashes[t.len() - 1] == '/');
    }
}

proof fn lemma_words()
    ensures
        takes_value("--remote-port"@) && takes_value("--local-port"@) && takes_value(
            "--max-retries"@,
        ) && takes_value("--remote-bin"@),
        !takes_value("--json"@) && !takes_value("--no-reconnect"@) && !takes_value("--start"@)
            && !takes_value("--tui"@) && !takes_value("--help"@) && !takes_value("-h"@),
        "--local-port"@ != "--remote-port"@,
        "--max-retries"@ != "--remote-port"@ && "--max-retries"@ != "--local-port"@,
        "--remote-bin"@ != "--remote-port"@ && "--remote-bin"@ != "--local-port"@ && "--remote-bin"@
            != "--max-retries"@,
        "--no-reconnect"@ != "--json"@,
        "--start"@ != "--json"@ && "--start"@ != "--no-reconnect"@,
        "--tui"@ != "--json"@ && "--tui"@ != "--no-reconnect"@ && "--tui"@ != "--start"@,
        "--help"@ != "--json"@ && "--help"@ != "--no-reconnect"@ && "--help"@ != "--start"@
            && "--help"@ != "--tui"@,
        "-h"@ != "--json"@ && "-h"@ != "--no-reconnect"@ && "-h"@ != "--start"@ && "-h"@ != "--tui"@,
{
    reveal_strlit("--remote-port");
    reveal_strlit("--local-port");
    reveal_strlit("--max-retries");
    reveal_strlit("--remote-bin");
    reveal_strlit("--json");
    reveal_strlit("--no-reconnect");
    reveal_strlit("--start");
    reveal_strlit("--tui");
    reveal_strlit("--help");
    reveal_strlit("-h");
    assert("--remote-port"@.len() == 13 && "--remote-port"@[2] == 'r');
    assert("--local-port"@.len() == 12 && "--local-port"@[2] == 'l');
    assert("--max-retries"@.len() == 13 && "--max-retries"@[2] == 'm');
    assert("--remote-bin"@.len() == 12 && "--remote-bin"@[2] == 'r');
    assert("--json"@.len() == 6 && "--json"@[2] == 'j');
    assert("--no-reconnect"@.len() == 14);
    assert("--start"@.len() == 7);
    assert("--tui"@.len() == 5);
    assert("--help"@.len() == 6 && "--help"@[2] == 'h');
    assert("-h"@.len() == 2);
}

/// Whether a text is a word that can stand for a target: none of the options.
pub open spec fn is_no_option(word: Seq<char>) -> bool {
    word.len() > 0 && word[0] != '-'
}

proof fn lemma_no_option(word: Seq<char>)
    requires
        is_no_option(word),
    ensures
        !takes_value(word),
        word != "--json"@ && word != "--no-reconnect"@ && word != "--start"@ && word != "--tui"@
            && word != "--help"@ && word != "-h"@,
{
    reveal_strlit("--remote-port");
    reveal_strlit("--local-port");
    reveal_strlit("--max-retries");
    reveal_strlit("--remote-bin");
    reveal_strlit("--json");
    reveal_strlit("--no-reconnect");
    reveal_strlit("--start");
    reveal_strlit("--tui");
    reveal_strlit("--help");
    reveal_strlit("-h");
    assert("--remote-port"@[0] == '-' && "--local-port"@[0] == '-' && "--max-retries"@[0] == '-'
        && "--remote-bin"@[0] == '-' && "--json"@[0] == '-' && "--no-reconnect"@[0] == '-'
        && "--start"@[0] == '-' && "--tui"@[0] == '-' && "--help"@[0] == '-' && "-h"@[0] == '-');
}

/// A target alone means the defaults: both ports 8097, any number of reconnections, output in
/// lines, nothing started, and `astroburst-server` as the remote binary.
pub proof fn a_target_alone_means_the_defaults(word: Seq<char>, target: TargetView)
    requires
        is_no_option(word),
        parsed_target(word) == Ok::<TargetView, Seq<char>>(target),
    ensures
        parsed_args(seq![word]) == Ok::<OptionsView, Seq<char>>(
            (OptionsView {
                target,
                remote_port: 8097,
                local_port: None,
                json: false,
                reconnect: true,
                max_retries: None,
                start: false,
                remote_bin: "astroburst-server"@,
                tui: false,
            }),
        ),
        crate::server::connect::DEFAULT_LOCAL_PORT == 8097,
{
    lemma_no_option(word);
    let args = seq![word];
    assert(args.skip(1) =~= Seq::<Seq<char>>::empty());
    reveal_with_fuel(scanned, 3);
}

/// Every option sets what it names and nothing else, wherever it stands among the others: reading
/// goes on behind an option and its value, or behind a flag, with that one thing changed.
pub proof fn options_set_what_they_name(
    st: ArgsView,
    more: Seq<Seq<char>>,
    n: nat,
    text: Seq<char>,
)
    ensures
        n <= 65535 ==> scanned(seq!["--remote-port"@, decimal(n)] + more, st) == scanned(
            more,
            (ArgsView { remote_port: n as u16, ..st }),
        ),
        n <= 65535 ==> scanned(seq!["--local-port"@, decimal(n)] + more, st) == scanned(
            more,
            (ArgsView { local_port: Some(n as u16), ..st }),
        ),
        n <= 4294967295 ==> scanned(seq!["--max-retries"@, decimal(n)] + more, st) == scanned(
            more,
            (ArgsView { max_retries: Some(n as u32), ..st }),
        ),
        scanned(seq!["--remote-bin"@, text] + more, st) == scanned(
            more,
            (ArgsView { remote_bin: text, ..st }),
        ),
        scanned(seq!["--json"@] + more, st) == scanned(more, (ArgsView { json: true, ..st })),
        scanned(seq!["--no-reconnect"@] + more, st) == scanned(
            more,
            (ArgsView { reconnect: false, ..st }),
        ),
        scanned(seq!["--start"@] + more, st) == scanned(more, (ArgsView { start: true, ..st })),
        scanned(seq!["--tui"@] + more, st) == scanned(more, (ArgsView { tui: true, ..st })),
{
    lemma_words();
    written_numbers_are_read_back(n, 65535);
    written_numbers_are_read_back(n, 4294967295);
    assert((seq!["--remote-port"@, decimal(n)] + more).skip(2) =~= more);
    assert((seq!["--local-port"@, decimal(n)] + more).skip(2) =~= more);
    assert((seq!["--max-retries"@, decimal(n)] + more).skip(2) =~= more);
    assert((seq!["--remote-bin"@, text] + more).skip(2) =~= more);
    assert((seq!["--json"@] + more).skip(1) =~= more);
    assert((seq!["--no-reconnect"@] + more).skip(1) =~= more);
    assert((seq!["--start"@] + more).skip(1) =~= more);
    assert((seq!["--tui"@] + more).skip(1) =~= more);
    assert((seq!["--remote-port"@, decimal(n)] + more)[1] == decimal(n));
    assert((seq!["--local-port"@, decimal(n)] + more)[1] == decimal(n));
    assert((seq!["--max-retries"@, decimal(n)] + more)[1] == decimal(n));
    assert((seq!["--remote-bin"@, text] + more)[1] == text);
    assert((seq!["--json"@] + more)[0] == "--json"@);
    assert((seq!["--no-reconnect"@] + more)[0] == "--no-reconnect"@);
    assert((seq!["--start"@] + more)[0] == "--start"@);
    assert((seq!["--tui"@] + more)[0] == "--tui"@);
}

/// What makes a command line wrong: a number that is none or too great, an option without its
/// value, two targets, no target, and both kinds of output.
pub proof fn wrong_command_lines_are_refused(
    st: ArgsView,
    more: Seq<Seq<char>>,
    n: nat,
    word: Seq<char>,
    other: Seq<char>,
)
    requires
        is_no_option(word),
        is_no_option(other),
        parsed_target(word) is Ok,
    ensures
        n > 65535 ==> scanned(seq!["--remote-port"@, decimal(n)] + more, st) == Err::<
            ArgsView,
            Seq<char>,
        >("invalid --remote-port"@),
        n > 65535 ==> scanned(seq!["--local-port"@, decimal(n)] + more, st) == Err::<
            ArgsView,
            Seq<char>,
        >("invalid --local-port"@),
        n > 4294967295 ==> scanned(seq!["--max-retries"@, decimal(n)] + more, st) == Err::<
            ArgsView,
            Seq<char>,
        >("invalid --max-retries"@),
        scanned(seq!["--remote-port"@], st) == Err::<ArgsView, Seq<char>>(
            "--remote-port"@ + " requires a value"@,
        ),
        scanned(seq!["--remote-bin"@], st) == Err::<ArgsView, Seq<char>>(
            "--remote-bin"@ + " requires a value"@,
        ),
        parsed_args(seq![word, other]) == Err::<OptionsView, Seq<char>>(
            "unexpected argument '"@ + other + "'"@,
        ),
        parsed_args(Seq::empty()) == Err::<OptionsView, Seq<char>>(
            "missing ssh target (try --help)"@,
        ),
        parsed_args(seq![word, "--json"@, "--tui"@]) == Err::<OptionsView, Seq<char>>(
            "--json and --tui are mutually exclusive"@,
        ),
{
    lemma_words();
    lemma_no_option(word);
    lemma_no_option(other);
    written_numbers_are_read_back(n, 65535);
    written_numbers_are_read_back(n, 4294967295);
    assert((seq!["--remote-port"@, decimal(n)] + more)[1] == decimal(n));
    assert((seq!["--local-port"@, decimal(n)] + more)[1] == decimal(n));
    assert((seq!["--max-retries"@, decimal(n)] + more)[1] == decimal(n));
    let target = parsed_target(word)->Ok_0;
    let st1 = ArgsView { target: Some(target), ..no_args() };
    let two = seq![word, other];
    assert(two.skip(1) =~= seq![other]);
    assert(scanned(two, no_args()) == scanned(seq![other], st1));
    let all = seq![word, "--json"@, "--tui"@];
    let st2 = ArgsView { json: true, ..st1 };
    assert(all.skip(1) =~= seq!["--json"@, "--tui"@]);
    assert(scanned(all, no_args()) == scanned(seq!["--json"@, "--tui"@], st1));
    assert(seq!["--json"@, "--tui"@].skip(1) =~= seq!["--tui"@]);
    assert(scanned(seq!["--json"@, "--tui"@], st1) == scanned(seq!["--tui"@], st2));
    assert(seq!["--tui"@].skip(1) =~= Seq::<Seq<char>>::empty());
    reveal_with_fuel(scanned, 3);
}

/// The tunnel is a forward from the local port to the remote one, both on the loopback, and `ssh`
/// runs nothing else; it gives up where the forward fails, asks no questions, and notices a dead
/// connection after three keepalives of 15 seconds. The destination comes last, behind the SSH
/// port where the target names one.
pub proof fn the_tunnel_forwards_one_port(target: TargetView, local: u16, remote: u16)
    ensures
        ({
            let args = ssh_args(target, local, remote);
            let forward = "127.0.0.1:"@ + decimal(local as nat) + ":127.0.0.1:"@ + decimal(
                remote as nat,
            );
            &&& args.take(11) == seq![
                "-N"@,
                "-L"@,
                forward,
                "-o"@,
                "ExitOnForwardFailure=yes"@,
                "-o"@,
                "ServerAliveInterval=15"@,
                "-o"@,
                "ServerAliveCountMax=3"@,
                "-o"@,
                "BatchMode=yes"@,
            ]
            &&& args.last() == target.destination
            &&& target.ssh_port is None ==> args.len() == 12
            &&& target.ssh_port matches Some(p) ==> args.len() == 14 && args[11] == "-p"@
                && args[12] == decimal(p as nat)
        }),
{
    reveal_strlit("ServerAliveInterval=");
    reveal_strlit("ServerAliveInterval=15");
    reveal_strlit("ServerAliveCountMax=");
    reveal_strlit("ServerAliveCountMax=3");
    let args = ssh_args(target, local, remote);
    reveal_with_fuel(decimal, 3);
    assert("ServerAliveInterval="@ + decimal(15) =~= "ServerAliveInterval=15"@);
    assert("ServerAliveCountMax="@ + decimal(3) =~= "ServerAliveCountMax=3"@);
    assert(args.take(11) =~= seq![
        "-N"@,
        "-L"@,
        "127.0.0.1:"@ + decimal(local as nat) + ":127.0.0.1:"@ + decimal(remote as nat),
        "-o"@,
        "ExitOnForwardFailure=yes"@,
        "-o"@,
        "ServerAliveInterval=15"@,
        "-o"@,
        "ServerAliveCountMax=3"@,
        "-o"@,
        "BatchMode=yes"@,
    ]);
}

/// The remote server is launched through `ssh` without questions, at the destination and the SSH
/// port of the target.
pub proof fn launching_goes_to_the_target(opts: OptionsView)
    ensures
        ({
            let args = start_args_of(opts);
            &&& args[0] == "-o"@ && args[1] == "BatchMode=yes"@
            &&& args[args.len() - 2] == opts.target.destination
            &&& opts.target.ssh_port is None ==> args.len() == 4
            &&& opts.target.ssh_port matches Some(p) ==> args.len() == 6 && args[2] == "-p"@
                && args[3] == decimal(p as nat)
        }),
{
}

/// The probe asks for `/health` over one connection.
pub proof fn the_probe_asks_for_health(port: u16)
    ensures
        probe_request_text(port) == "GET /health HTTP/1.1\r\nHost: 127.0.0.1:"@ + decimal(
            port as nat,
        ) + "\r\nConnection: close\r\n\r\n"@,
{
}

/// An answer with status 200 is health, and its body is what stands behind the first empty line,
/// without the white space around it; an answer with another status is none.
pub proof fn health_is_status_200(head: Seq<char>, body: Seq<char>)
    requires
        forall|i: int|
            0 <= i && i + 4 <= head.len() + 3 ==> #[trigger] (head + "\r\n\r\n"@).subrange(
                i,
                i + 4,
            ) != "\r\n\r\n"@,
    ensures
        "HTTP/1.1 200"@.is_prefix_of(head) || "HTTP/1.0 200"@.is_prefix_of(head) ==> probe_outcome(
            head + "\r\n\r\n"@ + body,
        ) == ProbeView::Healthy(trimmed(body)),
        !"HTTP/1.1 200"@.is_prefix_of(head) && !"HTTP/1.0 200"@.is_prefix_of(head) ==> probe_outcome(
            head,
        ) is RemoteNotListening,
{
    reveal_strlit("\r\n\r\n");
    reveal_strlit("HTTP/1.1 200");
    reveal_strlit("HTTP/1.0 200");
    let gap = "\r\n\r\n"@;
    let all = head + gap + body;
    let k = place_of(all, gap, 0);
    let n = head.len() as int;
    a_part_is_found_where_it_first_stands(all, gap, 0);
    assert(all.subrange(n, n + 4) =~= gap);
    assert forall|i: int| 0 <= i < n implies #[trigger] all.subrange(i, i + 4) != gap by {
        assert(all.subrange(i, i + 4) =~= (head + gap).subrange(i, i + 4));
    }
    assert(k == n) by {
        if k < 0 {
            assert(all.subrange(n, n + gap.len()) != gap);
        }
        if k > n {
            assert(all.subrange(n, n + gap.len()) != gap);
        }
        if 0 <= k < n {
            assert(all.subrange(k, k + 4) == gap);
        }
    }
    assert(all.skip(n + 4) =~= body);
    if "HTTP/1.1 200"@.is_prefix_of(head) {
        assert(all.subrange(0, 12) =~= head.subrange(0, 12));
    }
    if "HTTP/1.0 200"@.is_prefix_of(head) {
        assert(all.subrange(0, 12) =~= head.subrange(0, 12));
    }
}

/// A text of letters, digits, slashes, hyphens, underscores and dots goes on a command line as it
/// is; any other goes between single quotes.
pub proof fn what_a_shell_reads_is_quoted(s: Seq<char>)
    ensures
        (forall|i: int|
            0 <= i < s.len() ==> {
                let c = #[trigger] s[i];
                ('a' <= c <= 'z') || ('A' <= c <= 'Z') || ('0' <= c <= '9') || c == '/' || c == '-'
                    || c == '_' || c == '.'
            }) ==> quoted(s) == s,
        (exists|i: int|
            0 <= i < s.len() && {
                let c = #[trigger] s[i];
                !(('a' <= c <= 'z') || ('A' <= c <= 'Z') || ('0' <= c <= '9') || c == '/' || c == '-'
                    || c == '_' || c == '.')
            }) ==> quoted(s).len() >= s.len() + 2 && quoted(s)[0] == '\'' && quoted(s).last() == '\''
            && quoted(s) == "'"@ + escaped(s) + "'"@,
{
    reveal_strlit("'");
    lemma_escaped_len(s);
    if exists|i: int|
        0 <= i < s.len() && {
            let c = #[trigger] s[i];
            !(('a' <= c <= 'z') || ('A' <= c <= 'Z') || ('0' <= c <= '9') || c == '/' || c == '-' || c
                == '_' || c == '.')
        } {
        let i = choose|i: int|
            0 <= i < s.len() && {
                let c = #[trigger] s[i];
                !(('a' <= c <= 'z') || ('A' <= c <= 'Z') || ('0' <= c <= '9') || c == '/' || c == '-'
                    || c == '_' || c == '.')
            };
        assert(!is_plain(s[i]));
        assert(quoted(s) =~= "'"@ + escaped(s) + "'"@);
    }
}

proof fn lemma_escaped_len(s: Seq<char>)
    ensures
        escaped(s).len() >= s.len(),
    decreases s.len(),
{
    if s.len() > 0 {
        lemma_escaped_len(s.skip(1));
    }
}

/// Inside the quotes every character stands for itself; a single quote closes them, stands behind
/// a backslash, and opens them again.
pub proof fn quotes_leave_the_quotes(text: Seq<char>, more: Seq<char>)
    requires
        forall|i: int| 0 <= i < text.len() ==> #[trigger] text[i] != '\'',
    ensures
        escaped(text) == text,
        escaped(text + "'"@ + more) == text + "'\\''"@ + escaped(more),
    decreases text.len(),
{
    reveal_strlit("'");
    reveal_strlit("'\\''");
    let all = text + "'"@ + more;
    if text.len() == 0 {
        assert(all[0] == '\'');
        assert(all.skip(1) =~= more);
        assert(text + "'\\''"@ + escaped(more) =~= seq!['\'', '\\', '\'', '\''] + escaped(more));
        assert(escaped(text) =~= text);
    } else {
        let tail = text.skip(1);
        assert(text[0] != '\'');
        assert forall|i: int| 0 <= i < tail.len() implies #[trigger] tail[i] != '\'' by {
            assert(tail[i] == text[i + 1]);
        }
        quotes_leave_the_quotes(tail, more);
        assert(all.skip(1) =~= tail + "'"@ + more);
        assert(seq![text[0]] + tail =~= text);
        assert(seq![text[0]] + (tail + "'\\''"@ + escaped(more)) =~= text + "'\\''"@ + escaped(
            more,
        ));
    }
}

/// A line of `ssh` that repeats that nothing listens begins with the channel and says both that the
/// opening failed and that the connection was refused; no other line is passed over.
pub proof fn only_refused_channels_are_noise(line: Seq<char>)
    requires
        line.len() > 0,
        !is_space(line[0]),
    ensures
        channel_refused(line) <==> "channel "@.is_prefix_of(line) && occurs(line, "open failed"@)
            && occurs(line, "Connection refused"@),
{
}

/// The first word that is no option is the target, wherever it stands.
pub proof fn the_first_word_is_the_target(
    st: ArgsView,
    word: Seq<char>,
    more: Seq<Seq<char>>,
)
    requires
        is_no_option(word),
    ensures
        st.target is None ==> scanned(seq![word] + more, st) == match parsed_target(word) {
            Ok(target) => scanned(more, (ArgsView { target: Some(target), ..st })),
            Err(e) => Err(e),
        },
        st.target is Some ==> scanned(seq![word] + more, st) == Err::<ArgsView, Seq<char>>(
            "unexpected argument '"@ + word + "'"@,
        ),
        scanned(Seq::empty(), st) == Ok::<ArgsView, Seq<char>>(st),
{
    lemma_no_option(word);
    let args = seq![word] + more;
    assert(args[0] == word);
    assert(args.skip(1) =~= more);
}

/// What was read of a command line is what it says: with a target, and not both kinds of output,
/// every option as it was set.
pub proof fn a_command_line_says_what_was_read(args: Seq<Seq<char>>, st: ArgsView)
    requires
        scanned(args, no_args()) == Ok::<ArgsView, Seq<char>>(st),
    ensures
        st.target is Some && !(st.json && st.tui) ==> (parsed_args(args) matches Ok(o) && {
            &&& o.target == st.target->0
            &&& o.remote_port == st.remote_port
            &&& o.local_port == st.local_port
            &&& o.json == st.json
            &&& o.reconnect == st.reconnect
            &&& o.max_retries == st.max_retries
            &&& o.start == st.start
            &&& o.remote_bin == st.remote_bin
            &&& o.tui == st.tui
        }),
        st.target is None || (st.json && st.tui) ==> parsed_args(args) is Err,
{
}

/// An answer of no bytes shows that nothing listens.
pub proof fn no_answer_is_no_health()
    ensures
        answered(Seq::empty()) is RemoteNotListening,
{
}

/// Whether two texts that are no versions agree is whether they are the same but for the space
/// around them.
pub proof fn other_versions_agree_word_for_word(a: Seq<char>, b: Seq<char>)
    requires
        forall|i: int| 0 <= i < a.len() ==> #[trigger] a[i] != '.',
    ensures
        compatible(a, b) <==> trimmed(a) == trimmed(b),
        compatible(b, a) <==> trimmed(a) == trimmed(b),
{
    let t = trimmed(a);
    trimming_takes_the_space_around(a);
    let from = choose|from: int|
        {
            &&& 0 <= from
            &&& from + t.len() <= a.len()
            &&& t == #[trigger] a.subrange(from, from + t.len())
            &&& forall|i: int| 0 <= i < from ==> is_space(#[trigger] a[i])
            &&& forall|i: int| from + t.len() <= i < a.len() ==> is_space(#[trigger] a[i])
        };
    assert forall|i: int| 0 <= i < t.len() implies #[trigger] t[i] != '.' by {
        assert(t[i] == a[from + i]);
    }
    lemma_first_is(t, '.', t.len() as int);
    if trimmed(a) == trimmed(b) {
        assert(major_minor_of(a) == major_minor_of(b));
    }
}

/// The script runs the binary that the options name, quoted for the shell, and has it listen on
/// the port that the tunnel leads to; its log is named by the port too.
pub proof fn the_script_runs_the_binary_on_the_port(opts: OptionsView)
    ensures
        ({
            let script = start_args_of(opts).last();
            let port = decimal(opts.remote_port as nat);
            let bin = "bin="@ + quoted(opts.remote_bin) + ";"@;
            &&& bin.is_prefix_of(script)
            &&& occurs(script, "ASTROBURST_BIND=127.0.0.1:"@ + port + " \"$bin\""@)
            &&& occurs(script, "astroburst-server-"@ + port + ".log"@)
        }),
{
    let script = start_script_text(opts);
    let port = decimal(opts.remote_port as nat);
    let front = "bin="@ + quoted(opts.remote_bin);
    lemma_script_pieces();
    assert(start_args_of(opts).last() == script);
    let log = SCRIPT_LOG@;
    let check = SCRIPT_CHECK@;
    let watch = SCRIPT_WATCH@;
    let bin = front + ";"@;
    assert(bin =~= script.subrange(0, bin.len() as int));
    let named = "astroburst-server-"@ + port + ".log"@;
    let at = front.len() + log.len() - 18;
    assert(script.subrange(at, at + named.len()) =~= named);
    assert(occurs_at(script, named, at));
    let bound = "ASTROBURST_BIND=127.0.0.1:"@ + port + " \"$bin\""@;
    let from = front.len() + log.len() + port.len() + check.len() - 26;
    assert(script.subrange(from, from + bound.len()) =~= bound);
    assert(occurs_at(script, bound, from));
}

proof fn lemma_script_pieces()
    ensures
        ";"@.len() == 1 && SCRIPT_LOG@.len() >= 18 && SCRIPT_LOG@[0] == ";"@[0],
        "astroburst-server-"@.len() == 18 && SCRIPT_LOG@.skip(SCRIPT_LOG@.len() - 18)
            == "astroburst-server-"@,
        ".log"@.len() == 4 && SCRIPT_CHECK@.len() >= 26 && SCRIPT_CHECK@.take(4) == ".log"@,
        "ASTROBURST_BIND=127.0.0.1:"@.len() == 26 && SCRIPT_CHECK@.skip(SCRIPT_CHECK@.len() - 26)
            == "ASTROBURST_BIND=127.0.0.1:"@,
        " \"$bin\""@.len() == 7 && SCRIPT_WATCH@.len() >= 7 && SCRIPT_WATCH@.take(7)
            == " \"$bin\""@,
{
    reveal_strlit(";");
    reveal_strlit(".log");
    reveal_strlit("astroburst-server-");
    reveal_strlit("ASTROBURST_BIND=127.0.0.1:");
    reveal_strlit(" \"$bin\"");
    reveal_strlit("; log=\"${TMPDIR:-/tmp}/astroburst-server-");
    reveal_strlit(".log\"; \\\nif ! command -v \"$bin\" >/dev/null 2>&1 && [ ! -x \"$bin\" ]; then \\\n  echo \"astroburst-connect: remote binary '$bin' not found on PATH and is not an executable path\" >&2; \\\n  echo \"astroburst-connect: pass --remote-bin with an absolute path (a non-login ssh shell often omits ~/.cargo/bin, ~/.local/bin)\" >&2; \\\n  exit 127; \\\nfi; \\\nnohup env ASTROBURST_BIND=127.0.0.1:");
    reveal_strlit(" \"$bin\" >\"$log\" 2>&1 & \\\npid=$!; sleep 1; \\\nif ! kill -0 \"$pid\" 2>/dev/null; then \\\n  echo \"astroburst-connect: remote server exited immediately (see $log on ");
}

/// White space before a line makes no difference to whether it is noise.
pub proof fn indented_noise_is_noise(space: Seq<char>, line: Seq<char>)
    requires
        forall|i: int| 0 <= i < space.len() ==> is_space(#[trigger] space[i]),
        line.len() > 0,
        !is_space(line[0]),
    ensures
        channel_refused(space + line) <==> channel_refused(line),
{
    one_end_is_trimmed_alone(space, line);
    one_end_is_trimmed_alone(Seq::empty(), line);
    assert(Seq::<char>::empty() + line =~= line);
}

/// A text that does not begin with status 200 is no health, whatever follows; and one that does is
/// health without a body where no head ends in it.
pub proof fn other_answers_are_no_health(text: Seq<char>)
    ensures
        !"HTTP/1.1 200"@.is_prefix_of(text) && !"HTTP/1.0 200"@.is_prefix_of(text)
            ==> probe_outcome(text) is RemoteNotListening,
        ("HTTP/1.1 200"@.is_prefix_of(text) || "HTTP/1.0 200"@.is_prefix_of(text)) && (forall|
            i: int,
        |
            0 <= i && i + 4 <= text.len() ==> #[trigger] text.subrange(i, i + 4) != "\r\n\r\n"@)
            ==> probe_outcome(text) == ProbeView::Healthy(Seq::empty()),
{
    reveal_strlit("\r\n\r\n");
    a_part_is_found_where_it_first_stands(text, "\r\n\r\n"@, 0);
}

} // verus!
