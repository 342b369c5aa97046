//! What the supervisor does of its tunnel, in seconds, attempts and words.

use vstd::prelude::*;
use vstd::arithmetic::power2::{lemma2_to64, pow2};
use vstd::string::*;
use crate::server::connect::{OptionsView, ProbeView};
use crate::server::supervise::{
    after_exit, after_outcome, after_probe, backoff_after, backoff_schedule, doubled, printed_lines,
    supervised, EventView, NextView, Outcome, Supervisor,
};
use crate::text::decimal;

verus! {

/// The wait before an attempt is one second at first, twice as long after every failure, and never
/// more than thirty seconds.
pub proof fn waits_double_up_to_thirty_seconds(n: nat, seconds: u64)
    ensures
        doubled(seconds) == if 2 * seconds < 30 {
            2 * seconds
        } else {
            30
        },
        backoff_after(n) == if n < 5 {
            pow2(n) as int
        } else {
            30
        },
{
    lemma2_to64();
    backoff_schedule(n);
    reveal_with_fuel(backoff_after, 6);
}

/// Where `ssh` ends, the tunnel is made anew after the present wait if and only if reconnection is
/// on and fewer attempts were begun than the retries allow; the wait after that is longer, and the
/// count of attempts stays. Otherwise supervision ends, and `ssh`, which is gone, is not killed.
pub proof fn a_dropped_tunnel_is_made_anew(st: Supervisor, opts: OptionsView, status: Seq<char>)
    ensures
        ({
            let (after, d) = after_exit(st, opts, status);
            let again = opts.reconnect && (opts.max_retries is None || st.attempt
                < opts.max_retries->0);
            &&& !d.kill
            &&& after.attempt == st.attempt && after.announced == st.announced
            &&& again ==> {
                &&& d.next == (NextView::Retry { backoff: st.backoff })
                &&& d.events == seq![
                    EventView::Retrying {
                        backoff: st.backoff,
                        reason: "tunnel dropped ("@ + status + ")"@,
                    },
                ]
                &&& after.backoff == if 2 * st.backoff < 30 {
                    2 * st.backoff
                } else {
                    30
                }
            }
            &&& !again ==> {
                let reason = "ssh tunnel exited ("@ + status + if !opts.reconnect {
                    "); reconnect disabled"@
                } else {
                    "); retry budget exhausted"@
                };
                &&& after == st
                &&& d.next == (NextView::Fail { reason })
                &&& d.events == seq![EventView::Fatal { reason }]
            }
        }),
{
}

/// Where the tunnel does not come up, `ssh` is killed, and another attempt follows after the
/// present wait if and only if reconnection is on and no more attempts were begun than the retries
/// allow.
pub proof fn a_tunnel_that_fails_is_tried_again(
    st: Supervisor,
    opts: OptionsView,
    started: bool,
    local: Seq<char>,
    remote: Option<Seq<char>>,
)
    ensures
        ({
            let (after, d) = after_probe(st, opts, started, ProbeView::TunnelNotUp, local, remote);
            let again = opts.reconnect && (opts.max_retries is None || st.attempt
                <= opts.max_retries->0);
            &&& d.kill
            &&& after.attempt == st.attempt && after.announced == st.announced
            &&& again ==> {
                &&& d.next == (NextView::Retry { backoff: st.backoff })
                &&& d.events == seq![
                    EventView::Retrying {
                        backoff: st.backoff,
                        reason: "tunnel failed to come up (attempt "@ + decimal(st.attempt as nat)
                            + ")"@,
                    },
                ]
                &&& after.backoff == if 2 * st.backoff < 30 {
                    2 * st.backoff
                } else {
                    30
                }
            }
            &&& !again ==> {
                let dest = opts.target.destination;
                let reason = "could not establish tunnel to "@ + dest + " within 20s (check `ssh "@
                    + dest + "` works non-interactively)"@;
                &&& after == st
                &&& d.next == (NextView::Fail { reason })
                &&& d.events == seq![EventView::Fatal { reason }]
            }
        }),
{
    reveal_strlit(" within ");
    reveal_strlit("s (check `ssh ");
    reveal_strlit(" within 20s (check `ssh ");
    reveal_with_fuel(decimal, 3);
    let dest = opts.target.destination;
    assert("could not establish tunnel to "@ + dest + " within "@ + decimal(20) + "s (check `ssh "@
        + dest + "` works non-interactively)"@ =~= "could not establish tunnel to "@ + dest
        + " within 20s (check `ssh "@ + dest + "` works non-interactively)"@);
}

/// A healthy server keeps the tunnel and sets the wait back to one second. The first time it is
/// announced as new, later as re-established; a warning comes only the first time, and only where
/// the server names a version that does not agree.
pub proof fn a_healthy_server_is_announced(
    st: Supervisor,
    opts: OptionsView,
    started: bool,
    body: Seq<char>,
    local: Seq<char>,
    remote: Option<Seq<char>>,
)
    ensures
        ({
            let (after, d) = after_probe(
                st,
                opts,
                started,
                ProbeView::Healthy(body),
                local,
                remote,
            );
            let warned = !st.announced && remote is Some && !crate::server::connect::compatible(
                local,
                remote->0,
            );
            &&& after == (Supervisor { attempt: st.attempt, backoff: 1, announced: true })
            &&& d.next is AwaitExit && !d.kill
            &&& d.events.len() == if warned {
                2int
            } else {
                1
            }
            &&& d.events[0] == (EventView::Up { health: body, reestablished: st.announced })
            &&& warned ==> d.events[1] == (EventView::VersionMismatch { local, remote: remote->0 })
        }),
{
}

/// Whether every outcome is a tunnel that does not come up.
pub open spec fn all_fail(outcomes: Seq<Outcome>) -> bool {
    forall|i: int|
        0 <= i < outcomes.len() ==> (#[trigger] outcomes[i] matches Outcome::Probed {
            health,
            ..
        } && health is TunnelNotUp)
}

proof fn lemma_failures(
    st: Supervisor,
    opts: OptionsView,
    local: Seq<char>,
    outcomes: Seq<Outcome>,
    n: nat,
    k: int,
)
    requires
        opts.reconnect,
        opts.max_retries is None,
        all_fail(outcomes),
        st.backoff == backoff_after(n),
        0 <= k < outcomes.len(),
    ensures
        supervised(st, opts, local, outcomes).1 is None,
        supervised(st, opts, local, outcomes).0.len() == outcomes.len(),
        supervised(st, opts, local, outcomes).0[k] matches EventView::Retrying { backoff, .. }
            && backoff == backoff_after((n + k) as nat),
    decreases outcomes.len(),
{
    let (after, d) = after_outcome(st, opts, local, outcomes[0]);
    assert(outcomes[0] is Probed);
    let next = Supervisor { attempt: (after.attempt + 1) as u32, ..after };
    let more = outcomes.skip(1);
    assert forall|i: int| 0 <= i < more.len() implies (#[trigger] more[i] matches Outcome::Probed {
        health,
        ..
    } && health is TunnelNotUp) by {
        assert(more[i] == outcomes[i + 1]);
    }
    assert(after.backoff == backoff_after(n + 1));
    if more.len() > 0 {
        lemma_failures(next, opts, local, more, n + 1, if k == 0 {
            0
        } else {
            k - 1
        });
    } else {
        assert(supervised(next, opts, local, more).0.len() == 0);
    }
}

/// Attempts that fail one after the other are followed by waits of 1, 2, 4, 8, 16 and then always
/// 30 seconds, and where nothing limits the retries they never end.
pub proof fn failures_in_a_row_wait_longer(
    opts: OptionsView,
    local: Seq<char>,
    outcomes: Seq<Outcome>,
    k: int,
)
    requires
        opts.reconnect,
        opts.max_retries is None,
        all_fail(outcomes),
        0 <= k < outcomes.len(),
    ensures
        ({
            let fresh = Supervisor { attempt: 1, backoff: 1, announced: false };
            let (events, error) = supervised(fresh, opts, local, outcomes);
            &&& error is None
            &&& events.len() == outcomes.len()
            &&& events[k] matches EventView::Retrying { backoff, .. } && backoff == if k < 5 {
                pow2(k as nat) as int
            } else {
                30
            }
        }),
{
    let fresh = Supervisor { attempt: 1, backoff: 1, announced: false };
    lemma_failures(fresh, opts, local, outcomes, 0, k);
    waits_double_up_to_thirty_seconds(k as nat, 0);
}

/// What is printed of the tunnel: its address on the loopback, how the server is, why and how long
/// it is waited for; a client that reads JSON gets the address, the port, the target and the health
/// in one object.
pub proof fn events_are_printed_in_words(
    local_port: u16,
    dest: Seq<char>,
    text: Seq<char>,
    seconds: u64,
    json: bool,
)
    ensures
        printed_lines(
            (EventView::Up { health: text, reestablished: true }),
            json,
            local_port,
            dest,
        ) == seq![
            "connect: tunnel re-established on "@ + ("http://127.0.0.1:"@ + decimal(
                local_port as nat,
            )),
        ],
        printed_lines(
            (EventView::Up { health: text, reestablished: false }),
            true,
            local_port,
            dest,
        ) == seq![
            "{\"url\":\""@ + ("http://127.0.0.1:"@ + decimal(local_port as nat))
                + "\",\"local_port\":"@ + decimal(local_port as nat) + ",\"target\":\""@ + dest
                + "\",\"health\":"@ + text + "}"@,
        ],
        printed_lines(
            (EventView::Up { health: text, reestablished: false }),
            false,
            local_port,
            dest,
        ) == seq![
            "connect: tunnel up -- server URL: "@ + ("http://127.0.0.1:"@ + decimal(
                local_port as nat,
            )),
            "connect: remote /health: "@ + text,
        ],
        printed_lines(
            (EventView::Retrying { backoff: seconds, reason: text }),
            json,
            local_port,
            dest,
        ) == seq!["connect: "@ + text + "; reconnecting in "@ + decimal(seconds as nat) + "s"@],
        printed_lines(EventView::SshLine(text), json, local_port, dest) == seq![text],
        printed_lines((EventView::Fatal { reason: text }), json, local_port, dest).len() == 0,
{
}

/// Where nothing listens at the remote end, the server is launched once in an attempt where that is
/// asked for; without it, or where it was in vain, supervision ends with the reason, and `ssh` is
/// killed.
pub proof fn silence_is_explained(
    st: Supervisor,
    opts: OptionsView,
    started: bool,
    local: Seq<char>,
    remote: Option<Seq<char>>,
)
    ensures
        ({
            let (after, d) = after_probe(
                st,
                opts,
                started,
                ProbeView::RemoteNotListening,
                local,
                remote,
            );
            let dest = opts.target.destination;
            let port = decimal(opts.remote_port as nat);
            let silent = "the SSH tunnel to "@ + dest
                + " is up, but nothing is listening on the remote's 127.0.0.1:"@ + port
                + ". The astroburst-server is not running there (or is on a different port). Start it with --start, or if it is already running on another port pass --remote-port N."@;
            let vain = "the SSH tunnel to "@ + dest
                + " is up, but after --start nothing is listening on the remote's 127.0.0.1:"@ + port
                + ". The remote server failed to start or bind (see the astroburst-connect messages above). Check it starts by hand:  ssh "@
                + dest + " 'ASTROBURST_BIND=127.0.0.1:"@ + port + " "@ + opts.remote_bin + "'"@;
            &&& after == st
            &&& opts.start && !started ==> d.next is StartRemote && !d.kill && d.events == seq![
                EventView::StartingRemote { bin: opts.remote_bin, dest },
            ]
            &&& opts.start && started ==> d.kill && d.next == (NextView::Fail { reason: vain })
                && d.events == seq![EventView::Fatal { reason: vain }]
            &&& !opts.start ==> d.kill && d.next == (NextView::Fail { reason: silent })
                && d.events == seq![EventView::Fatal { reason: silent }]
        }),
{
}

/// The warning about a version names both.
pub proof fn the_warning_names_both_versions(a: Seq<char>, b: Seq<char>, json: bool, port: u16)
    ensures
        printed_lines((EventView::VersionMismatch { local: a, remote: b }), json, port, a) == seq![
            "connect: WARNING remote astroburst-server version "@ + b
                + " is incompatible with this client "@ + a
                + " (major.minor differ); the tunnel works but the API may not — rebuild/redeploy to match."@,
        ],
        printed_lines((EventView::StartingRemote { bin: a, dest: b }), json, port, a) == seq![
            "connect: starting remote server ("@ + a + " on "@ + b + ")..."@,
        ],
{
}

/// Where `ssh` cannot be run, its end cannot be waited for, or the remote start fails, supervision
/// ends with that reason; only a start that failed leaves an `ssh` to kill.
pub proof fn troubles_end_the_supervision(
    st: Supervisor,
    opts: OptionsView,
    local: Seq<char>,
    reason: Seq<char>,
)
    ensures
        ({
            let spawn = after_outcome(st, opts, local, Outcome::SpawnFailed(reason));
            let start = after_outcome(st, opts, local, Outcome::StartFailed(reason));
            let wait = after_outcome(st, opts, local, Outcome::WaitFailed(reason));
            &&& spawn.0 == st && start.0 == st && wait.0 == st
            &&& spawn.1.next == (NextView::Fail { reason })
            &&& start.1.next == (NextView::Fail { reason })
            &&& wait.1.next == (NextView::Fail { reason })
            &&& spawn.1.events == seq![EventView::Fatal { reason }]
            &&& start.1.events == seq![EventView::Fatal { reason }]
            &&& wait.1.events == seq![EventView::Fatal { reason }]
            &&& !spawn.1.kill && start.1.kill && !wait.1.kill
        }),
{
}

} // verus!
