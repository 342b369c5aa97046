//! The tunnel's supervisor: what to do after a probe, a failed start, or the end of `ssh`.

use vstd::prelude::*;
use vstd::string::*;
use crate::server::connect::{
    around, compatible, extract_health_version, versions_compatible, with_number, ConnectOptions,
    OptionsView, ProbeResult, ProbeView, BACKOFF_CAP, BACKOFF_INITIAL, TUNNEL_READY_TIMEOUT,
};
use crate::server::json::text_field_of_str;
use crate::text::{decimal, format_unsigned, lines, lines_of, lossy, lossy_of, opt_text, texts};

verus! {

/// What the supervisor reports.
#[derive(Debug)]
pub enum TunnelEvent {
    /// `/health` answered through the tunnel; `reestablished` on all but the first time.
    Up { health: String, reestablished: bool },
    /// `--start` launches the remote server.
    StartingRemote { bin: String, dest: String },
    /// The tunnel died or did not come up; the next attempt follows after `backoff` seconds.
    Retrying { backoff: u64, reason: String },
    /// A line of `ssh`.
    SshLine(String),
    /// The remote server's version does not agree with this client's.
    VersionMismatch { local: String, remote: String },
    /// Supervision is over.
    Fatal { reason: String },
}

/// What a `TunnelEvent` says.
pub enum EventView {
    Up { health: Seq<char>, reestablished: bool },
    StartingRemote { bin: Seq<char>, dest: Seq<char> },
    Retrying { backoff: u64, reason: Seq<char> },
    SshLine(Seq<char>),
    VersionMismatch { local: Seq<char>, remote: Seq<char> },
    Fatal { reason: Seq<char> },
}

impl View for TunnelEvent {
    type V = EventView;

    open spec fn view(&self) -> EventView {
        match self {
            TunnelEvent::Up { health, reestablished } => EventView::Up {
                health: health@,
                reestablished: *reestablished,
            },
            TunnelEvent::StartingRemote { bin, dest } => EventView::StartingRemote {
                bin: bin@,
                dest: dest@,
            },
            TunnelEvent::Retrying { backoff, reason } => EventView::Retrying {
                backoff: *backoff,
                reason: reason@,
            },
            TunnelEvent::SshLine(line) => EventView::SshLine(line@),
            TunnelEvent::VersionMismatch { local, remote } => EventView::VersionMismatch {
                local: local@,
                remote: remote@,
            },
            TunnelEvent::Fatal { reason } => EventView::Fatal { reason: reason@ },
        }
    }
}

/// What follows a decision.
#[derive(Debug)]
pub enum Next {
    /// Launch the remote server, then probe again.
    StartRemote,
    /// Wait until `ssh` ends.
    AwaitExit,
    /// Sleep that many seconds, then begin the next attempt.
    Retry { backoff: u64 },
    /// Return with this error.
    Fail { reason: String },
}

/// What a `Next` says.
pub enum NextView {
    StartRemote,
    AwaitExit,
    Retry { backoff: u64 },
    Fail { reason: Seq<char> },
}

impl View for Next {
    type V = NextView;

    open spec fn view(&self) -> NextView {
        match self {
            Next::StartRemote => NextView::StartRemote,
            Next::AwaitExit => NextView::AwaitExit,
            Next::Retry { backoff } => NextView::Retry { backoff: *backoff },
            Next::Fail { reason } => NextView::Fail { reason: reason@ },
        }
    }
}

/// One decision: the events to send, whether to end `ssh` first, and what follows.
#[derive(Debug)]
pub struct Decision {
    pub events: Vec<TunnelEvent>,
    pub kill: bool,
    pub next: Next,
}

/// What a `Decision` says.
pub struct DecisionView {
    pub events: Seq<EventView>,
    pub kill: bool,
    pub next: NextView,
}

impl View for Decision {
    type V = DecisionView;

    open spec fn view(&self) -> DecisionView {
        DecisionView {
            events: Seq::new(self.events@.len(), |i: int| self.events@[i]@),
            kill: self.kill,
            next: self.next@,
        }
    }
}

/// Where the supervision stands: the attempts begun, the seconds before the next one, and whether
/// the tunnel has been up.
#[derive(Clone, Copy, Debug, PartialEq, Eq)]
pub struct Supervisor {
    pub attempt: u32,
    pub backoff: u64,
    pub announced: bool,
}

/// Doubled, up to the cap.
pub open spec fn doubled(seconds: u64) -> u64 {
    if 2 * seconds <= BACKOFF_CAP {
        (2 * seconds) as u64
    } else {
        BACKOFF_CAP
    }
}

/// The seconds before the attempt after the next one.
pub fn next_backoff(current: u64) -> (next: u64)
    ensures
        next == doubled(current),
{
    if current <= BACKOFF_CAP / 2 {
        2 * current
    } else {
        BACKOFF_CAP
    }
}

/// The backoff after `n` failures in a row.
pub open spec fn backoff_after(n: nat) -> u64
    decreases n,
{
    if n == 0 {
        BACKOFF_INITIAL
    } else {
        doubled(backoff_after((n - 1) as nat))
    }
}

/// The schedule never falls, stays between one second and the cap, doubles below it, and stays at
/// it from the fifth failure on.
pub proof fn backoff_schedule(n: nat)
    ensures
        BACKOFF_INITIAL <= backoff_after(n) <= backoff_after(n + 1) <= BACKOFF_CAP,
        backoff_after(n + 1) < BACKOFF_CAP ==> backoff_after(n + 1) == 2 * backoff_after(n),
        n >= 5 ==> backoff_after(n) == BACKOFF_CAP,
    decreases n,
{
    if n > 0 {
        backoff_schedule((n - 1) as nat);
    }
    if n == 5 {
        reveal_with_fuel(backoff_after, 6);
    }
}

/// The reason where the tunnel does not come up.
pub open spec fn gave_up_text(dest: Seq<char>) -> Seq<char> {
    "could not establish tunnel to "@ + dest + " within "@ + decimal(TUNNEL_READY_TIMEOUT as nat)
        + "s (check `ssh "@ + dest + "` works non-interactively)"@
}

/// The reason where nothing listens at the remote end.
pub open spec fn nothing_listens_text(dest: Seq<char>, port: u16) -> Seq<char> {
    "the SSH tunnel to "@ + dest
        + " is up, but nothing is listening on the remote's 127.0.0.1:"@ + decimal(port as nat)
        + ". The astroburst-server is not running there (or is on a different port). Start it with --start, or if it is already running on another port pass --remote-port N."@
}

/// The reason where nothing listens though the remote server was launched.
pub open spec fn start_in_vain_text(dest: Seq<char>, port: u16, bin: Seq<char>) -> Seq<char> {
    "the SSH tunnel to "@ + dest
        + " is up, but after --start nothing is listening on the remote's 127.0.0.1:"@ + decimal(
        port as nat,
    )
        + ". The remote server failed to start or bind (see the astroburst-connect messages above). Check it starts by hand:  ssh "@
        + dest + " 'ASTROBURST_BIND=127.0.0.1:"@ + decimal(port as nat) + " "@ + bin + "'"@
}

/// The end of the supervision, with a reason.
pub open spec fn ended(kill: bool, reason: Seq<char>) -> DecisionView {
    DecisionView {
        events: seq![EventView::Fatal { reason }],
        kill,
        next: NextView::Fail { reason },
    }
}

/// Another attempt, after the present backoff.
pub open spec fn retried(kill: bool, backoff: u64, reason: Seq<char>) -> DecisionView {
    DecisionView {
        events: seq![EventView::Retrying { backoff, reason }],
        kill,
        next: NextView::Retry { backoff },
    }
}

/// Whether an attempt that did not come up was the last one allowed.
pub open spec fn last_failed(st: Supervisor, opts: OptionsView) -> bool {
    !opts.reconnect || (opts.max_retries matches Some(m) && st.attempt > m)
}

/// Whether an attempt that came up and ended was the last one allowed.
pub open spec fn budget_spent(st: Supervisor, opts: OptionsView) -> bool {
    opts.max_retries matches Some(m) && st.attempt >= m
}

/// The warning about the remote server's version, where there is one.
pub open spec fn version_warning(local: Seq<char>, remote: Option<Seq<char>>) -> Seq<EventView> {
    match remote {
        Some(version) => if compatible(local, version) {
            Seq::empty()
        } else {
            seq![EventView::VersionMismatch { local, remote: version }]
        },
        None => Seq::empty(),
    }
}

/// What follows a probe; `started` tells whether `--start` has run in this attempt, and `remote`
/// is the version that the health body names.
pub open spec fn after_probe(
    st: Supervisor,
    opts: OptionsView,
    started: bool,
    health: ProbeView,
    local: Seq<char>,
    remote: Option<Seq<char>>,
) -> (Supervisor, DecisionView) {
    match health {
        ProbeView::Healthy(body) => (
            Supervisor { attempt: st.attempt, backoff: BACKOFF_INITIAL, announced: true },
            DecisionView {
                events: seq![EventView::Up { health: body, reestablished: st.announced }] + if st.announced {
                    Seq::empty()
                } else {
                    version_warning(local, remote)
                },
                kill: false,
                next: NextView::AwaitExit,
            },
        ),
        ProbeView::RemoteNotListening => if opts.start && !started {
            (
                st,
                DecisionView {
                    events: seq![
                        EventView::StartingRemote {
                            bin: opts.remote_bin,
                            dest: opts.target.destination,
                        },
                    ],
                    kill: false,
                    next: NextView::StartRemote,
                },
            )
        } else if opts.start {
            (
                st,
                ended(
                    true,
                    start_in_vain_text(
                        opts.target.destination,
                        opts.remote_port,
                        opts.remote_bin,
                    ),
                ),
            )
        } else {
            (st, ended(true, nothing_listens_text(opts.target.destination, opts.remote_port)))
        },
        ProbeView::TunnelNotUp => if last_failed(st, opts) {
            (st, ended(true, gave_up_text(opts.target.destination)))
        } else {
            (
                Supervisor { backoff: doubled(st.backoff), ..st },
                retried(
                    true,
                    st.backoff,
                    "tunnel failed to come up (attempt "@ + decimal(st.attempt as nat) + ")"@,
                ),
            )
        },
    }
}

/// What follows the end of `ssh`, whose status reads `status`.
pub open spec fn after_exit(st: Supervisor, opts: OptionsView, status: Seq<char>) -> (
    Supervisor,
    DecisionView,
) {
    if !opts.reconnect {
        (st, ended(false, "ssh tunnel exited ("@ + status + "); reconnect disabled"@))
    } else if budget_spent(st, opts) {
        (st, ended(false, "ssh tunnel exited ("@ + status + "); retry budget exhausted"@))
    } else {
        (
            Supervisor { backoff: doubled(st.backoff), ..st },
            retried(false, st.backoff, "tunnel dropped ("@ + status + ")"@),
        )
    }
}

/// What the supervisor learns between two decisions.
pub enum Outcome {
    /// `ssh` could not be run, for a reason.
    SpawnFailed(Seq<char>),
    /// The wait for the remote server is over; `remote` is the version that it names.
    Probed { started: bool, health: ProbeView, remote: Option<Seq<char>> },
    /// `--start` failed, for a reason.
    StartFailed(Seq<char>),
    /// The end of `ssh` could not be waited for, for a reason.
    WaitFailed(Seq<char>),
    /// `ssh` ended, with a status.
    Exited(Seq<char>),
}

/// What follows an outcome, for a client of version `local`.
pub open spec fn after_outcome(
    st: Supervisor,
    opts: OptionsView,
    local: Seq<char>,
    outcome: Outcome,
) -> (Supervisor, DecisionView) {
    match outcome {
        Outcome::SpawnFailed(reason) => (st, ended(false, reason)),
        Outcome::Probed { started, health, remote } => after_probe(
            st,
            opts,
            started,
            health,
            local,
            remote,
        ),
        Outcome::StartFailed(reason) => (st, ended(true, reason)),
        Outcome::WaitFailed(reason) => (st, ended(false, reason)),
        Outcome::Exited(status) => after_exit(st, opts, status),
    }
}

/// What a supervisor reports on outcomes that follow one another, and the error that it ends with,
/// where it ends; a retry begins the next attempt.
pub open spec fn supervised(
    st: Supervisor,
    opts: OptionsView,
    local: Seq<char>,
    outcomes: Seq<Outcome>,
) -> (Seq<EventView>, Option<Seq<char>>)
    decreases outcomes.len(),
{
    if outcomes.len() == 0 {
        (Seq::empty(), None)
    } else {
        let (after, d) = after_outcome(st, opts, local, outcomes[0]);
        match d.next {
            NextView::Fail { reason } => (d.events, Some(reason)),
            _ => {
                let next = if d.next is Retry {
                    Supervisor { attempt: (after.attempt + 1) as u32, ..after }
                } else {
                    after
                };
                let (events, error) = supervised(next, opts, local, outcomes.skip(1));
                (d.events + events, error)
            },
        }
    }
}

/// Whatever happens, supervision ends with an error alone, and the last event that it reports is
/// then the `Fatal` one with the reason of that error.
pub proof fn every_end_is_its_last_event(
    st: Supervisor,
    opts: OptionsView,
    local: Seq<char>,
    outcomes: Seq<Outcome>,
)
    ensures
        supervised(st, opts, local, outcomes).1 matches Some(reason) ==> {
            let events = supervised(st, opts, local, outcomes).0;
            events.len() > 0 && events.last() == (EventView::Fatal { reason })
        },
    decreases outcomes.len(),
{
    if outcomes.len() > 0 {
        let (after, d) = after_outcome(st, opts, local, outcomes[0]);
        let next = if d.next is Retry {
            Supervisor { attempt: (after.attempt + 1) as u32, ..after }
        } else {
            after
        };
        every_end_is_its_last_event(next, opts, local, outcomes.skip(1));
    }
}

/// Ends the supervision with a reason, as an event and as an error.
fn end_with(kill: bool, reason: String) -> (d: Decision)
    ensures
        d@ == ended(kill, reason@),
{
    let mut events: Vec<TunnelEvent> = Vec::new();
    events.push(TunnelEvent::Fatal { reason: reason.clone() });
    let d = Decision { events, kill, next: Next::Fail { reason } };
    assert(d@.events =~= ended(kill, reason@).events);
    d
}

fn retry_with(kill: bool, backoff: u64, reason: String) -> (d: Decision)
    ensures
        d@ == retried(kill, backoff, reason@),
{
    let mut events: Vec<TunnelEvent> = Vec::new();
    events.push(TunnelEvent::Retrying { backoff, reason });
    let d = Decision { events, kill, next: Next::Retry { backoff } };
    assert(d@.events =~= retried(kill, backoff, reason@).events);
    d
}

fn gave_up(dest: &str) -> (s: String)
    ensures
        s@ == gave_up_text(dest@),
{
    let mut s = around("could not establish tunnel to ", dest, " within ");
    let seconds = format_unsigned(TUNNEL_READY_TIMEOUT);
    s.append(seconds.as_str());
    s.append("s (check `ssh ");
    s.append(dest);
    s.append("` works non-interactively)");
    s
}

fn nothing_listens(dest: &str, port: u16) -> (s: String)
    ensures
        s@ == nothing_listens_text(dest@, port),
{
    let mut s = around(
        "the SSH tunnel to ",
        dest,
        " is up, but nothing is listening on the remote's 127.0.0.1:",
    );
    let digits = format_unsigned(port as u64);
    s.append(digits.as_str());
    s.append(
        ". The astroburst-server is not running there (or is on a different port). Start it with --start, or if it is already running on another port pass --remote-port N.",
    );
    s
}

fn start_in_vain(dest: &str, port: u16, bin: &str) -> (s: String)
    ensures
        s@ == start_in_vain_text(dest@, port, bin@),
{
    let digits = format_unsigned(port as u64);
    let mut s = around(
        "the SSH tunnel to ",
        dest,
        " is up, but after --start nothing is listening on the remote's 127.0.0.1:",
    );
    s.append(digits.as_str());
    s.append(
        ". The remote server failed to start or bind (see the astroburst-connect messages above). Check it starts by hand:  ssh ",
    );
    s.append(dest);
    s.append(" 'ASTROBURST_BIND=127.0.0.1:");
    s.append(digits.as_str());
    s.append(" ");
    s.append(bin);
    s.append("'");
    s
}

impl Supervisor {
    /// Before the first attempt.
    pub fn new() -> (st: Self)
        ensures
            st == (Supervisor { attempt: 0, backoff: BACKOFF_INITIAL, announced: false }),
    {
        Supervisor { attempt: 0, backoff: BACKOFF_INITIAL, announced: false }
    }

    /// Counts an attempt that begins.
    pub fn begin_attempt(&mut self)
        requires
            old(self).attempt < u32::MAX,
        ensures
            *final(self) == (Supervisor { attempt: (old(self).attempt + 1) as u32, ..*old(self) }),
    {
        self.attempt = self.attempt + 1;
    }

    /// Decides after a probe, given the version that the health body names.
    pub fn decide_probe(
        &mut self,
        opts: &ConnectOptions,
        started: bool,
        health: &ProbeResult,
        local_version: &str,
        remote_version: &Option<String>,
    ) -> (d: Decision)
        ensures
            (*final(self), d@) == after_probe(
                *old(self),
                opts@,
                started,
                health@,
                local_version@,
                opt_text(*remote_version),
            ),
    {
        let ghost want = after_probe(
            *old(self),
            opts@,
            started,
            health@,
            local_version@,
            opt_text(*remote_version),
        );
        match health {
            ProbeResult::Healthy(body) => {
                let mut events: Vec<TunnelEvent> = Vec::new();
                events.push(
                    TunnelEvent::Up { health: body.clone(), reestablished: self.announced },
                );
                if !self.announced {
                    if let Some(remote) = remote_version {
                        if !versions_compatible(local_version, remote.as_str()) {
                            events.push(
                                TunnelEvent::VersionMismatch {
                                    local: local_version.to_owned(),
                                    remote: remote.clone(),
                                },
                            );
                        }
                    }
                }
                self.backoff = BACKOFF_INITIAL;
                self.announced = true;
                let d = Decision { events, kill: false, next: Next::AwaitExit };
                assert(d@.events =~= want.1.events);
                d
            },
            ProbeResult::RemoteNotListening => {
                if opts.start && !started {
                    let mut events: Vec<TunnelEvent> = Vec::new();
                    events.push(
                        TunnelEvent::StartingRemote {
                            bin: opts.remote_bin.clone(),
                            dest: opts.target.destination.clone(),
                        },
                    );
                    let d = Decision { events, kill: false, next: Next::StartRemote };
                    assert(d@.events =~= want.1.events);
                    d
                } else if opts.start {
                    end_with(
                        true,
                        start_in_vain(
                            opts.target.destination.as_str(),
                            opts.remote_port,
                            opts.remote_bin.as_str(),
                        ),
                    )
                } else {
                    end_with(
                        true,
                        nothing_listens(opts.target.destination.as_str(), opts.remote_port),
                    )
                }
            },
            ProbeResult::TunnelNotUp => {
                let over = match opts.max_retries {
                    Some(m) => self.attempt > m,
                    None => false,
                };
                if !opts.reconnect || over {
                    end_with(true, gave_up(opts.target.destination.as_str()))
                } else {
                    let mut reason = with_number(
                        "tunnel failed to come up (attempt ",
                        self.attempt as u64,
                    );
                    reason.append(")");
                    let backoff: u64 = self.backoff;
                    self.backoff = next_backoff(self.backoff);
                    retry_with(true, backoff, reason)
                }
            },
        }
    }

    /// Decides after a probe. On the first healthy one, the version in the health body is held
    /// against this client's.
    pub fn on_probe(
        &mut self,
        opts: &ConnectOptions,
        started: bool,
        health: &ProbeResult,
        local_version: &str,
    ) -> (d: Decision)
        ensures
            (*final(self), d@) == after_probe(
                *old(self),
                opts@,
                started,
                health@,
                local_version@,
                match health@ {
                    ProbeView::Healthy(body) => text_field_of_str(body, "version"@),
                    _ => None,
                },
            ),
    {
        let remote: Option<String> = match health {
            ProbeResult::Healthy(body) => extract_health_version(body.as_str()),
            _ => None,
        };
        self.decide_probe(opts, started, health, local_version, &remote)
    }

    /// Decides after `--start` failed for a reason.
    pub fn on_start_failed(&self, reason: &str) -> (d: Decision)
        ensures
            d@ == ended(true, reason@),
    {
        end_with(true, reason.to_owned())
    }

    /// Decides after `ssh` could not be run for a reason.
    pub fn on_spawn_failed(&self, reason: &str) -> (d: Decision)
        ensures
            d@ == ended(false, reason@),
    {
        end_with(false, reason.to_owned())
    }

    /// Decides after the end of `ssh` could not be waited for, for a reason.
    pub fn on_wait_failed(&self, reason: &str) -> (d: Decision)
        ensures
            d@ == ended(false, reason@),
    {
        end_with(false, reason.to_owned())
    }

    /// Decides after `ssh` ended.
    pub fn on_exit(&mut self, opts: &ConnectOptions, status: &str) -> (d: Decision)
        ensures
            (*final(self), d@) == after_exit(*old(self), opts@, status@),
    {
        if !opts.reconnect {
            return end_with(
                false,
                around("ssh tunnel exited (", status, "); reconnect disabled"),
            );
        }
        let over = match opts.max_retries {
            Some(m) => self.attempt >= m,
            None => false,
        };
        if over {
            return end_with(
                false,
                around("ssh tunnel exited (", status, "); retry budget exhausted"),
            );
        }
        let backoff: u64 = self.backoff;
        self.backoff = next_backoff(self.backoff);
        retry_with(false, backoff, around("tunnel dropped (", status, ")"))
    }
}

/// What every decision keeps: the backoff lies on the schedule, the attempt count is untouched, and
/// a tunnel that was up stays announced.
pub proof fn decisions_keep_the_state(
    st: Supervisor,
    opts: OptionsView,
    started: bool,
    health: ProbeView,
    local: Seq<char>,
    remote: Option<Seq<char>>,
    status: Seq<char>,
)
    requires
        BACKOFF_INITIAL <= st.backoff <= BACKOFF_CAP,
    ensures
        ({
            let p = after_probe(st, opts, started, health, local, remote).0;
            let e = after_exit(st, opts, status).0;
            &&& BACKOFF_INITIAL <= p.backoff <= BACKOFF_CAP
            &&& BACKOFF_INITIAL <= e.backoff <= BACKOFF_CAP
            &&& p.attempt == st.attempt && e.attempt == st.attempt
            &&& st.announced ==> p.announced && e.announced
            &&& health is Healthy ==> p.backoff == BACKOFF_INITIAL && p.announced
        }),
{
}

/// A decision to try again comes only with reconnection on, and never behind more attempts than
/// the retries allow: with `max_retries` set to `m`, no attempt after number `m + 1` begins.
pub proof fn retries_stay_within_the_budget(
    st: Supervisor,
    opts: OptionsView,
    started: bool,
    health: ProbeView,
    local: Seq<char>,
    remote: Option<Seq<char>>,
    status: Seq<char>,
)
    ensures
        ({
            let p = after_probe(st, opts, started, health, local, remote).1.next;
            let e = after_exit(st, opts, status).1.next;
            &&& p is Retry || e is Retry ==> opts.reconnect
            &&& p is Retry ==> (opts.max_retries matches Some(m) ==> st.attempt <= m)
            &&& e is Retry ==> (opts.max_retries matches Some(m) ==> st.attempt < m)
            &&& e is Retry || e is Fail
        }),
{
}

/// Supervision ends exactly with a `Fatal` event, and the error is that event's reason.
pub proof fn an_end_is_reported_twice(
    st: Supervisor,
    opts: OptionsView,
    started: bool,
    health: ProbeView,
    local: Seq<char>,
    remote: Option<Seq<char>>,
    status: Seq<char>,
)
    ensures
        ({
            let p = after_probe(st, opts, started, health, local, remote).1;
            let e = after_exit(st, opts, status).1;
            &&& p.events.len() > 0 && e.events.len() > 0
            &&& p.next is Fail <==> p.events.last() is Fatal
            &&& p.next is Fail ==> p.events.last()->Fatal_reason == p.next->reason
            &&& e.next is Fail <==> e.events.last() is Fatal
            &&& e.next is Fail ==> e.events.last()->Fatal_reason == e.next->reason
        }),
{
}

/// A tunnel that was up before comes up again without a word on versions.
pub proof fn versions_are_checked_once(
    st: Supervisor,
    opts: OptionsView,
    started: bool,
    body: Seq<char>,
    local: Seq<char>,
    remote: Option<Seq<char>>,
)
    requires
        st.announced,
    ensures
        after_probe(st, opts, started, ProbeView::Healthy(body), local, remote).1.events == seq![
            EventView::Up { health: body, reestablished: true },
        ],
{
    assert(after_probe(st, opts, started, ProbeView::Healthy(body), local, remote).1.events
        =~= seq![EventView::Up { health: body, reestablished: true }]);
}

/// `--start` touches nothing that runs: the remote server is launched only where nothing answered,
/// and once in an attempt; a tunnel to a healthy server is kept, whatever its version.
pub proof fn starting_is_for_silence(
    st: Supervisor,
    opts: OptionsView,
    started: bool,
    health: ProbeView,
    local: Seq<char>,
    remote: Option<Seq<char>>,
)
    ensures
        ({
            let d = after_probe(st, opts, started, health, local, remote).1;
            &&& d.next is StartRemote <==> opts.start && !started && health is RemoteNotListening
            &&& health is Healthy <==> d.next is AwaitExit
            &&& d.kill <==> !(health is Healthy) && !(d.next is StartRemote)
        }),
{
}

/// The events for what the remote start printed, a line each.
pub fn start_lines(stderr: &[u8]) -> (events: Vec<TunnelEvent>)
    ensures
        events@.len() == lines_of(lossy_of(stderr@)).len(),
        forall|i: int|
            0 <= i < events@.len() ==> (#[trigger] events@[i])@ == EventView::SshLine(
                lines_of(lossy_of(stderr@))[i],
            ),
{
    let text = lossy(stderr);
    let all = lines(text.as_str());
    let ghost want = lines_of(lossy_of(stderr@));
    let mut events: Vec<TunnelEvent> = Vec::new();
    let mut i: usize = 0;
    while i < all.len()
        invariant
            i <= all@.len(),
            texts(all@) == want,
            events@.len() == i,
            forall|j: int|
                0 <= j < i ==> (#[trigger] events@[j])@ == EventView::SshLine(want[j]),
        decreases all.len() - i,
    {
        assert(want[i as int] == all@[i as int]@);
        events.push(TunnelEvent::SshLine(all[i].clone()));
        i = i + 1;
    }
    events
}

/// What the command line prints for an event: whether to standard output, and the lines.
pub struct Printed {
    pub stdout: bool,
    pub lines: Vec<String>,
}

/// The address of the local end of the tunnel.
pub open spec fn url_text(local_port: u16) -> Seq<char> {
    "http://127.0.0.1:"@ + decimal(local_port as nat)
}

/// The lines for an event. Only the first announcement under `--json` goes to standard output.
pub open spec fn printed_lines(
    event: EventView,
    json: bool,
    local_port: u16,
    dest: Seq<char>,
) -> Seq<Seq<char>> {
    match event {
        EventView::Up { health, reestablished } => if reestablished {
            seq!["connect: tunnel re-established on "@ + url_text(local_port)]
        } else if json {
            seq![
                "{\"url\":\""@ + url_text(local_port) + "\",\"local_port\":"@ + decimal(
                    local_port as nat,
                ) + ",\"target\":\""@ + dest + "\",\"health\":"@ + health + "}"@,
            ]
        } else {
            seq![
                "connect: tunnel up -- server URL: "@ + url_text(local_port),
                "connect: remote /health: "@ + health,
            ]
        },
        EventView::StartingRemote { bin, dest } => seq![
            "connect: starting remote server ("@ + bin + " on "@ + dest + ")..."@,
        ],
        EventView::Retrying { backoff, reason } => seq![
            "connect: "@ + reason + "; reconnecting in "@ + decimal(backoff as nat) + "s"@,
        ],
        EventView::SshLine(line) => seq![line],
        EventView::VersionMismatch { local, remote } => seq![
            "connect: WARNING remote astroburst-server version "@ + remote
                + " is incompatible with this client "@ + local
                + " (major.minor differ); the tunnel works but the API may not — rebuild/redeploy to match."@,
        ],
        EventView::Fatal { reason } => Seq::empty(),
    }
}

fn url_of(local_port: u16) -> (s: String)
    ensures
        s@ == url_text(local_port),
{
    with_number("http://127.0.0.1:", local_port as u64)
}

/// What the command line prints for an event.
pub fn print_event(event: &TunnelEvent, json: bool, local_port: u16, dest: &str) -> (p: Printed)
    ensures
        texts(p.lines@) == printed_lines(event@, json, local_port, dest@),
        p.stdout == (json && event@ is Up && !event@->reestablished),
{
    let ghost want = printed_lines(event@, json, local_port, dest@);
    let url = url_of(local_port);
    let mut lines: Vec<String> = Vec::new();
    let mut stdout = false;
    match event {
        TunnelEvent::Up { health, reestablished } => {
            if *reestablished {
                let mut s = "connect: tunnel re-established on ".to_owned();
                s.append(url.as_str());
                lines.push(s);
            } else if json {
                stdout = true;
                let mut s = around("{\"url\":\"", url.as_str(), "\",\"local_port\":");
                let digits = format_unsigned(local_port as u64);
                s.append(digits.as_str());
                s.append(",\"target\":\"");
                s.append(dest);
                s.append("\",\"health\":");
                s.append(health.as_str());
                s.append("}");
                lines.push(s);
            } else {
                let mut s = "connect: tunnel up -- server URL: ".to_owned();
                s.append(url.as_str());
                lines.push(s);
                let mut t = "connect: remote /health: ".to_owned();
                t.append(health.as_str());
                lines.push(t);
            }
        },
        TunnelEvent::StartingRemote { bin, dest } => {
            let mut s = around("connect: starting remote server (", bin.as_str(), " on ");
            s.append(dest.as_str());
            s.append(")...");
            lines.push(s);
        },
        TunnelEvent::Retrying { backoff, reason } => {
            let mut s = around("connect: ", reason.as_str(), "; reconnecting in ");
            let digits = format_unsigned(*backoff);
            s.append(digits.as_str());
            s.append("s");
            lines.push(s);
        },
        TunnelEvent::SshLine(line) => {
            lines.push(line.clone());
        },
        TunnelEvent::VersionMismatch { local, remote } => {
            let mut s = around(
                "connect: WARNING remote astroburst-server version ",
                remote.as_str(),
                " is incompatible with this client ",
            );
            s.append(local.as_str());
            s.append(
                " (major.minor differ); the tunnel works but the API may not — rebuild/redeploy to match.",
            );
            lines.push(s);
        },
        TunnelEvent::Fatal { reason } => {},
    }
    assert(texts(lines@) =~= want);
    Printed { stdout, lines }
}

} // verus!
