//! The dashboard's state and its transitions: snapshots of the server, events of the tunnel, and
//! keys.

use std::collections::VecDeque;
use vstd::prelude::*;
use vstd::string::*;
use crate::server::supervise::{EventView, TunnelEvent};
use crate::server::connect::around;
use crate::text::{decimal, format_unsigned, same, texts};

verus! {

/// Lines that the tunnel's log keeps.
pub const TUNNEL_LOG_CAP: usize = 200;

/// What `/health` says.
#[derive(Debug, Clone, Default)]
pub struct Health {
    pub version: String,
    pub io_mode: String,
}

/// One session in the listing.
#[derive(Debug, Clone)]
pub struct SessionSummary {
    pub session_id: String,
    pub created_unix: u64,
    pub idle_secs: u64,
    pub active_ref: Option<String>,
    pub image_count: usize,
    pub cache_bytes: u64,
    pub running_jobs: usize,
    pub last_seq: u64,
}

/// One image of a session.
#[derive(Debug, Clone)]
pub struct ImageEntry {
    pub image_ref: String,
    pub width: usize,
    pub height: usize,
    pub hdu: Option<usize>,
    pub extname: Option<String>,
    pub source: Option<String>,
}

/// One event of a session's history.
#[derive(Debug, Clone)]
pub struct HistoryEvent {
    pub seq: u64,
    pub unix_ms: u64,
    pub method: String,
    pub endpoint: String,
    pub image_ref: Option<String>,
    pub status: u16,
    pub duration_ms: u64,
}

/// What is known of the selected session.
#[derive(Debug, Clone, Default)]
pub struct Detail {
    pub session_id: String,
    pub images: Vec<ImageEntry>,
    pub history: Vec<HistoryEvent>,
}

/// What one round of polling found.
#[derive(Debug, Clone, Default)]
pub struct Snapshot {
    /// `None` where the server could not be reached; `error` says why.
    pub health: Option<Health>,
    /// Milliseconds that `/health` took.
    pub latency: Option<u64>,
    pub sessions: Vec<SessionSummary>,
    pub detail: Option<Detail>,
    pub global_activity: Vec<HistoryEvent>,
    pub error: Option<String>,
}

/// Where the tunnel stands.
#[derive(Debug, Clone, PartialEq)]
pub enum TunnelPhase {
    Connecting,
    Up,
    /// The next attempt follows after that many seconds.
    Reconnecting { backoff: u64 },
    Fatal(String),
}

/// The tunnel as the dashboard shows it.
#[derive(Debug)]
pub struct TunnelState {
    pub destination: String,
    pub phase: TunnelPhase,
    pub reconnects: u32,
    pub log: VecDeque<String>,
}

/// The last lines of a log behind one more.
pub open spec fn logged<A>(log: Seq<A>, line: A) -> Seq<A> {
    let longer = log.push(line);
    if longer.len() > TUNNEL_LOG_CAP {
        longer.skip(1)
    } else {
        longer
    }
}

impl TunnelState {
    /// A tunnel that is being made.
    pub fn new(destination: String) -> (t: Self)
        ensures
            t.destination == destination,
            t.phase is Connecting,
            t.reconnects == 0,
            t.log@ == Seq::<String>::empty(),
    {
        TunnelState {
            destination,
            phase: TunnelPhase::Connecting,
            reconnects: 0,
            log: VecDeque::new(),
        }
    }

    /// Appends a line, and drops the oldest one where there are too many.
    pub fn push_log(&mut self, line: String)
        ensures
            final(self).log@ == logged(old(self).log@, line),
            final(self).destination == old(self).destination,
            final(self).phase == old(self).phase,
            final(self).reconnects == old(self).reconnects,
    {
        self.log.push_back(line);
        if self.log.len() > TUNNEL_LOG_CAP {
            let ghost full = self.log@;
            let oldest = self.log.pop_front();
            assert(self.log@ =~= full.skip(1));
        }
    }
}

/// A log within its cap stays within it.
pub proof fn the_log_is_bounded<A>(log: Seq<A>, line: A)
    requires
        log.len() <= TUNNEL_LOG_CAP,
    ensures
        logged(log, line).len() <= TUNNEL_LOG_CAP,
        logged(log, line).last() == line,
{
}

/// The panes.
#[derive(Debug, Clone, Copy, PartialEq, Eq, Structural)]
pub enum Tab {
    Overview,
    History,
    Global,
    Tunnel,
}

/// The dashboard.
pub struct App {
    pub base_url: String,
    pub health: Option<Health>,
    pub latency: Option<u64>,
    /// Why the last round of polling failed.
    pub error: Option<String>,
    pub sessions: Vec<SessionSummary>,
    /// The selection, by id, so that it survives another order of the list.
    pub selected_sid: Option<String>,
    pub detail: Option<Detail>,
    pub global_activity: Vec<HistoryEvent>,
    pub tab: Tab,
    /// How far the history is scrolled back from its end.
    pub history_scroll: usize,
    pub global_scroll: usize,
    pub tunnel: Option<TunnelState>,
    /// The session whose deletion waits to be confirmed.
    pub confirm_delete: Option<String>,
    pub should_quit: bool,
}

/// What a key asks for.
#[derive(Debug, PartialEq)]
pub enum Action {
    Nothing,
    Refresh,
    DeleteSession(String),
}

/// The place of the first session of an id, or the length.
pub open spec fn place_of_session(sessions: Seq<SessionSummary>, sid: Seq<char>) -> int
    decreases sessions.len(),
{
    if sessions.len() == 0 || sessions[0].session_id@ == sid {
        0
    } else {
        1 + place_of_session(sessions.skip(1), sid)
    }
}

/// The place of the selection in the list.
pub open spec fn selected_place(sessions: Seq<SessionSummary>, selected: Option<String>) -> Option<
    int,
> {
    match selected {
        None => None,
        Some(sid) => if place_of_session(sessions, sid@) < sessions.len() {
            Some(place_of_session(sessions, sid@))
        } else {
            None
        },
    }
}

/// The panes there are: that of the tunnel only with a tunnel.
pub open spec fn tabs_of(tunnel: bool) -> Seq<Tab> {
    if tunnel {
        seq![Tab::Overview, Tab::History, Tab::Tunnel]
    } else {
        seq![Tab::Overview, Tab::History]
    }
}

/// The selection after a new list: it stays where its session is still listed, else it falls back
/// to the first one.
pub open spec fn reselected(
    sessions: Seq<SessionSummary>,
    selected: Option<String>,
) -> Option<String> {
    if selected_place(sessions, selected) is Some {
        selected
    } else if sessions.len() > 0 {
        Some(sessions[0].session_id)
    } else {
        None
    }
}

/// Whether a detail belongs to the selection.
pub open spec fn belongs(detail: Detail, selected: Option<String>) -> bool {
    selected matches Some(sid) && sid@ == detail.session_id@
}

/// The detail after a new list: the one that came, else the one there was, but only one of the
/// selected session.
pub open spec fn redetailed(
    new: Option<Detail>,
    held: Option<Detail>,
    selected: Option<String>,
) -> Option<Detail> {
    match new {
        Some(d) => if belongs(d, selected) {
            new
        } else {
            match held {
                Some(h) => if belongs(h, selected) {
                    held
                } else {
                    None
                },
                None => None,
            }
        },
        None => match held {
            Some(h) => if belongs(h, selected) {
                held
            } else {
                None
            },
            None => None,
        },
    }
}

impl App {
    /// An empty dashboard.
    pub fn new(base_url: String, tunnel: Option<TunnelState>) -> (app: Self)
        ensures
            app.base_url == base_url,
            app.tunnel == tunnel,
            app.health is None,
            app.latency is None,
            app.error is None,
            app.sessions@ == Seq::<SessionSummary>::empty(),
            app.selected_sid is None,
            app.detail is None,
            app.global_activity@ == Seq::<HistoryEvent>::empty(),
            app.tab == Tab::Overview,
            app.history_scroll == 0,
            app.global_scroll == 0,
            app.confirm_delete is None,
            !app.should_quit,
    {
        App {
            base_url,
            health: None,
            latency: None,
            error: None,
            sessions: Vec::new(),
            selected_sid: None,
            detail: None,
            global_activity: Vec::new(),
            tab: Tab::Overview,
            history_scroll: 0,
            global_scroll: 0,
            tunnel,
            confirm_delete: None,
            should_quit: false,
        }
    }

    /// The place of the selected session in the list.
    pub fn selected_index(&self) -> (i: Option<usize>)
        ensures
            match i {
                Some(i) => selected_place(self.sessions@, self.selected_sid) == Some(i as int),
                None => selected_place(self.sessions@, self.selected_sid) is None,
            },
            i matches Some(i) ==> i < self.sessions@.len() && self.selected_sid is Some
                && self.sessions@[i as int].session_id@ == self.selected_sid->0@,
    {
        match &self.selected_sid {
            None => None,
            Some(sid) => {
                let mut i: usize = 0;
                assert(self.sessions@.skip(0) =~= self.sessions@);
                while i < self.sessions.len()
                    invariant
                        i <= self.sessions@.len(),
                        self.selected_sid == Some(*sid),
                        place_of_session(self.sessions@, sid@) == i + place_of_session(
                            self.sessions@.skip(i as int),
                            sid@,
                        ),
                    decreases self.sessions.len() - i,
                {
                    if same(self.sessions[i].session_id.as_str(), sid.as_str()) {
                        return Some(i);
                    }
                    assert(self.sessions@.skip(i as int).skip(1) =~= self.sessions@.skip(i + 1));
                    i = i + 1;
                }
                None
            },
        }
    }

    /// The selected session.
    pub fn selected_session(&self) -> (s: Option<&SessionSummary>)
        ensures
            match s {
                Some(s) => selected_place(self.sessions@, self.selected_sid) is Some && *s
                    == self.sessions@[selected_place(self.sessions@, self.selected_sid)->0],
                None => selected_place(self.sessions@, self.selected_sid) is None,
            },
    {
        match self.selected_index() {
            Some(i) => Some(&self.sessions[i]),
            None => None,
        }
    }

    /// The panes there are.
    pub fn tabs(&self) -> (tabs: Vec<Tab>)
        ensures
            tabs@ == tabs_of(self.tunnel is Some),
    {
        let mut tabs: Vec<Tab> = Vec::new();
        tabs.push(Tab::Overview);
        tabs.push(Tab::History);
        if self.tunnel.is_some() {
            tabs.push(Tab::Tunnel);
        }
        assert(tabs@ =~= tabs_of(self.tunnel is Some));
        tabs
    }

    /// Takes over a snapshot.
    pub fn apply(&mut self, snap: Snapshot)
        ensures
            *final(self) == (App {
                health: if snap.health is Some {
                    snap.health
                } else {
                    old(self).health
                },
                latency: if snap.latency is Some {
                    snap.latency
                } else {
                    old(self).latency
                },
                error: snap.error,
                sessions: snap.sessions,
                selected_sid: reselected(snap.sessions@, old(self).selected_sid),
                detail: redetailed(
                    snap.detail,
                    old(self).detail,
                    reselected(snap.sessions@, old(self).selected_sid),
                ),
                global_activity: snap.global_activity,
                ..*old(self)
            }),
    {
        if let Some(h) = snap.health {
            self.health = Some(h);
        }
        if let Some(l) = snap.latency {
            self.latency = Some(l);
        }
        self.error = snap.error;
        self.sessions = snap.sessions;
        self.global_activity = snap.global_activity;
        if self.selected_index().is_none() {
            if self.sessions.len() > 0 {
                self.selected_sid = Some(self.sessions[0].session_id.clone());
            } else {
                self.selected_sid = None;
            }
        }
        if let Some(d) = snap.detail {
            if detail_belongs(&d, &self.selected_sid) {
                self.detail = Some(d);
            }
        }
        let stale = match &self.detail {
            Some(d) => !detail_belongs(d, &self.selected_sid),
            None => false,
        };
        if stale {
            self.detail = None;
        }
    }
}

fn detail_belongs(detail: &Detail, selected: &Option<String>) -> (b: bool)
    ensures
        b == belongs(*detail, *selected),
{
    match selected {
        Some(sid) => same(sid.as_str(), detail.session_id.as_str()),
        None => false,
    }
}

/// After a snapshot, the selection is a listed session, or none where none is listed; and a detail
/// is one of the selected session.
pub proof fn the_selection_is_listed(
    sessions: Seq<SessionSummary>,
    selected: Option<String>,
    new: Option<Detail>,
    held: Option<Detail>,
)
    ensures
        reselected(sessions, selected) is None <==> sessions.len() == 0,
        sessions.len() > 0 ==> selected_place(sessions, reselected(sessions, selected)) is Some,
        selected_place(sessions, selected) is Some ==> reselected(sessions, selected) == selected,
        redetailed(new, held, reselected(sessions, selected)) matches Some(d) ==> belongs(
            d,
            reselected(sessions, selected),
        ),
{
    if sessions.len() > 0 {
        assert(place_of_session(sessions, sessions[0].session_id@) == 0);
    }
}

/// The line that an event leaves in the tunnel's log.
pub open spec fn event_line(event: EventView) -> Seq<char> {
    match event {
        EventView::Up { reestablished, .. } => if reestablished {
            "tunnel re-established"@
        } else {
            "tunnel up"@
        },
        EventView::StartingRemote { bin, dest } => "starting remote server ("@ + bin + " on "@
            + dest + ")"@,
        EventView::Retrying { backoff, reason } => reason + "; reconnecting in "@ + decimal(
            backoff as nat,
        ) + "s"@,
        EventView::SshLine(line) => "ssh: "@ + line,
        EventView::VersionMismatch { local, remote } => "WARNING version mismatch: remote "@ + remote
            + " vs client "@ + local,
        EventView::Fatal { reason } => "FATAL: "@ + reason,
    }
}

/// Whether `phase` is the one after an event in phase `before`.
pub open spec fn is_phase_after(before: TunnelPhase, event: EventView, phase: TunnelPhase) -> bool {
    match event {
        EventView::Up { .. } => phase is Up,
        EventView::Retrying { backoff, .. } => phase == (TunnelPhase::Reconnecting { backoff }),
        EventView::Fatal { reason } => phase is Fatal && phase->Fatal_0@ == reason,
        _ => phase == before,
    }
}

/// Whether the tunnel is `after` an event where it was `before`.
pub open spec fn is_tunnel_after(before: TunnelState, event: EventView, after: TunnelState) -> bool {
    &&& after.destination == before.destination
    &&& after.reconnects == before.reconnects + if event is Up && event->reestablished {
        1int
    } else {
        0int
    }
    &&& texts(after.log@) == logged(texts(before.log@), event_line(event))
    &&& is_phase_after(before.phase, event, after.phase)
}

/// The line of an event.
fn line_of(event: &TunnelEvent) -> (line: String)
    ensures
        line@ == event_line(event@),
{
    match event {
        TunnelEvent::Up { health, reestablished } => if *reestablished {
            "tunnel re-established".to_owned()
        } else {
            "tunnel up".to_owned()
        },
        TunnelEvent::StartingRemote { bin, dest } => {
            let mut line = around("starting remote server (", bin.as_str(), " on ");
            line.append(dest.as_str());
            line.append(")");
            line
        },
        TunnelEvent::Retrying { backoff, reason } => {
            let mut line = reason.clone();
            line.append("; reconnecting in ");
            let digits = format_unsigned(*backoff);
            line.append(digits.as_str());
            line.append("s");
            line
        },
        TunnelEvent::SshLine(text) => {
            let mut line = "ssh: ".to_owned();
            line.append(text.as_str());
            line
        },
        TunnelEvent::VersionMismatch { local, remote } => {
            let mut line = around(
                "WARNING version mismatch: remote ",
                remote.as_str(),
                " vs client ",
            );
            line.append(local.as_str());
            line
        },
        TunnelEvent::Fatal { reason } => {
            let mut line = "FATAL: ".to_owned();
            line.append(reason.as_str());
            line
        },
    }
}

/// The place `delta` steps from `from`, held within the list.
pub open spec fn stepped(from: int, delta: int, len: int) -> int {
    if from + delta < 0 {
        0
    } else if from + delta > len - 1 {
        len - 1
    } else {
        from + delta
    }
}

/// The dashboard after the selection moved by `delta`.
pub open spec fn moved(app: App, delta: int) -> App {
    if app.sessions@.len() == 0 {
        App { selected_sid: None, ..app }
    } else {
        let from = match selected_place(app.sessions@, app.selected_sid) {
            Some(i) => i,
            None => 0,
        };
        let sid = app.sessions@[stepped(from, delta, app.sessions@.len() as int)].session_id;
        if app.selected_sid matches Some(held) && held@ == sid@ {
            app
        } else {
            App { selected_sid: Some(sid), detail: None, history_scroll: 0, ..app }
        }
    }
}

/// The pane next to one, round the panes there are.
pub open spec fn tab_beside(tab: Tab, tunnel: bool, forward: bool) -> Tab {
    let tabs = tabs_of(tunnel);
    let at: int = if tab == Tab::History {
        1
    } else if tab == Tab::Tunnel && tunnel {
        2
    } else {
        0
    };
    if forward {
        tabs[(at + 1) % (tabs.len() as int)]
    } else {
        tabs[(at + tabs.len() - 1) % (tabs.len() as int)]
    }
}

/// The events that the history pane can scroll over.
pub open spec fn history_len(app: App) -> nat {
    match app.detail {
        Some(d) => d.history@.len(),
        None => 0,
    }
}

/// The dashboard after a key, and what the key asks for.
pub open spec fn after_key(app: App, code: Seq<char>) -> (App, Action) {
    match app.confirm_delete {
        Some(sid) => if code == "y"@ {
            (App { confirm_delete: None, ..app }, Action::DeleteSession(sid))
        } else if code == "n"@ || code == "esc"@ || code == "q"@ {
            (App { confirm_delete: None, ..app }, Action::Nothing)
        } else {
            (app, Action::Nothing)
        },
        None => if code == "q"@ || code == "ctrl-c"@ {
            (App { should_quit: true, ..app }, Action::Nothing)
        } else if code == "j"@ || code == "down"@ {
            (moved(app, 1), Action::Refresh)
        } else if code == "k"@ || code == "up"@ {
            (moved(app, -1), Action::Refresh)
        } else if code == "tab"@ || code == "l"@ {
            (App { tab: tab_beside(app.tab, app.tunnel is Some, true), ..app }, Action::Nothing)
        } else if code == "backtab"@ || code == "h"@ {
            (App { tab: tab_beside(app.tab, app.tunnel is Some, false), ..app }, Action::Nothing)
        } else if code == "r"@ {
            (app, Action::Refresh)
        } else if code == "d"@ {
            match selected_place(app.sessions@, app.selected_sid) {
                Some(i) => (
                    App { confirm_delete: Some(app.sessions@[i].session_id), ..app },
                    Action::Nothing,
                ),
                None => (app, Action::Nothing),
            }
        } else if code == "pageup"@ {
            let last: int = if history_len(app) == 0 {
                0
            } else {
                history_len(app) - 1
            };
            (
                App {
                    history_scroll: if app.history_scroll + 10 < last {
                        (app.history_scroll + 10) as usize
                    } else {
                        last as usize
                    },
                    ..app
                },
                Action::Nothing,
            )
        } else if code == "pagedown"@ {
            (
                App {
                    history_scroll: if app.history_scroll > 10 {
                        (app.history_scroll - 10) as usize
                    } else {
                        0
                    },
                    ..app
                },
                Action::Nothing,
            )
        } else if code == "end"@ {
            (App { history_scroll: 0, ..app }, Action::Nothing)
        } else {
            (app, Action::Nothing)
        },
    }
}

impl App {
    /// Takes over an event of the tunnel; without a tunnel there is nothing to take over.
    pub fn apply_tunnel(&mut self, event: TunnelEvent)
        requires
            event@ matches EventView::Up { reestablished: true, .. } ==> (old(
                self,
            ).tunnel matches Some(t) ==> t.reconnects < u32::MAX),
        ensures
            *final(self) == (App { tunnel: final(self).tunnel, ..*old(self) }),
            match (old(self).tunnel, final(self).tunnel) {
                (None, None) => true,
                (Some(before), Some(after)) => is_tunnel_after(before, event@, after),
                _ => false,
            },
    {
        match self.tunnel.take() {
            None => {},
            Some(tunnel) => {
                let mut t = tunnel;
                let line = line_of(&event);
                let ghost before = t.log@;
                t.push_log(line);
                assert(texts(t.log@) =~= logged(texts(before), line@));
                match event {
                    TunnelEvent::Up { health, reestablished } => {
                        if reestablished {
                            t.reconnects = t.reconnects + 1;
                        }
                        t.phase = TunnelPhase::Up;
                    },
                    TunnelEvent::Retrying { backoff, reason } => {
                        t.phase = TunnelPhase::Reconnecting { backoff };
                    },
                    TunnelEvent::Fatal { reason } => {
                        t.phase = TunnelPhase::Fatal(reason);
                    },
                    _ => {},
                }
                self.tunnel = Some(t);
            },
        }
    }

    /// Moves the selection.
    pub fn select_delta(&mut self, delta: isize)
        ensures
            *final(self) == moved(*old(self), delta as int),
    {
        if self.sessions.len() == 0 {
            self.selected_sid = None;
            return ;
        }
        let cur: usize = match self.selected_index() {
            Some(i) => i,
            None => 0,
        };
        let to: i128 = cur as i128 + delta as i128;
        let last: usize = self.sessions.len() - 1;
        let next: usize = if to < 0 {
            0
        } else if to > last as i128 {
            last
        } else {
            to as usize
        };
        let stays = match &self.selected_sid {
            Some(held) => same(held.as_str(), self.sessions[next].session_id.as_str()),
            None => false,
        };
        if !stays {
            self.selected_sid = Some(self.sessions[next].session_id.clone());
            self.detail = None;
            self.history_scroll = 0;
        }
    }

    /// Goes to the next pane, or to the one before.
    pub fn cycle_tab(&mut self, forward: bool)
        ensures
            *final(self) == (App {
                tab: tab_beside(old(self).tab, old(self).tunnel is Some, forward),
                ..*old(self)
            }),
    {
        let tabs = self.tabs();
        let mut cur: usize = 0;
        let mut i: usize = 0;
        while i < tabs.len()
            invariant
                i <= tabs@.len(),
                tabs@ == tabs_of(self.tunnel is Some),
                cur == if i > 1 && self.tab == Tab::History {
                    1int
                } else if i > 2 && self.tab == Tab::Tunnel {
                    2int
                } else {
                    0int
                },
            decreases tabs.len() - i,
        {
            if tabs[i] == self.tab {
                cur = i;
            }
            i = i + 1;
        }
        let next: usize = if forward {
            (cur + 1) % tabs.len()
        } else {
            (cur + tabs.len() - 1) % tabs.len()
        };
        self.tab = tabs[next];
    }

    /// Shows that a session could not be deleted.
    pub fn delete_failed(&mut self, reason: &str)
        ensures
            final(self).error matches Some(text) && text@ == "delete failed: "@ + reason@,
            *final(self) == (App { error: final(self).error, ..*old(self) }),
    {
        let mut text = "delete failed: ".to_owned();
        text.append(reason);
        self.error = Some(text);
    }

    /// Takes a key by its name, and says what it asks for. While a deletion waits to be confirmed,
    /// it takes every key.
    pub fn on_key(&mut self, code: &str) -> (action: Action)
        ensures
            (*final(self), action) == after_key(*old(self), code@),
    {
        if self.confirm_delete.is_some() {
            if same(code, "y") {
                return match self.confirm_delete.take() {
                    Some(sid) => Action::DeleteSession(sid),
                    None => Action::Nothing,
                };
            }
            if same(code, "n") || same(code, "esc") || same(code, "q") {
                self.confirm_delete = None;
            }
            return Action::Nothing;
        }
        if same(code, "q") || same(code, "ctrl-c") {
            self.should_quit = true;
            Action::Nothing
        } else if same(code, "j") || same(code, "down") {
            self.select_delta(1);
            Action::Refresh
        } else if same(code, "k") || same(code, "up") {
            self.select_delta(-1);
            Action::Refresh
        } else if same(code, "tab") || same(code, "l") {
            self.cycle_tab(true);
            Action::Nothing
        } else if same(code, "backtab") || same(code, "h") {
            self.cycle_tab(false);
            Action::Nothing
        } else if same(code, "r") {
            Action::Refresh
        } else if same(code, "d") {
            let sid: Option<String> = match self.selected_session() {
                Some(s) => Some(s.session_id.clone()),
                None => None,
            };
            if sid.is_some() {
                self.confirm_delete = sid;
            }
            Action::Nothing
        } else if same(code, "pageup") {
            let len: usize = match &self.detail {
                Some(d) => d.history.len(),
                None => 0,
            };
            let last: usize = if len == 0 {
                0
            } else {
                len - 1
            };
            if last > 10 && self.history_scroll < last - 10 {
                self.history_scroll = self.history_scroll + 10;
            } else {
                self.history_scroll = last;
            }
            Action::Nothing
        } else if same(code, "pagedown") {
            if self.history_scroll > 10 {
                self.history_scroll = self.history_scroll - 10;
            } else {
                self.history_scroll = 0;
            }
            Action::Nothing
        } else if same(code, "end") {
            self.history_scroll = 0;
            Action::Nothing
        } else {
            Action::Nothing
        }
    }
}

/// A session is deleted only by a key while its deletion waits to be confirmed; asking for the
/// deletion only makes it wait.
pub proof fn deletion_needs_confirmation(app: App, code: Seq<char>)
    ensures
        after_key(app, code).1 is DeleteSession ==> app.confirm_delete == Some(
            after_key(app, code).1->DeleteSession_0,
        ) && code == "y"@,
        app.confirm_delete is None ==> !(after_key(app, code).1 is DeleteSession),
{
}

/// While a deletion waits to be confirmed, no key changes anything else.
pub proof fn the_question_takes_every_key(app: App, code: Seq<char>)
    requires
        app.confirm_delete is Some,
    ensures
        after_key(app, code).0 == (App {
            confirm_delete: after_key(app, code).0.confirm_delete,
            ..app
        }),
        after_key(app, code).0.confirm_delete is Some ==> after_key(app, code).0 == app,
{
}

/// From every pane that there is, a step forward undoes a step back, and the other way round.
pub proof fn panes_go_round(tab: Tab, tunnel: bool)
    requires
        tabs_of(tunnel).contains(tab),
    ensures
        tab_beside(tab_beside(tab, tunnel, true), tunnel, false) == tab,
        tab_beside(tab_beside(tab, tunnel, false), tunnel, true) == tab,
        tabs_of(tunnel).contains(tab_beside(tab, tunnel, true)),
        tabs_of(tunnel).contains(tab_beside(tab, tunnel, false)),
{
    let tabs = tabs_of(tunnel);
    let i = choose|i: int| 0 <= i < tabs.len() && tabs[i] == tab;
    assert(tabs[0] == Tab::Overview && tabs[1] == Tab::History);
    if tunnel {
        assert(tabs.len() == 3 && tabs[2] == Tab::Tunnel);
        assert(1int % 3 == 1 && 2int % 3 == 2 && 3int % 3 == 0 && 4int % 3 == 1);
    } else {
        assert(tabs.len() == 2);
        assert(1int % 2 == 1 && 2int % 2 == 0);
    }
}

} // verus!
