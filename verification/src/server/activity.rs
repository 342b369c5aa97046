//! The activity log: a bounded ring of recent requests, and which requests it records.
//!
//! Reads that a dashboard polls in a loop are left out, so that a dashboard does not flood the
//! log that it shows.

use std::collections::VecDeque;
use vstd::prelude::*;
use vstd::string::*;
use crate::server::json::{slice_text_field, text_field_of_slice};
use crate::text::{
    copy_opt, first_of, opt_text, same, split_once, starts_with, strip_prefix, trim_end_matches,
    without_trailing,
};

verus! {

/// Events that the ring holds at most; older ones are dropped.
pub const ACTIVITY_CAPACITY: usize = 200;

/// Request bodies up to this size are searched for the image they address.
pub const MAX_SNIFF_BODY_BYTES: u64 = 65536;

/// One recorded request.
#[derive(Debug)]
pub struct ActivityEvent {
    /// The place of the event among all that were recorded, from 1.
    pub seq: u64,
    /// Milliseconds since the Unix epoch.
    pub unix_ms: u64,
    pub method: String,
    /// The path behind the session, such as `open` or `wcs/pix2sky`.
    pub endpoint: String,
    /// The image that the request addressed.
    pub image_ref: Option<String>,
    pub status: u16,
    pub duration_ms: u64,
}

impl Clone for ActivityEvent {
    fn clone(&self) -> (e: Self)
        ensures
            e == *self,
    {
        ActivityEvent {
            seq: self.seq,
            unix_ms: self.unix_ms,
            method: self.method.clone(),
            endpoint: self.endpoint.clone(),
            image_ref: copy_opt(&self.image_ref),
            status: self.status,
            duration_ms: self.duration_ms,
        }
    }
}

/// The events behind number `since`.
pub open spec fn newer(events: Seq<ActivityEvent>, since: u64) -> Seq<ActivityEvent>
    decreases events.len(),
{
    if events.len() == 0 {
        Seq::empty()
    } else if events.last().seq > since {
        newer(events.drop_last(), since).push(events.last())
    } else {
        newer(events.drop_last(), since)
    }
}

/// The last `limit` of some events.
pub open spec fn newest(events: Seq<ActivityEvent>, limit: nat) -> Seq<ActivityEvent> {
    if events.len() > limit {
        events.skip(events.len() - limit)
    } else {
        events
    }
}

/// The number of the first event that a ring holds, or zero.
pub open spec fn first_seq_of(events: Seq<ActivityEvent>) -> u64 {
    if events.len() == 0 {
        0
    } else {
        events[0].seq
    }
}

/// A bounded ring of numbered events.
pub struct ActivityLog {
    next_seq: u64,
    events: VecDeque<ActivityEvent>,
}

impl ActivityLog {
    /// The number of events ever recorded.
    pub closed spec fn recorded(&self) -> u64 {
        self.next_seq
    }

    /// The events that the ring holds, oldest first.
    pub closed spec fn held(&self) -> Seq<ActivityEvent> {
        self.events@
    }

    /// The ring holds the last events, as many as it has room for, numbered without a gap up to the
    /// number of events recorded.
    pub open spec fn wf(&self) -> bool {
        &&& self.held().len() == if self.recorded() < ACTIVITY_CAPACITY {
            self.recorded() as nat
        } else {
            ACTIVITY_CAPACITY as nat
        }
        &&& forall|i: int|
            0 <= i < self.held().len() ==> (#[trigger] self.held()[i]).seq == self.recorded()
                - self.held().len() + 1 + i
    }

    /// An empty log.
    pub fn new() -> (log: Self)
        ensures
            log.wf(),
            log.recorded() == 0,
            log.held() == Seq::<ActivityEvent>::empty(),
    {
        ActivityLog { next_seq: 0, events: VecDeque::new() }
    }

    /// Appends an event under the next number.
    pub fn record(&mut self, event: ActivityEvent)
        requires
            old(self).wf(),
            old(self).recorded() < u64::MAX,
        ensures
            final(self).wf(),
            final(self).recorded() == old(self).recorded() + 1,
            final(self).held() == newest(
                old(self).held().push(
                    (ActivityEvent { seq: (old(self).recorded() + 1) as u64, ..event }),
                ),
                ACTIVITY_CAPACITY as nat,
            ),
    {
        let mut event = event;
        self.next_seq = self.next_seq + 1;
        event.seq = self.next_seq;
        self.events.push_back(event);
        if self.events.len() > ACTIVITY_CAPACITY {
            let ghost full = self.events@;
            let oldest = self.events.pop_front();
            assert(self.events@ =~= full.skip(1));
        }
    }

    /// The number of the last event, or zero.
    pub fn last_seq(&self) -> (seq: u64)
        ensures
            seq == self.recorded(),
    {
        self.next_seq
    }

    /// The newest `limit` events behind number `since_seq`, oldest first, with the numbers of the
    /// first event in the ring and of the last one.
    pub fn events_since(&self, since_seq: u64, limit: usize) -> (r: (Vec<ActivityEvent>, u64, u64))
        ensures
            r.0@ == newest(newer(self.held(), since_seq), limit as nat),
            r.1 == first_seq_of(self.held()),
            r.2 == self.recorded(),
    {
        let first_seq: u64 = if self.events.len() == 0 {
            0
        } else {
            self.events[0].seq
        };
        let mut events: Vec<ActivityEvent> = Vec::new();
        let mut i: usize = 0;
        while i < self.events.len()
            invariant
                i <= self.events@.len(),
                events@ == newer(self.events@.take(i as int), since_seq),
            decreases self.events.len() - i,
        {
            assert(self.events@.take(i + 1).drop_last() =~= self.events@.take(i as int));
            if self.events[i].seq > since_seq {
                events.push(self.events[i].clone());
            }
            i = i + 1;
        }
        assert(self.events@.take(i as int) =~= self.events@);
        if events.len() > limit {
            let n: usize = events.len() - limit;
            let kept = events.split_off(n);
            assert(kept@ =~= newest(newer(self.held(), since_seq), limit as nat));
            (kept, first_seq, self.next_seq)
        } else {
            (events, first_seq, self.next_seq)
        }
    }
}

proof fn lemma_newer_is_a_suffix(events: Seq<ActivityEvent>, since: u64, first: int)
    requires
        forall|i: int| 0 <= i < events.len() ==> (#[trigger] events[i]).seq == first + i,
    ensures
        newer(events, since) == events.skip(
            if since < first {
                0
            } else if since - first + 1 > events.len() {
                events.len() as int
            } else {
                since - first + 1
            },
        ),
    decreases events.len(),
{
    let n: int = if since < first {
        0
    } else if since - first + 1 > events.len() {
        events.len() as int
    } else {
        since - first + 1
    };
    if events.len() > 0 {
        lemma_newer_is_a_suffix(events.drop_last(), since, first);
        assert(newer(events, since) =~= events.skip(n));
    } else {
        assert(newer(events, since) =~= events.skip(n));
    }
}

/// A poller that has seen all events up to `since` gets every later one exactly where the first
/// event in the ring is not behind the next one it waits for; the events it gets are then the
/// numbers from `since + 1` on.
pub proof fn a_gap_shows_in_first_seq(log: ActivityLog, since: u64)
    requires
        log.wf(),
        since <= log.recorded(),
    ensures
        newer(log.held(), since).len() == log.recorded() - since <==> (since == log.recorded()
            || first_seq_of(log.held()) <= since + 1),
        forall|i: int|
            0 <= i < newer(log.held(), since).len() ==> (#[trigger] newer(log.held(), since)[i]).seq
                == log.recorded() - newer(log.held(), since).len() + 1 + i,
{
    let first: int = log.recorded() - log.held().len() + 1;
    lemma_newer_is_a_suffix(log.held(), since, first);
    if log.held().len() > 0 {
        assert(log.held()[0].seq == first);
    }
}

/// The session and the endpoint that a path names.
pub open spec fn session_path(path: Seq<char>) -> Option<(Seq<char>, Seq<char>)> {
    if "/v2/sessions/"@.is_prefix_of(path) {
        Some(session_parts(path.skip("/v2/sessions/"@.len() as int)))
    } else if "/sessions/"@.is_prefix_of(path) {
        Some(session_parts(path.skip("/sessions/"@.len() as int)))
    } else {
        None
    }
}

/// What stands before the first slash, and behind it without trailing slashes.
pub open spec fn session_parts(rest: Seq<char>) -> (Seq<char>, Seq<char>) {
    let i = first_of(rest, '/');
    if i < rest.len() {
        (rest.take(i), without_trailing(rest.skip(i + 1), '/'))
    } else {
        (rest, Seq::empty())
    }
}

/// Splits a session's path into its id and the endpoint.
pub fn split_session_path<'a>(path: &'a str) -> (r: Option<(&'a str, &'a str)>)
    ensures
        match r {
            Some(parts) => session_path(path@) == Some((parts.0@, parts.1@)),
            None => session_path(path@) is None,
        },
{
    let rest = match strip_prefix(path, "/v2/sessions/") {
        Some(rest) => rest,
        None => match strip_prefix(path, "/sessions/") {
            Some(rest) => rest,
            None => {
                return None;
            },
        },
    };
    match split_once(rest, '/') {
        Some((sid, endpoint)) => Some((sid, trim_end_matches(endpoint, '/'))),
        None => {
            let n: usize = rest.unicode_len();
            let nothing = rest.substring_char(n, n);
            assert(nothing@ =~= Seq::<char>::empty());
            Some((rest, nothing))
        },
    }
}

/// Endpoints that are left out of the log.
pub open spec fn excluded(method: Seq<char>, endpoint: Seq<char>) -> bool {
    ||| endpoint == Seq::<char>::empty()
    ||| endpoint == "history"@
    ||| endpoint == "images"@
    ||| endpoint == "keepalive"@
    ||| (method == "GET"@ && "jobs/"@.is_prefix_of(endpoint))
}

/// Whether an endpoint is left out of the log.
pub fn is_excluded(method: &str, endpoint: &str) -> (r: bool)
    ensures
        r == excluded(method@, endpoint@),
{
    assert((endpoint@.len() == 0) == (endpoint@ =~= Seq::<char>::empty()));
    endpoint.unicode_len() == 0 || same(endpoint, "history") || same(endpoint, "images") || same(
        endpoint,
        "keepalive",
    ) || (same(method, "GET") && starts_with(endpoint, "jobs/"))
}

/// Whether a path without a session is recorded in the log of the whole process.
pub fn global_endpoint(path: &str) -> (r: bool)
    ensures
        r == "/v2/fs/"@.is_prefix_of(path@),
{
    starts_with(path, "/v2/fs/")
}

/// A query as the log shows it: its first 80 characters, with an ellipsis where there are more.
pub open spec fn shown_query(query: Seq<char>) -> Option<Seq<char>> {
    if query.len() == 0 {
        None
    } else if query.len() <= 80 {
        Some(query)
    } else {
        Some(query.take(80).push('…'))
    }
}

/// Shortens a query for the log.
pub fn truncate_query(query: &str) -> (r: Option<String>)
    ensures
        opt_text(r) == shown_query(query@),
{
    let n: usize = query.unicode_len();
    if n == 0 {
        return None;
    }
    if n <= 80 {
        Some(query.to_owned())
    } else {
        let mut s = query.substring_char(0, 80).to_owned();
        s.push('…');
        Some(s)
    }
}

/// The image that a request body names: `image_ref`, else `target_ref`.
pub fn pick_ref(image_ref: Option<String>, target_ref: Option<String>) -> (r: Option<String>)
    ensures
        r == if image_ref is Some {
            image_ref
        } else {
            target_ref
        },
{
    match image_ref {
        Some(r) => Some(r),
        None => target_ref,
    }
}

/// Finds the image that a JSON request body names.
pub fn ref_from_body(bytes: &[u8]) -> (r: Option<String>)
    ensures
        opt_text(r) == if text_field_of_slice(bytes@, "image_ref"@) is Some {
            text_field_of_slice(bytes@, "image_ref"@)
        } else {
            text_field_of_slice(bytes@, "target_ref"@)
        },
{
    pick_ref(slice_text_field(bytes, "image_ref"), slice_text_field(bytes, "target_ref"))
}

/// Where a request is recorded.
#[derive(Debug, PartialEq, Eq)]
pub enum Recorded {
    /// In the session's log, under an endpoint.
    Session { sid: String, endpoint: String },
    /// In the process's log, under its path.
    Global,
    /// Nowhere.
    Unrecorded,
}

/// What a `Recorded` says.
pub enum RecordedView {
    Session { sid: Seq<char>, endpoint: Seq<char> },
    Global,
    Unrecorded,
}

impl View for Recorded {
    type V = RecordedView;

    open spec fn view(&self) -> RecordedView {
        match self {
            Recorded::Session { sid, endpoint } => RecordedView::Session {
                sid: sid@,
                endpoint: endpoint@,
            },
            Recorded::Global => RecordedView::Global,
            Recorded::Unrecorded => RecordedView::Unrecorded,
        }
    }
}

/// Where a request is recorded: with its session, unless its endpoint is left out; else with the
/// process, where it reads the file system.
pub open spec fn recorded_at(method: Seq<char>, path: Seq<char>) -> RecordedView {
    let global = if "/v2/fs/"@.is_prefix_of(path) {
        RecordedView::Global
    } else {
        RecordedView::Unrecorded
    };
    match session_path(path) {
        Some((sid, endpoint)) => if excluded(method, endpoint) {
            global
        } else {
            RecordedView::Session { sid, endpoint }
        },
        None => global,
    }
}

proof fn lemma_endpoint_of(sid: Seq<char>, endpoint: Seq<char>)
    requires
        !sid.contains('/'),
        endpoint.len() > 0,
        endpoint.last() != '/',
    ensures
        session_parts(sid + seq!['/'] + endpoint) == (sid, endpoint),
        session_parts(sid) == (sid, Seq::<char>::empty()),
{
    let rest = sid + seq!['/'] + endpoint;
    lemma_first_slash(sid, seq!['/'] + endpoint);
    lemma_first_slash(sid, Seq::empty());
    assert(sid + (seq!['/'] + endpoint) =~= rest);
    assert(sid + Seq::<char>::empty() =~= sid);
    assert(rest.take(sid.len() as int) =~= sid);
    assert(rest.skip(sid.len() as int + 1) =~= endpoint);
}

proof fn lemma_first_slash(sid: Seq<char>, tail: Seq<char>)
    requires
        !sid.contains('/'),
        tail.len() == 0 || tail[0] == '/',
    ensures
        first_of(sid + tail, '/') == sid.len(),
    decreases sid.len(),
{
    if sid.len() > 0 {
        assert(sid[0] != '/') by {
            assert(sid.contains(sid[0]));
        }
        assert((sid + tail).skip(1) =~= sid.skip(1) + tail);
        assert(!sid.skip(1).contains('/')) by {
            if sid.skip(1).contains('/') {
                let i = choose|i: int| 0 <= i < sid.skip(1).len() && sid.skip(1)[i] == '/';
                assert(sid[i + 1] == '/');
            }
        }
        lemma_first_slash(sid.skip(1), tail);
    } else {
        assert(sid + tail =~= tail);
    }
}

/// What a dashboard asks for in a loop is recorded nowhere: the status of a session, its history,
/// its images, and the request that keeps it alive.
pub proof fn watching_is_not_recorded(method: Seq<char>, sid: Seq<char>)
    requires
        !sid.contains('/'),
    ensures
        recorded_at(method, "/v2/sessions/"@ + sid) is Unrecorded,
        recorded_at(method, "/v2/sessions/"@ + sid + seq!['/'] + "history"@) is Unrecorded,
        recorded_at(method, "/v2/sessions/"@ + sid + seq!['/'] + "images"@) is Unrecorded,
        recorded_at(method, "/v2/sessions/"@ + sid + seq!['/'] + "keepalive"@) is Unrecorded,
{
    let start = "/v2/sessions/"@;
    reveal_strlit("/v2/sessions/");
    reveal_strlit("/v2/fs/");
    reveal_strlit("history");
    reveal_strlit("images");
    reveal_strlit("keepalive");
    lemma_endpoint_of(sid, "history"@);
    lemma_endpoint_of(sid, "images"@);
    lemma_endpoint_of(sid, "keepalive"@);
    assert((start + sid).skip(start.len() as int) =~= sid);
    assert forall|endpoint: Seq<char>|
        (#[trigger] (start + sid + seq!['/'] + endpoint)).skip(start.len() as int) == sid + seq![
            '/',
        ] + endpoint by {
        assert((start + sid + seq!['/'] + endpoint).skip(start.len() as int) =~= sid + seq!['/']
            + endpoint);
    }
    assert forall|tail: Seq<char>|
        start.is_prefix_of(#[trigger] (start + tail)) && !"/v2/fs/"@.is_prefix_of(start + tail) by {
        assert((start + tail)[4] == 's');
        assert("/v2/fs/"@[4] == 'f');
        assert((start + tail).subrange(0, start.len() as int) =~= start);
    }
    assert(start + sid + seq!['/'] + "history"@ =~= start + (sid + seq!['/'] + "history"@));
    assert(start + sid + seq!['/'] + "images"@ =~= start + (sid + seq!['/'] + "images"@));
    assert(start + sid + seq!['/'] + "keepalive"@ =~= start + (sid + seq!['/'] + "keepalive"@));
}

/// Decides where a request is recorded.
pub fn record_target(method: &str, path: &str) -> (r: Recorded)
    ensures
        r@ == recorded_at(method@, path@),
{
    if let Some((sid, endpoint)) = split_session_path(path) {
        if !is_excluded(method, endpoint) {
            return Recorded::Session { sid: sid.to_owned(), endpoint: endpoint.to_owned() };
        }
    }
    if global_endpoint(path) {
        Recorded::Global
    } else {
        Recorded::Unrecorded
    }
}

/// Whether a body of the declared length is searched for the image it names.
pub fn sniffs_body(content_length: Option<u64>) -> (r: bool)
    ensures
        r == (content_length matches Some(n) && 0 < n <= MAX_SNIFF_BODY_BYTES),
{
    match content_length {
        Some(n) => n > 0 && n <= MAX_SNIFF_BODY_BYTES,
        None => false,
    }
}

/// The declared length that a header's text gives.
pub fn content_length(header: &str) -> (r: Option<u64>)
    ensures
        match r {
            Some(n) => crate::text::parsed_unsigned(header@, u64::MAX as nat) == Some(n as nat),
            None => crate::text::parsed_unsigned(header@, u64::MAX as nat) is None,
        },
{
    crate::text::parse_unsigned(header, u64::MAX)
}

/// The image that an event names: the one in the request body, else the active one where the
/// request succeeded.
pub open spec fn named_ref(
    body_ref: Option<String>,
    status: u16,
    active_ref: Option<String>,
) -> Option<String> {
    if body_ref is Some {
        body_ref
    } else if 200 <= status < 300 {
        active_ref
    } else {
        None
    }
}

/// Finds the image that an event names.
pub fn event_ref(body_ref: Option<String>, status: u16, active_ref: &Option<String>) -> (r: Option<
    String,
>)
    ensures
        r == named_ref(body_ref, status, *active_ref),
{
    match body_ref {
        Some(r) => Some(r),
        None => if 200 <= status && status < 300 {
            copy_opt(active_ref)
        } else {
            None
        },
    }
}

/// When a request came and how it went.
#[derive(Clone, Copy, Debug, PartialEq, Eq)]
pub struct Timing {
    /// Milliseconds since the Unix epoch.
    pub unix_ms: u64,
    pub duration_ms: u64,
    pub status: u16,
}

/// Whether `e` records a request with these texts.
pub open spec fn is_event(
    e: ActivityEvent,
    seq: int,
    method: Seq<char>,
    endpoint: Seq<char>,
    image_ref: Option<Seq<char>>,
    timing: Timing,
) -> bool {
    &&& e.seq == seq
    &&& e.unix_ms == timing.unix_ms
    &&& e.method@ == method
    &&& e.endpoint@ == endpoint
    &&& opt_text(e.image_ref) == image_ref
    &&& e.status == timing.status
    &&& e.duration_ms == timing.duration_ms
}

/// Records a session's request: the image is the one in the request body, else the active one
/// where the request succeeded.
pub fn record_session_request(
    log: &mut ActivityLog,
    method: &str,
    endpoint: &str,
    body_ref: Option<String>,
    active_ref: &Option<String>,
    timing: Timing,
)
    requires
        old(log).wf(),
        old(log).recorded() < u64::MAX,
    ensures
        final(log).wf(),
        final(log).recorded() == old(log).recorded() + 1,
        is_event(
            final(log).held().last(),
            old(log).recorded() + 1,
            method@,
            endpoint@,
            opt_text(named_ref(body_ref, timing.status, *active_ref)),
            timing,
        ),
        final(log).held() == newest(
            old(log).held().push(final(log).held().last()),
            ACTIVITY_CAPACITY as nat,
        ),
{
    let event = ActivityEvent {
        seq: 0,
        unix_ms: timing.unix_ms,
        method: method.to_owned(),
        endpoint: endpoint.to_owned(),
        image_ref: event_ref(body_ref, timing.status, active_ref),
        status: timing.status,
        duration_ms: timing.duration_ms,
    };
    log.record(event);
}

/// Records a request without a session; the image column shows the query.
pub fn record_global_request(
    log: &mut ActivityLog,
    method: &str,
    path: &str,
    query: Option<&str>,
    timing: Timing,
)
    requires
        old(log).wf(),
        old(log).recorded() < u64::MAX,
    ensures
        final(log).wf(),
        final(log).recorded() == old(log).recorded() + 1,
        is_event(
            final(log).held().last(),
            old(log).recorded() + 1,
            method@,
            path@,
            match query {
                Some(q) => shown_query(q@),
                None => None,
            },
            timing,
        ),
        final(log).held() == newest(
            old(log).held().push(final(log).held().last()),
            ACTIVITY_CAPACITY as nat,
        ),
{
    let image_ref = match query {
        Some(q) => truncate_query(q),
        None => None,
    };
    let event = ActivityEvent {
        seq: 0,
        unix_ms: timing.unix_ms,
        method: method.to_owned(),
        endpoint: path.to_owned(),
        image_ref,
        status: timing.status,
        duration_ms: timing.duration_ms,
    };
    log.record(event);
}

} // verus!
