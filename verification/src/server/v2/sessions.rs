//! The sessions' endpoints: the listing, the history, the status.

use vstd::prelude::*;
use vstd::string::*;
use crate::server::activity::{first_seq_of, newer, newest, ActivityEvent};
use crate::server::error::AppError;
use crate::server::jobs::running_ids;
use crate::server::session::{idle_nanos, Session};
use crate::server::sessions::{is_session_list, not_found, SessionManager};
use crate::server::tui::app::SessionSummary;
use crate::text::{copy_opt, same};

verus! {

/// Which events to return.
#[derive(Debug, Clone, Copy)]
pub struct HistoryParams {
    /// Only events behind this number.
    pub since_seq: u64,
    /// The newest so many; none for all that are held.
    pub limit: Option<usize>,
}

/// Whether `r` summarises session `s` at `now`.
pub open spec fn is_summary(r: SessionSummary, s: Session, now: u64, cache_bytes: u64) -> bool {
    &&& r.session_id == s.id
    &&& r.created_unix == s.created_unix
    &&& r.idle_secs == idle_nanos(s, now) / 1_000_000_000
    &&& r.active_ref == s.v2.active()
    &&& r.image_count == s.v2.meta().dom().len()
    &&& r.cache_bytes == cache_bytes
    &&& r.running_jobs == running_ids(s.jobs.states()).len()
    &&& r.last_seq == s.activity.recorded()
}

/// Summarises a session, whose cache holds that many bytes. This touches nothing: to watch the
/// server keeps no session alive.
pub fn summarize(s: &Session, now: u64, cache_bytes: u64) -> (r: SessionSummary)
    requires
        s.wf(),
    ensures
        is_summary(r, *s, now, cache_bytes),
{
    SessionSummary {
        session_id: s.id.clone(),
        created_unix: s.created_unix,
        idle_secs: s.idle_secs(now),
        active_ref: copy_opt(s.v2.active_ref()),
        image_count: s.v2.image_count(),
        cache_bytes,
        running_jobs: s.running_jobs(),
        last_seq: s.activity.last_seq(),
    }
}

/// A session's id and the bytes that its cache holds.
#[derive(Debug)]
pub struct CacheSize {
    pub session_id: String,
    pub bytes: u64,
}

/// The bytes that the first entry of an id names; none at all where there is no such entry.
pub open spec fn bytes_of(sizes: Seq<CacheSize>, id: Seq<char>) -> u64
    decreases sizes.len(),
{
    if sizes.len() == 0 {
        0
    } else if sizes[0].session_id@ == id {
        sizes[0].bytes
    } else {
        bytes_of(sizes.skip(1), id)
    }
}

fn find_bytes(sizes: &Vec<CacheSize>, id: &str) -> (bytes: u64)
    ensures
        bytes == bytes_of(sizes@, id@),
{
    let mut i: usize = 0;
    assert(sizes@.skip(0) =~= sizes@);
    while i < sizes.len()
        invariant
            i <= sizes@.len(),
            bytes_of(sizes@, id@) == bytes_of(sizes@.skip(i as int), id@),
        decreases sizes.len() - i,
    {
        if same(sizes[i].session_id.as_str(), id) {
            return sizes[i].bytes;
        }
        assert(sizes@.skip(i as int).skip(1) =~= sizes@.skip(i + 1));
        i = i + 1;
    }
    0
}

/// The ids of some summaries.
pub open spec fn summary_ids(all: Seq<SessionSummary>) -> Seq<String> {
    Seq::new(all.len(), |i: int| all[i].session_id)
}

/// Summarises all sessions, the oldest first. This touches none of them.
pub fn list(sessions: &SessionManager, now: u64, sizes: &Vec<CacheSize>) -> (all: Vec<
    SessionSummary,
>)
    requires
        sessions.wf(),
    ensures
        is_session_list(summary_ids(all@), sessions.table()),
        forall|i: int|
            0 <= i < all@.len() ==> is_summary(
                #[trigger] all@[i],
                sessions.table()[all@[i].session_id@],
                now,
                bytes_of(sizes@, all@[i].session_id@),
            ),
{
    let ids = sessions.listed_ids();
    let mut all: Vec<SessionSummary> = Vec::new();
    let mut i: usize = 0;
    proof {
        sessions.sessions_are_sound();
    }
    while i < ids.len()
        invariant
            i <= ids@.len(),
            sessions.wf(),
            is_session_list(ids@, sessions.table()),
            forall|k: Seq<char>| #[trigger]
                sessions.table().dom().contains(k) ==> sessions.table()[k].id@ == k
                    && sessions.table()[k].wf(),
            all@.len() == i,
            forall|j: int|
                0 <= j < i ==> {
                    &&& (#[trigger] all@[j]).session_id@ == ids@[j]@
                    &&& is_summary(
                        all@[j],
                        sessions.table()[all@[j].session_id@],
                        now,
                        bytes_of(sizes@, all@[j].session_id@),
                    )
                },
        decreases ids.len() - i,
    {
        let id = ids[i].as_str();
        assert(sessions.table().dom().contains(ids@[i as int]@));
        if let Some(s) = sessions.get(id) {
            all.push(summarize(s, now, find_bytes(sizes, id)));
        }
        i = i + 1;
    }
    proof {
        let listed = summary_ids(all@);
        assert forall|j: int| 0 <= j < listed.len() implies (#[trigger] listed[j])@ == ids@[j]@ by {
            assert(all@[j].session_id@ == ids@[j]@);
        }
        assert forall|k: Seq<char>| #[trigger] sessions.table().dom().contains(k) implies exists|
            j: int,
        |
            0 <= j < listed.len() && (#[trigger] listed[j])@ == k by {
            let j = choose|j: int| 0 <= j < ids@.len() && (#[trigger] ids@[j])@ == k;
            assert(listed[j]@ == k);
        }
        assert forall|a: int, b: int| 0 <= a < b < listed.len() implies (#[trigger] listed[a])@ != (
        #[trigger] listed[b])@ by {
            assert(ids@[a]@ != ids@[b]@);
        }
        assert(is_session_list(listed, sessions.table())) by {
            assert forall|a: int, b: int| 0 <= a < b < listed.len() implies {
                &&& (#[trigger] listed[a])@ != (#[trigger] listed[b])@
                &&& crate::server::order::key_le(
                    crate::server::sessions::session_key(sessions.table()[listed[a]@]),
                    crate::server::sessions::session_key(sessions.table()[listed[b]@]),
                )
            } by {
                assert(ids@[a]@ != ids@[b]@);
            }
            assert forall|a: int| 0 <= a < listed.len() implies sessions.table().dom().contains(
                (#[trigger] listed[a])@,
            ) by {
                assert(sessions.table().dom().contains(ids@[a]@));
            }
        }
    }
    all
}

/// The events of a session's history.
#[derive(Debug)]
pub struct History {
    pub session_id: String,
    pub first_seq: u64,
    pub last_seq: u64,
    pub events: Vec<ActivityEvent>,
}

/// Reads a session's history, without touching the session.
pub fn history(sessions: &SessionManager, sid: &str, params: HistoryParams) -> (r: Result<
    History,
    AppError,
>)
    requires
        sessions.wf(),
    ensures
        match r {
            Ok(h) => {
                &&& sessions.table().dom().contains(sid@)
                &&& ({
                    let s = sessions.table()[sid@];
                    &&& h.session_id == s.id
                    &&& h.first_seq == first_seq_of(s.activity.held())
                    &&& h.last_seq == s.activity.recorded()
                    &&& h.events@ == newest(
                        newer(s.activity.held(), params.since_seq),
                        match params.limit {
                            Some(n) => n as nat,
                            None => usize::MAX as nat,
                        },
                    )
                })
            },
            Err(e) => {
                &&& !sessions.table().dom().contains(sid@)
                &&& e is NotFound && e->NotFound_0@ == "session "@ + sid@ + " not found"@
            },
        },
{
    match sessions.get(sid) {
        None => Err(AppError::NotFound(not_found(sid))),
        Some(s) => {
            let limit: usize = match params.limit {
                Some(n) => n,
                None => usize::MAX,
            };
            let (events, first_seq, last_seq) = s.activity.events_since(params.since_seq, limit);
            Ok(History { session_id: s.id.clone(), first_seq, last_seq, events })
        },
    }
}

} // verus!
