//! The state of the server: its sessions, how many there have been, and the requests without one.

use vstd::prelude::*;
use vstd::string::*;
use crate::fits::file_bytes::IoMode;
use crate::server::activity::ActivityLog;
use crate::server::config::ServerConfig;
use crate::server::error::AppError;
use crate::server::session::{count_on, counted, is_fresh, Session};
use crate::server::sessions::{fresh_id, is_uuid_text, SessionManager};

verus! {

/// The state of the server.
pub struct AppState {
    pub sessions: SessionManager,
    /// Sessions ever created.
    pub created_total: u64,
    /// The requests that belong to no session.
    pub global_activity: ActivityLog,
}

impl AppState {
    /// The parts of the state are as they ought to be.
    pub open spec fn wf(&self) -> bool {
        self.sessions.wf() && self.global_activity.wf()
    }

    /// A server without sessions.
    pub fn new(config: &ServerConfig) -> (s: Self)
        ensures
            s.wf(),
            s.sessions.table() == Map::<Seq<char>, Session>::empty(),
            s.sessions.max() == config.session_max,
            s.sessions.ttl() == config.session_ttl,
            s.created_total == 0,
            s.global_activity.recorded() == 0,
    {
        AppState {
            sessions: SessionManager::new(config.session_max, config.session_ttl),
            created_total: 0,
            global_activity: ActivityLog::new(),
        }
    }

    /// Creates a session under a fresh id, unless there are as many as there may be, and counts it.
    pub fn create_session(&mut self, created_unix: u64, now: u64) -> (id: Option<String>)
        requires
            old(self).wf(),
        ensures
            final(self).wf(),
            final(self).global_activity == old(self).global_activity,
            final(self).sessions.max() == old(self).sessions.max(),
            final(self).sessions.ttl() == old(self).sessions.ttl(),
            id is Some == (old(self).sessions.table().dom().len() < old(self).sessions.max()),
            match id {
                None => {
                    &&& final(self).created_total == old(self).created_total
                    &&& final(self).sessions.table() == old(self).sessions.table()
                },
                Some(id) => {
                    let before = old(self).sessions.table();
                    let after = final(self).sessions.table();
                    &&& final(self).created_total == count_on(old(self).created_total)
                    &&& is_uuid_text(id@)
                    &&& after.dom() == before.dom().insert(id@)
                    &&& is_fresh(after[id@], id, created_unix, now)
                    &&& forall|k: Seq<char>|
                        k != id@ && #[trigger] before.dom().contains(k) ==> after[k] == before[k]
                    &&& after.dom().len() <= final(self).sessions.max()
                },
            },
    {
        let id = self.sessions.create(created_unix, now);
        if id.is_some() {
            self.created_total = counted(self.created_total);
        }
        id
    }
}

/// What the server says of its health.
#[derive(Debug)]
pub struct HealthReply {
    pub status: &'static str,
    pub version: String,
    pub sessions_active: usize,
    pub sessions_total: u64,
    pub io_mode: &'static str,
}

/// The health of a server of some version that reads files in some mode.
pub fn health(state: &AppState, version: &str, mode: IoMode) -> (r: HealthReply)
    requires
        state.wf(),
    ensures
        r.status@ == "ok"@,
        r.version@ == version@,
        r.sessions_active == state.sessions.table().dom().len(),
        r.sessions_total == state.created_total,
        r.io_mode@ == match mode {
            IoMode::Auto => "auto"@,
            IoMode::Mmap => "mmap"@,
            IoMode::Read => "read"@,
        },
{
    HealthReply {
        status: "ok",
        version: version.to_owned(),
        sessions_active: state.sessions.len(),
        sessions_total: state.created_total,
        io_mode: mode.name(),
    }
}

/// The answer to a request for a session: its id with status 201, or that there are as many as
/// there may be.
pub fn created_reply(id: Option<String>) -> (r: Result<(u16, String), AppError>)
    ensures
        match (id, r) {
            (Some(id), Ok(reply)) => reply.0 == 201 && reply.1 == id,
            (None, Err(e)) => e is ServiceUnavailable && e->ServiceUnavailable_0@
                == "session cap reached (max 8)"@,
            _ => false,
        },
{
    match id {
        Some(id) => Ok((201, id)),
        None => Err(AppError::ServiceUnavailable("session cap reached (max 8)".to_owned())),
    }
}

/// The id that an answer carries: that of its request, else a fresh one.
pub fn request_id(given: Option<&str>) -> (id: String)
    ensures
        match given {
            Some(text) => id@ == text@,
            None => is_uuid_text(id@),
        },
{
    match given {
        Some(text) => text.to_owned(),
        None => fresh_id(),
    }
}

} // verus!
