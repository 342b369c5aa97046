//! One round of polling: which path to ask for next, and the snapshot that the answers make.

use vstd::prelude::*;
use vstd::string::*;
use crate::server::connect::around;
use crate::server::tui::app::{
    Detail, Health, HistoryEvent, ImageEntry, SessionSummary, Snapshot,
};
use crate::text::same;

verus! {

/// Where a round stands.
#[derive(Debug, Clone, Copy, PartialEq, Eq, Structural)]
pub enum Step {
    Health,
    Sessions,
    Images,
    History,
    Done,
}

/// What came back for the path asked for.
#[derive(Debug)]
pub enum Answer {
    /// The health, where the body could be read, and the milliseconds it took.
    Health { health: Option<Health>, latency: u64 },
    Sessions(Vec<SessionSummary>),
    Images(Vec<ImageEntry>),
    History(Vec<HistoryEvent>),
    /// The request failed.
    Failed(String),
}

/// A round of polling for the session that is selected.
pub struct Poll {
    pub step: Step,
    pub selected: Option<String>,
    pub snapshot: Snapshot,
}

/// Whether a session of that id is listed.
pub open spec fn is_listed(sessions: Seq<SessionSummary>, sid: Seq<char>) -> bool {
    exists|i: int| 0 <= i < sessions.len() && (#[trigger] sessions[i]).session_id@ == sid
}

/// The path to ask for in a step.
pub open spec fn path_of(step: Step, selected: Option<String>) -> Option<Seq<char>> {
    match step {
        Step::Health => Some("/health"@),
        Step::Sessions => Some("/v2/sessions"@),
        Step::Images => match selected {
            Some(sid) => Some("/v2/sessions/"@ + sid@ + "/images"@),
            None => None,
        },
        Step::History => match selected {
            Some(sid) => Some("/v2/sessions/"@ + sid@ + "/history"@),
            None => None,
        },
        Step::Done => None,
    }
}

/// Whether the snapshot holds nothing yet.
pub open spec fn is_blank(s: Snapshot) -> bool {
    &&& s.health is None
    &&& s.latency is None
    &&& s.sessions@.len() == 0
    &&& s.detail is None
    &&& s.global_activity@.len() == 0
    &&& s.error is None
}

/// Whether a detail is that of `sid`, with nothing in it yet.
pub open spec fn is_blank_detail(d: Detail, sid: Seq<char>) -> bool {
    d.session_id@ == sid && d.images@.len() == 0 && d.history@.len() == 0
}

impl Poll {
    /// In the steps about the selected session there is one, and its detail has been begun.
    pub open spec fn wf(&self) -> bool {
        self.step == Step::Images || self.step == Step::History ==> {
            &&& self.selected is Some
            &&& self.snapshot.detail is Some
        }
    }

    /// Begins a round.
    pub fn new(selected: Option<String>) -> (p: Self)
        ensures
            p.wf(),
            p.step == Step::Health,
            p.selected == selected,
            is_blank(p.snapshot),
    {
        Poll {
            step: Step::Health,
            selected,
            snapshot: Snapshot {
                health: None,
                latency: None,
                sessions: Vec::new(),
                detail: None,
                global_activity: Vec::new(),
                error: None,
            },
        }
    }

    /// The path to ask for next; none where the round is over.
    pub fn next_path(&self) -> (path: Option<String>)
        ensures
            match path {
                Some(p) => path_of(self.step, self.selected) == Some(p@),
                None => path_of(self.step, self.selected) is None,
            },
    {
        match self.step {
            Step::Health => Some("/health".to_owned()),
            Step::Sessions => Some("/v2/sessions".to_owned()),
            Step::Images => match &self.selected {
                Some(sid) => Some(around("/v2/sessions/", sid.as_str(), "/images")),
                None => None,
            },
            Step::History => match &self.selected {
                Some(sid) => Some(around("/v2/sessions/", sid.as_str(), "/history")),
                None => None,
            },
            Step::Done => None,
        }
    }

    /// Takes over the answer to the health request: a failure ends the round.
    pub fn on_health(&mut self, answer: Answer)
        requires
            old(self).step == Step::Health,
        ensures
            final(self).wf(),
            final(self).selected == old(self).selected,
            match answer {
                Answer::Health { health, latency } => {
                    &&& final(self).step == Step::Sessions
                    &&& final(self).snapshot == (Snapshot {
                        health,
                        latency: Some(latency),
                        ..old(self).snapshot
                    })
                },
                Answer::Failed(e) => {
                    &&& final(self).step == Step::Done
                    &&& final(self).snapshot.error matches Some(text) && text@ == "unreachable: "@
                        + e@
                    &&& final(self).snapshot == (Snapshot {
                        error: final(self).snapshot.error,
                        ..old(self).snapshot
                    })
                },
                _ => final(self).step == Step::Done && final(self).snapshot == old(self).snapshot,
            },
    {
        match answer {
            Answer::Health { health, latency } => {
                self.snapshot.health = health;
                self.snapshot.latency = Some(latency);
                self.step = Step::Sessions;
            },
            Answer::Failed(e) => {
                let mut text = "unreachable: ".to_owned();
                text.append(e.as_str());
                self.snapshot.error = Some(text);
                self.step = Step::Done;
            },
            _ => {
                self.step = Step::Done;
            },
        }
    }

    /// Takes over the list of sessions: a failure ends the round, and so does a list without the
    /// selected session.
    pub fn on_sessions(&mut self, answer: Answer)
        requires
            old(self).step == Step::Sessions,
        ensures
            final(self).wf(),
            final(self).selected == old(self).selected,
            match answer {
                Answer::Sessions(sessions) => {
                    if old(self).selected is Some && is_listed(sessions@, old(self).selected->0@) {
                        &&& final(self).step == Step::Images
                        &&& final(self).snapshot.detail matches Some(d) && is_blank_detail(
                            d,
                            old(self).selected->0@,
                        )
                        &&& final(self).snapshot == (Snapshot {
                            sessions,
                            detail: final(self).snapshot.detail,
                            ..old(self).snapshot
                        })
                    } else {
                        &&& final(self).step == Step::Done
                        &&& final(self).snapshot == (Snapshot { sessions, ..old(self).snapshot })
                    }
                },
                Answer::Failed(e) => {
                    &&& final(self).step == Step::Done
                    &&& final(self).snapshot.error matches Some(text) && text@ == "list failed: "@
                        + e@
                    &&& final(self).snapshot == (Snapshot {
                        error: final(self).snapshot.error,
                        ..old(self).snapshot
                    })
                },
                _ => final(self).step == Step::Done && final(self).snapshot == old(self).snapshot,
            },
    {
        match answer {
            Answer::Sessions(sessions) => {
                let wanted = match &self.selected {
                    Some(sid) => lists(&sessions, sid.as_str()),
                    None => false,
                };
                self.snapshot.sessions = sessions;
                self.step = Step::Done;
                if wanted {
                    if let Some(sid) = &self.selected {
                        self.snapshot.detail = Some(
                            Detail {
                                session_id: sid.clone(),
                                images: Vec::new(),
                                history: Vec::new(),
                            },
                        );
                        self.step = Step::Images;
                    }
                }
            },
            Answer::Failed(e) => {
                let mut text = "list failed: ".to_owned();
                text.append(e.as_str());
                self.snapshot.error = Some(text);
                self.step = Step::Done;
            },
            _ => {
                self.step = Step::Done;
            },
        }
    }

    /// Takes over the images of the selected session; a failure leaves none.
    pub fn on_images(&mut self, answer: Answer)
        requires
            old(self).wf(),
            old(self).step == Step::Images,
        ensures
            final(self).wf(),
            final(self).selected == old(self).selected,
            final(self).step == Step::History,
            final(self).snapshot == (Snapshot {
                detail: Some(
                    Detail {
                        images: match answer {
                            Answer::Images(images) => images,
                            _ => old(self).snapshot.detail->0.images,
                        },
                        ..old(self).snapshot.detail->0
                    },
                ),
                ..old(self).snapshot
            }),
    {
        if let Answer::Images(images) = answer {
            if let Some(detail) = self.snapshot.detail.take() {
                self.snapshot.detail = Some(
                    Detail { session_id: detail.session_id, images, history: detail.history },
                );
            }
        }
        self.step = Step::History;
    }

    /// Takes over the history of the selected session; a failure leaves none. The round is over.
    pub fn on_history(&mut self, answer: Answer)
        requires
            old(self).wf(),
            old(self).step == Step::History,
        ensures
            final(self).wf(),
            final(self).selected == old(self).selected,
            final(self).step == Step::Done,
            final(self).snapshot == (Snapshot {
                detail: Some(
                    Detail {
                        history: match answer {
                            Answer::History(history) => history,
                            _ => old(self).snapshot.detail->0.history,
                        },
                        ..old(self).snapshot.detail->0
                    },
                ),
                ..old(self).snapshot
            }),
    {
        if let Answer::History(history) = answer {
            if let Some(detail) = self.snapshot.detail.take() {
                self.snapshot.detail = Some(
                    Detail { session_id: detail.session_id, images: detail.images, history },
                );
            }
        }
        self.step = Step::Done;
    }
}

/// Whether a session of that id is listed.
fn lists(sessions: &Vec<SessionSummary>, sid: &str) -> (b: bool)
    ensures
        b == is_listed(sessions@, sid@),
{
    let mut i: usize = 0;
    while i < sessions.len()
        invariant
            i <= sessions@.len(),
            forall|j: int| 0 <= j < i ==> (#[trigger] sessions@[j]).session_id@ != sid@,
        decreases sessions.len() - i,
    {
        if same(sessions[i].session_id.as_str(), sid) {
            assert(sessions@[i as int].session_id@ == sid@);
            return true;
        }
        i = i + 1;
    }
    false
}

} // verus!
