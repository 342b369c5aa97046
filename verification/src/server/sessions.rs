//! The table of sessions: a bounded number of them, found by their ids, evicted when idle.

use dashmap::DashMap;
use vstd::prelude::*;
use vstd::string::*;
use crate::server::error::AppError;
use crate::server::index::{
    entries, index_get, index_insert, index_len, index_new, index_remove,
};
use crate::server::session::{expired, is_active, is_fresh, Session};
use crate::server::order::{is_order, key_le, order, Key};
use crate::text::texts;

verus! {

/// A lowercase hexadecimal digit.
pub open spec fn is_hex(c: char) -> bool {
    '0' <= c <= '9' || 'a' <= c <= 'f'
}

/// The text of a random UUID: 32 hexadecimal digits, in groups of 8, 4, 4, 4 and 12 between
/// hyphens, with the version 4 at the head of the third group.
pub open spec fn is_uuid_text(s: Seq<char>) -> bool {
    &&& s.len() == 36
    &&& forall|i: int|
        0 <= i < 36 ==> if i == 8 || i == 13 || i == 18 || i == 23 {
            #[trigger] s[i] == '-'
        } else {
            is_hex(s[i])
        }
    &&& s[14] == '4'
}

/// `uuid::Uuid::new_v4`, written out by its `Display`. Which UUID it is depends on chance; of every
/// one the form is known. That two of them differ is not said.
#[verifier::external_body]
pub(crate) fn fresh_id() -> (id: String)
    ensures
        is_uuid_text(id@),
{
    uuid::Uuid::new_v4().to_string()
}

/// The sessions behind a request that reached one of them.
pub open spec fn after_request(table: Map<Seq<char>, Session>, id: Seq<char>, now: u64) -> Map<
    Seq<char>,
    Session,
> {
    table.insert(id, (Session { last_accessed: now, ..table[id] }))
}

/// The sessions that are left where those idle for more than `ttl` seconds go.
pub open spec fn after_eviction(table: Map<Seq<char>, Session>, now: u64, ttl: u64) -> Map<
    Seq<char>,
    Session,
> {
    Map::new(
        |k: Seq<char>| table.dom().contains(k) && !expired(table[k], now, ttl),
        |k: Seq<char>| table[k],
    )
}

/// A session with a running job outlives every sweep, as it is.
pub proof fn busy_sessions_outlive_the_sweep(
    table: Map<Seq<char>, Session>,
    id: Seq<char>,
    now: u64,
    ttl: u64,
)
    requires
        table.dom().contains(id),
        is_active(table[id]),
    ensures
        after_eviction(table, now, ttl).dom().contains(id),
        after_eviction(table, now, ttl)[id] == table[id],
{
}

/// A request keeps its session for `ttl` seconds, and no other one.
pub proof fn a_request_keeps_its_session(
    table: Map<Seq<char>, Session>,
    id: Seq<char>,
    other: Seq<char>,
    now: u64,
    later: u64,
    ttl: u64,
)
    requires
        table.dom().contains(id),
        table.dom().contains(other),
        other != id,
        later <= now + ttl * 1_000_000_000,
    ensures
        after_eviction(after_request(table, id, now), later, ttl).dom().contains(id),
        after_eviction(after_request(table, id, now), later, ttl).dom().contains(other)
            == after_eviction(table, later, ttl).dom().contains(other),
{
}

/// An idle session without a running job goes with the next sweep, and stays away from those that
/// follow.
pub proof fn idle_sessions_go_for_good(
    table: Map<Seq<char>, Session>,
    id: Seq<char>,
    now: u64,
    later: u64,
    ttl: u64,
)
    requires
        table.dom().contains(id),
        !is_active(table[id]),
        now > table[id].last_accessed + ttl * 1_000_000_000,
    ensures
        !after_eviction(table, now, ttl).dom().contains(id),
        !after_eviction(after_eviction(table, now, ttl), later, ttl).dom().contains(id),
{
}

/// The sessions of the server, with the limit on their number and on their idle time.
pub struct SessionManager {
    places: DashMap<String, u64>,
    slots: Vec<Option<Session>>,
    session_max: usize,
    session_ttl: u64,
}

impl SessionManager {
    /// The sessions, by their ids.
    pub closed spec fn table(&self) -> Map<Seq<char>, Session> {
        Map::new(
            |k: Seq<char>| entries(self.places).dom().contains(k),
            |k: Seq<char>| self.slots@[entries(self.places)[k] as int]->0,
        )
    }

    /// Sessions at one time, at most.
    pub closed spec fn max(&self) -> usize {
        self.session_max
    }

    /// Idle seconds before a session is evicted.
    pub closed spec fn ttl(&self) -> u64 {
        self.session_ttl
    }

    /// Each id leads to the session of that id, and each session has an id that leads to it.
    pub closed spec fn wf(&self) -> bool {
        let places = entries(self.places);
        &&& places.dom().finite()
        &&& forall|k: Seq<char>| #[trigger]
            places.dom().contains(k) ==> {
                &&& places[k] < self.slots@.len()
                &&& self.slots@[places[k] as int] is Some
                &&& self.slots@[places[k] as int]->0.id@ == k
            }
        &&& forall|i: int|
            0 <= i < self.slots@.len() && (#[trigger] self.slots@[i]) is Some ==> {
                &&& places.dom().contains(self.slots@[i]->0.id@)
                &&& places[self.slots@[i]->0.id@] == i
                &&& self.slots@[i]->0.wf()
            }
    }

    /// Every session stands under its own id and is as it ought to be.
    pub proof fn sessions_are_sound(&self)
        requires
            self.wf(),
        ensures
            self.table().dom().finite(),
            forall|k: Seq<char>| #[trigger]
                self.table().dom().contains(k) ==> self.table()[k].id@ == k
                    && self.table()[k].wf(),
    {
        assert(self.table().dom() =~= entries(self.places).dom());
    }

    /// No session yet.
    pub fn new(session_max: usize, session_ttl: u64) -> (m: Self)
        ensures
            m.wf(),
            m.max() == session_max,
            m.ttl() == session_ttl,
            m.table() == Map::<Seq<char>, Session>::empty(),
    {
        let m = SessionManager {
            places: index_new(),
            slots: Vec::new(),
            session_max,
            session_ttl,
        };
        assert(m.table() =~= Map::<Seq<char>, Session>::empty());
        m
    }

    /// The number of sessions.
    pub fn len(&self) -> (n: usize)
        requires
            self.wf(),
        ensures
            n == self.table().dom().len(),
    {
        assert(self.table().dom() =~= entries(self.places).dom());
        index_len(&self.places)
    }

    /// The session of an id.
    pub fn get(&self, id: &str) -> (s: Option<&Session>)
        requires
            self.wf(),
        ensures
            match s {
                Some(s) => self.table().dom().contains(id@) && *s == self.table()[id@],
                None => !self.table().dom().contains(id@),
            },
    {
        match index_get(&self.places, id) {
            Some(i) => {
                assert(i < self.slots.len());
                self.slots[i as usize].as_ref()
            },
            None => None,
        }
    }

    /// Takes the session of an id out of its slot.
    fn empty_slot(&mut self, at: usize, id: &str) -> (s: Option<Session>)
        requires
            at < old(self).slots@.len(),
        ensures
            s == old(self).slots@[at as int],
            final(self).slots@ == old(self).slots@.update(at as int, None),
            entries(final(self).places) == entries(old(self).places).remove(id@),
            final(self).session_max == old(self).session_max,
            final(self).session_ttl == old(self).session_ttl,
    {
        let mut taken: Option<Session> = None;
        std::mem::swap(&mut taken, &mut self.slots[at]);
        index_remove(&mut self.places, id);
        taken
    }

    /// Takes the session of an id out of the table.
    pub fn take(&mut self, id: &str) -> (s: Option<Session>)
        requires
            old(self).wf(),
        ensures
            final(self).wf(),
            final(self).max() == old(self).max(),
            final(self).ttl() == old(self).ttl(),
            final(self).table() == old(self).table().remove(id@),
            match s {
                Some(s) => {
                    &&& old(self).table().dom().contains(id@)
                    &&& s == old(self).table()[id@]
                    &&& s.id@ == id@
                    &&& s.wf()
                },
                None => !old(self).table().dom().contains(id@),
            },
    {
        match index_get(&self.places, id) {
            Some(i) => {
                assert(i < self.slots.len());
                let taken = self.empty_slot(i as usize, id);
                assert(self.table() =~= old(self).table().remove(id@));
                taken
            },
            None => {
                assert(self.table() =~= old(self).table().remove(id@));
                None
            },
        }
    }

    /// The first slot without a session; none where every slot holds one.
    fn free_slot(&self) -> (at: Option<usize>)
        ensures
            match at {
                Some(i) => {
                    &&& i < self.slots@.len() && self.slots@[i as int] is None
                    &&& forall|j: int| 0 <= j < i ==> (#[trigger] self.slots@[j]) is Some
                },
                None => forall|j: int|
                    0 <= j < self.slots@.len() ==> (#[trigger] self.slots@[j]) is Some,
            },
    {
        let mut i: usize = 0;
        while i < self.slots.len()
            invariant
                i <= self.slots@.len(),
                forall|j: int| 0 <= j < i ==> (#[trigger] self.slots@[j]) is Some,
            decreases self.slots.len() - i,
        {
            if self.slots[i].is_none() {
                return Some(i);
            }
            i = i + 1;
        }
        None
    }

    /// Puts a session into the table under its id, in place of one of that id.
    pub fn put(&mut self, session: Session)
        requires
            old(self).wf(),
            session.wf(),
        ensures
            final(self).wf(),
            final(self).max() == old(self).max(),
            final(self).ttl() == old(self).ttl(),
            final(self).table() == old(self).table().insert(session.id@, session),
    {
        let ghost before = self.slots@;
        let ghost want = old(self).table().insert(session.id@, session);
        let id = session.id.clone();
        match index_get(&self.places, session.id.as_str()) {
            Some(i) => {
                assert(i < self.slots.len());
                self.slots[i as usize] = Some(session);
                assert(self.slots@ == before.update(i as int, Some(session)));
                assert(self.table() =~= want);
            },
            None => match self.free_slot() {
                Some(i) => {
                    self.slots[i] = Some(session);
                    index_insert(&mut self.places, id, i as u64);
                    assert(self.slots@ == before.update(i as int, Some(session)));
                    assert(self.table() =~= want);
                },
                None => {
                    let i: usize = self.slots.len();
                    self.slots.push(Some(session));
                    index_insert(&mut self.places, id, i as u64);
                    assert(self.slots@ == before.push(Some(session)));
                    assert(self.table() =~= want);
                },
            },
        }
    }

    /// Creates a session under a given id, unless there are as many as there may be.
    pub fn create_with(&mut self, id: String, created_unix: u64, now: u64) -> (created: bool)
        requires
            old(self).wf(),
        ensures
            final(self).wf(),
            final(self).max() == old(self).max(),
            final(self).ttl() == old(self).ttl(),
            created == (old(self).table().dom().len() < old(self).max()),
            !created ==> final(self).table() == old(self).table(),
            created ==> {
                &&& final(self).table().dom() == old(self).table().dom().insert(id@)
                &&& is_fresh(final(self).table()[id@], id, created_unix, now)
                &&& forall|k: Seq<char>|
                    k != id@ && #[trigger] old(self).table().dom().contains(k)
                        ==> final(self).table()[k] == old(self).table()[k]
                &&& final(self).table().dom().len() <= final(self).max()
            },
    {
        if self.len() >= self.session_max {
            return false;
        }
        let session = Session::new(id, created_unix, now);
        self.put(session);
        proof {
            old(self).sessions_are_sound();
            assert(self.table().dom() =~= old(self).table().dom().insert(id@));
        }
        true
    }

    /// Creates a session under a fresh id, unless there are as many as there may be.
    pub fn create(&mut self, created_unix: u64, now: u64) -> (id: Option<String>)
        requires
            old(self).wf(),
        ensures
            final(self).wf(),
            final(self).max() == old(self).max(),
            final(self).ttl() == old(self).ttl(),
            id is Some == (old(self).table().dom().len() < old(self).max()),
            match id {
                None => final(self).table() == old(self).table(),
                Some(id) => {
                    &&& is_uuid_text(id@)
                    &&& final(self).table().dom() == old(self).table().dom().insert(id@)
                    &&& is_fresh(final(self).table()[id@], id, created_unix, now)
                    &&& forall|k: Seq<char>|
                        k != id@ && #[trigger] old(self).table().dom().contains(k)
                            ==> final(self).table()[k] == old(self).table()[k]
                    &&& final(self).table().dom().len() <= final(self).max()
                },
            },
    {
        if self.len() >= self.session_max {
            return None;
        }
        let id = fresh_id();
        let made = self.create_with(id.clone(), created_unix, now);
        Some(id)
    }

    /// Finds the session that a path names, and notes that a request reached it.
    pub fn resolve(&mut self, sid: Option<&str>, now: u64) -> (r: Result<(), AppError>)
        requires
            old(self).wf(),
        ensures
            final(self).wf(),
            final(self).max() == old(self).max(),
            final(self).ttl() == old(self).ttl(),
            match (sid, r) {
                (None, Err(e)) => {
                    &&& e is BadRequest && e->BadRequest_0@ == "route missing :sid segment"@
                    &&& final(self).table() == old(self).table()
                },
                (Some(id), Err(e)) => {
                    &&& !old(self).table().dom().contains(id@)
                    &&& e is NotFound && e->NotFound_0@ == "session "@ + id@ + " not found"@
                    &&& final(self).table() == old(self).table()
                },
                (Some(id), Ok(_)) => {
                    &&& old(self).table().dom().contains(id@)
                    &&& final(self).table() == after_request(old(self).table(), id@, now)
                },
                (None, Ok(_)) => false,
            },
    {
        match sid {
            None => Err(AppError::BadRequest("route missing :sid segment".to_owned())),
            Some(id) => match self.take(id) {
                None => {
                    assert(self.table() =~= old(self).table());
                    Err(AppError::NotFound(not_found(id)))
                },
                Some(session) => {
                    let mut session = session;
                    session.touch(now);
                    self.put(session);
                    assert(self.table() =~= after_request(old(self).table(), id@, now));
                    Ok(())
                },
            },
        }
    }

    /// Evicts the sessions that have been idle for too long, and returns their ids.
    pub fn evict_idle(&mut self, now: u64) -> (ids: Vec<String>)
        requires
            old(self).wf(),
        ensures
            final(self).wf(),
            final(self).max() == old(self).max(),
            final(self).ttl() == old(self).ttl(),
            final(self).table() == after_eviction(old(self).table(), now, old(self).ttl()),
            texts(ids@).no_duplicates(),
            forall|k: Seq<char>|
                texts(ids@).contains(k) <==> (#[trigger] old(self).table().dom().contains(k)
                    && expired(old(self).table()[k], now, old(self).ttl())),
    {
        let mut ids: Vec<String> = Vec::new();
        let mut i: usize = 0;
        let ghost first = self.table();
        while i < self.slots.len()
            invariant
                i <= self.slots@.len(),
                self.wf(),
                self.max() == old(self).max(),
                self.ttl() == old(self).ttl(),
                first == old(self).table(),
                forall|k: Seq<char>| #[trigger]
                    self.table().dom().contains(k) ==> first.dom().contains(k) && self.table()[k]
                        == first[k],
                forall|k: Seq<char>| #[trigger]
                    first.dom().contains(k) && !self.table().dom().contains(k) ==> expired(
                        first[k],
                        now,
                        self.ttl(),
                    ) && texts(ids@).contains(k),
                forall|k: Seq<char>| #[trigger]
                    entries(self.places).dom().contains(k) && entries(self.places)[k] < i
                        ==> !expired(first[k], now, self.ttl()),
                forall|k: Seq<char>| #[trigger]
                    texts(ids@).contains(k) ==> first.dom().contains(k) && expired(
                        first[k],
                        now,
                        self.ttl(),
                    ) && !self.table().dom().contains(k),
                texts(ids@).no_duplicates(),
            decreases self.slots.len() - i,
        {
            let ttl: u64 = self.session_ttl;
            let due: Option<String> = match &self.slots[i] {
                Some(s) => if s.is_expired(now, ttl) {
                    Some(s.id.clone())
                } else {
                    None
                },
                None => None,
            };
            proof {
                if self.slots@[i as int] is Some {
                    let k = self.slots@[i as int]->0.id@;
                    assert(entries(self.places).dom().contains(k));
                    assert(self.table().dom().contains(k));
                    assert(self.table()[k] == self.slots@[i as int]->0);
                }
            }
            if let Some(id) = due {
                let ghost before = self.table();
                let ghost listed = texts(ids@);
                let gone = self.empty_slot(i, id.as_str());
                ids.push(id);
                proof {
                    assert(self.table() =~= before.remove(id@));
                    assert(texts(ids@) =~= listed.push(id@));
                    assert forall|k: Seq<char>| listed.contains(k) implies #[trigger] texts(
                        ids@,
                    ).contains(k) by {
                        let j = choose|j: int| 0 <= j < listed.len() && listed[j] == k;
                        assert(texts(ids@)[j] == k);
                    }
                    assert(texts(ids@)[listed.len() as int] == id@);
                    assert(before.dom().contains(id@));
                    assert(!listed.contains(id@));
                    assert(texts(ids@).no_duplicates()) by {
                        assert forall|a: int, b: int|
                            0 <= a < texts(ids@).len() && 0 <= b < texts(ids@).len() && a
                                != b implies texts(ids@)[a] != texts(ids@)[b] by {
                            if a < listed.len() {
                                assert(listed.contains(listed[a]));
                            }
                            if b < listed.len() {
                                assert(listed.contains(listed[b]));
                            }
                        }
                    }
                    assert forall|k: Seq<char>| #[trigger] texts(ids@).contains(k) implies {
                        &&& first.dom().contains(k)
                        &&& expired(first[k], now, self.ttl())
                        &&& !self.table().dom().contains(k)
                    } by {
                        let j = choose|j: int| 0 <= j < texts(ids@).len() && texts(ids@)[j] == k;
                        if j < listed.len() {
                            assert(listed[j] == k);
                            assert(listed.contains(k));
                        }
                    }
                }
            }
            i = i + 1;
        }
        proof {
            let want = after_eviction(old(self).table(), now, old(self).ttl());
            assert forall|k: Seq<char>| self.table().dom().contains(k) <==> want.dom().contains(
                k,
            ) by {
                if self.table().dom().contains(k) {
                    assert(entries(self.places).dom().contains(k));
                }
            }
            assert(self.table() =~= want);
        }
        ids
    }
}

/// What the listing of sessions is ordered by: the oldest first, then by id.
pub open spec fn session_key(s: Session) -> Key {
    Key { rank: s.created_unix, name: s.id }
}

/// Whether `ids` names each session of a table once, in the order of the listing.
pub open spec fn is_session_list(ids: Seq<String>, table: Map<Seq<char>, Session>) -> bool {
    &&& forall|i: int| 0 <= i < ids.len() ==> table.dom().contains((#[trigger] ids[i])@)
    &&& forall|k: Seq<char>| #[trigger]
        table.dom().contains(k) ==> exists|i: int| 0 <= i < ids.len() && (#[trigger] ids[i])@ == k
    &&& forall|i: int, j: int|
        0 <= i < j < ids.len() ==> {
            &&& (#[trigger] ids[i])@ != (#[trigger] ids[j])@
            &&& key_le(session_key(table[ids[i]@]), session_key(table[ids[j]@]))
        }
}

impl SessionManager {
    /// The ids of all sessions, the oldest session first.
    pub fn listed_ids(&self) -> (ids: Vec<String>)
        requires
            self.wf(),
        ensures
            is_session_list(ids@, self.table()),
    {
        let mut keys: Vec<Key> = Vec::new();
        let ghost mut origins: Seq<int> = Seq::empty();
        let mut n: usize = 0;
        while n < self.slots.len()
            invariant
                n <= self.slots@.len(),
                self.wf(),
                origins.len() == keys@.len(),
                forall|j: int|
                    0 <= j < keys@.len() ==> {
                        &&& 0 <= #[trigger] origins[j] < n
                        &&& self.slots@[origins[j]] is Some
                        &&& keys@[j] == session_key(self.slots@[origins[j]]->0)
                    },
                forall|i: int, j: int|
                    0 <= i < j < keys@.len() ==> #[trigger] origins[i] < #[trigger] origins[j],
                forall|m: int|
                    0 <= m < n && (#[trigger] self.slots@[m]) is Some ==> origins.contains(m),
            decreases self.slots.len() - n,
        {
            let ghost before = origins;
            if let Some(s) = &self.slots[n] {
                keys.push(Key { rank: s.created_unix, name: s.id.clone() });
                proof {
                    origins = origins.push(n as int);
                    assert(origins[before.len() as int] == n);
                    assert forall|m: int|
                        0 <= m < n + 1 && (#[trigger] self.slots@[m]) is Some implies origins.contains(
                        m,
                    ) by {
                        if m < n {
                            let j = choose|j: int| 0 <= j < before.len() && before[j] == m;
                            assert(origins[j] == m);
                        }
                    }
                }
            }
            n = n + 1;
        }
        let places = order(&keys);
        let mut ids: Vec<String> = Vec::new();
        let mut k: usize = 0;
        while k < places.len()
            invariant
                k <= places@.len(),
                is_order(places@, keys@),
                ids@.len() == k,
                forall|j: int| 0 <= j < k ==> #[trigger] ids@[j] == keys@[places@[j] as int].name,
            decreases places.len() - k,
        {
            ids.push(keys[places[k]].name.clone());
            k = k + 1;
        }
        proof {
            let table = self.table();
            assert forall|i: int| 0 <= i < ids@.len() implies {
                let m = origins[places@[i] as int];
                &&& table.dom().contains((#[trigger] ids@[i])@)
                &&& entries(self.places)[ids@[i]@] == m
                &&& table[ids@[i]@] == self.slots@[m]->0
            } by {
                let m = origins[places@[i] as int];
                assert(self.slots@[m] is Some);
                assert(entries(self.places).dom().contains(self.slots@[m]->0.id@));
            }
            assert forall|key: Seq<char>| #[trigger] table.dom().contains(key) implies exists|i: int|
                0 <= i < ids@.len() && (#[trigger] ids@[i])@ == key by {
                assert(entries(self.places).dom().contains(key));
                let m = entries(self.places)[key] as int;
                assert(self.slots@[m] is Some);
                let j = choose|j: int| 0 <= j < origins.len() && origins[j] == m;
                let i = crate::server::order::lemma_places_cover(
                    places@,
                    keys@.len() as int,
                    j,
                );
                assert(ids@[i]@ == key);
            }
            assert forall|i: int, j: int| 0 <= i < j < ids@.len() implies {
                &&& (#[trigger] ids@[i])@ != (#[trigger] ids@[j])@
                &&& key_le(session_key(table[ids@[i]@]), session_key(table[ids@[j]@]))
            } by {
                let a = places@[i] as int;
                let b = places@[j] as int;
                assert(a != b);
                assert(origins[a] != origins[b]) by {
                    if a < b {
                        assert(origins[a] < origins[b]);
                    } else {
                        assert(origins[b] < origins[a]);
                    }
                }
                assert(key_le(keys@[a], keys@[b]));
            }
        }
        ids
    }
}

/// The message about an id that names no session.
pub fn not_found(id: &str) -> (s: String)
    ensures
        s@ == "session "@ + id@ + " not found"@,
{
    let mut s = "session ".to_owned();
    s.append(id);
    s.append(" not found");
    s
}

} // verus!
