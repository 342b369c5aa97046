//! Sessions: their images, their activity, and the table that holds them.

use dashmap::DashMap;
use vstd::prelude::*;
use vstd::string::*;
use crate::server::activity::ActivityLog;
use crate::server::error::AppError;
use crate::server::jobs::{running_ids, some_run, Jobs};
use crate::server::index::{entries, index_get, index_insert, index_len, index_new};
use crate::text::{copy_opt, decimal, digits_value, format_unsigned, opt_text, same};

verus! {

/// What is known of a registered image.
#[derive(Debug)]
pub struct ImageMeta {
    pub image_ref: String,
    /// The file that the image was loaded from; none for derived images.
    pub source: Option<String>,
    /// The header unit that it was loaded from, where one was asked for.
    pub hdu: Option<usize>,
    pub width: usize,
    pub height: usize,
    pub wcs_present: bool,
    pub extname: Option<String>,
}

impl Clone for ImageMeta {
    fn clone(&self) -> (m: Self)
        ensures
            m == *self,
    {
        ImageMeta {
            image_ref: self.image_ref.clone(),
            source: copy_opt(&self.source),
            hdu: self.hdu,
            width: self.width,
            height: self.height,
            wcs_present: self.wcs_present,
            extname: copy_opt(&self.extname),
        }
    }
}

/// The images of a session: the one in use, and what is known of each.
pub struct V2SessionState {
    counter: u64,
    active_ref: Option<String>,
    places: DashMap<String, u64>,
    images: Vec<ImageMeta>,
}

impl V2SessionState {
    /// The number of names minted so far.
    pub closed spec fn minted(&self) -> u64 {
        self.counter
    }

    /// The image in use.
    pub closed spec fn active(&self) -> Option<String> {
        self.active_ref
    }

    /// What is known of each image, by its name.
    pub closed spec fn meta(&self) -> Map<Seq<char>, ImageMeta> {
        Map::new(
            |k: Seq<char>| entries(self.places).dom().contains(k),
            |k: Seq<char>| self.images@[entries(self.places)[k] as int],
        )
    }

    /// Each name leads to the image of that name, and each image has a name that leads to it.
    pub closed spec fn wf(&self) -> bool {
        let places = entries(self.places);
        &&& places.dom().finite()
        &&& forall|k: Seq<char>| #[trigger]
            places.dom().contains(k) ==> places[k] < self.images@.len()
                && self.images@[places[k] as int].image_ref@ == k
        &&& forall|i: int|
            0 <= i < self.images@.len() ==> {
                &&& places.dom().contains((#[trigger] self.images@[i]).image_ref@)
                &&& places[self.images@[i].image_ref@] == i
            }
    }

    /// No image yet.
    pub fn new() -> (s: Self)
        ensures
            s.wf(),
            s.minted() == 0,
            s.active() is None,
            s.meta() == Map::<Seq<char>, ImageMeta>::empty(),
    {
        let s = V2SessionState {
            counter: 0,
            active_ref: None,
            places: index_new(),
            images: Vec::new(),
        };
        assert(s.meta() =~= Map::<Seq<char>, ImageMeta>::empty());
        s
    }

    /// The image in use.
    pub fn active_ref(&self) -> (r: &Option<String>)
        ensures
            *r == self.active(),
    {
        &self.active_ref
    }

    /// Each image has the name that it is found under.
    pub proof fn images_have_their_names(&self)
        requires
            self.wf(),
        ensures
            forall|k: Seq<char>| #[trigger]
                self.meta().dom().contains(k) ==> self.meta()[k].image_ref@ == k,
    {
    }

    /// Mints a fresh name: the prefix, an underscore, and a number that grows. Numbers whose names
    /// are taken are passed over.
    pub fn next_ref(&mut self, prefix: &str) -> (name: String)
        requires
            old(self).wf(),
        ensures
            is_minted(
                name@,
                prefix@,
                old(self).minted(),
                final(self).minted(),
                old(self).meta().dom(),
            ),
            !old(self).meta().dom().contains(name@),
            final(self).wf(),
            final(self).meta() == old(self).meta(),
            final(self).active() == old(self).active(),
    {
        let ghost from = self.counter;
        let ghost taken = entries(self.places).dom();
        let ghost mut k: nat = 0;
        let ghost mut tried: Set<Seq<char>> = Set::empty();
        let count: usize = index_len(&self.places);
        assert(self.meta().dom() =~= taken);
        loop
            invariant
                old(self).wf(),
                taken == old(self).meta().dom(),
                taken.finite(),
                count == taken.len(),
                taken == entries(old(self).places).dom(),
                self.places == old(self).places,
                self.images == old(self).images,
                self.active_ref == old(self).active_ref,
                from == old(self).counter,
                self.counter == number_after(from, k),
                tried.finite(),
                tried.len() == k,
                tried.subset_of(taken),
                forall|j: nat|
                    j < k ==> taken.contains(
                        #[trigger] minted_name(prefix@, number_after(from, j) as nat),
                    ),
                forall|t: Seq<char>| #[trigger]
                    tried.contains(t) ==> exists|j: nat|
                        j < k && t == #[trigger] minted_name(
                            prefix@,
                            number_after(from, j) as nat,
                        ),
            decreases count - k,
        {
            let mut name = prefix.to_owned();
            name.append("_");
            let digits = format_unsigned(self.counter);
            name.append(digits.as_str());
            let is_taken = index_get(&self.places, name.as_str()).is_some();
            proof {
                vstd::set_lib::lemma_len_subset(tried, taken);
            }
            self.counter = counted(self.counter);
            if !is_taken {
                proof {
                    assert(self.meta() =~= old(self).meta());
                    assert(is_first_free(prefix@, from, taken, k));
                }
                return name;
            }
            proof {
                if tried.contains(name@) {
                    let j = choose|j: nat|
                        j < k && name@ == #[trigger] minted_name(
                            prefix@,
                            number_after(from, j) as nat,
                        );
                    minted_names_differ(
                        prefix@,
                        number_after(from, j) as nat,
                        number_after(from, k) as nat,
                    );
                }
                let earlier = tried;
                tried = tried.insert(name@);
                assert forall|t: Seq<char>| #[trigger] tried.contains(t) implies exists|j: nat|
                    j < k + 1 && t == #[trigger] minted_name(
                        prefix@,
                        number_after(from, j) as nat,
                    ) by {
                    if earlier.contains(t) {
                        let j = choose|j: nat|
                            j < k && t == #[trigger] minted_name(
                                prefix@,
                                number_after(from, j) as nat,
                            );
                        assert(j < k + 1 && t == minted_name(
                            prefix@,
                            number_after(from, j) as nat,
                        ));
                    } else {
                        assert(t == minted_name(prefix@, number_after(from, k) as nat));
                    }
                }
                k = k + 1;
                vstd::set_lib::lemma_len_subset(tried, taken);
            }
        }
    }

    /// The name that a unit of a file is opened under: the one asked for, else a minted `img` name.
    /// A name that is taken by another file or unit is refused: opening never changes an image that
    /// is there.
    pub fn ref_for_open(
        &mut self,
        name: Option<String>,
        source: &str,
        hdu: Option<usize>,
    ) -> (r: Result<String, AppError>)
        requires
            old(self).wf(),
        ensures
            final(self).wf(),
            final(self).meta() == old(self).meta(),
            final(self).active() == old(self).active(),
            match name {
                Some(n) => {
                    &&& final(self).minted() == old(self).minted()
                    &&& match r {
                        Ok(image_ref) => image_ref == n && can_open(
                            old(self).meta(),
                            n@,
                            Some(source@),
                            hdu,
                        ),
                        Err(e) => !can_open(old(self).meta(), n@, Some(source@), hdu)
                            && is_taken_error(e, n@),
                    }
                },
                None => r matches Ok(image_ref) && !old(self).meta().dom().contains(image_ref@)
                    && is_minted(
                    image_ref@,
                    "img"@,
                    old(self).minted(),
                    final(self).minted(),
                    old(self).meta().dom(),
                ),
            },
    {
        match name {
            Some(n) => {
                if let Some(meta) = self.get(n.as_str()) {
                    let asked = Some(source.to_owned());
                    if !comes_from(meta, &asked, hdu) {
                        return Err(taken_error(n.as_str()));
                    }
                }
                Ok(n)
            },
            None => Ok(self.next_ref("img")),
        }
    }

    /// The number of images.
    pub fn image_count(&self) -> (n: usize)
        requires
            self.wf(),
        ensures
            n == self.meta().dom().len(),
    {
        assert(self.meta().dom() =~= entries(self.places).dom());
        index_len(&self.places)
    }

    /// What is known of the image of that name.
    pub fn get(&self, image_ref: &str) -> (m: Option<&ImageMeta>)
        requires
            self.wf(),
        ensures
            match m {
                Some(meta) => self.meta().dom().contains(image_ref@) && *meta
                    == self.meta()[image_ref@],
                None => !self.meta().dom().contains(image_ref@),
            },
    {
        match index_get(&self.places, image_ref) {
            Some(i) => {
                assert(i < self.images.len());
                Some(&self.images[i as usize])
            },
            None => None,
        }
    }

    /// Records what is known of an image under its name, unless the name is taken; whether it was
    /// recorded.
    pub fn register(&mut self, meta: ImageMeta) -> (recorded: bool)
        requires
            old(self).wf(),
        ensures
            final(self).wf(),
            recorded == !old(self).meta().dom().contains(meta.image_ref@),
            final(self).meta() == if recorded {
                old(self).meta().insert(meta.image_ref@, meta)
            } else {
                old(self).meta()
            },
            final(self).minted() == old(self).minted(),
            final(self).active() == old(self).active(),
    {
        let ghost before = self.images@;
        match index_get(&self.places, meta.image_ref.as_str()) {
            Some(_) => false,
            None => {
                let i: usize = self.images.len();
                let name = meta.image_ref.clone();
                index_insert(&mut self.places, name, i as u64);
                self.images.push(meta);
                assert(self.images@ == before.push(meta));
                assert(self.meta() =~= old(self).meta().insert(meta.image_ref@, meta));
                true
            },
        }
    }

    /// Makes an image the one in use, and registers it where its name is free. An image that is there
    /// under the name stays as it is; where it is of another file or unit, nothing changes at all.
    pub fn open(&mut self, meta: ImageMeta) -> (r: Result<(), AppError>)
        requires
            old(self).wf(),
        ensures
            final(self).wf(),
            final(self).minted() == old(self).minted(),
            r is Ok <==> can_open(
                old(self).meta(),
                meta.image_ref@,
                opt_text(meta.source),
                meta.hdu,
            ),
            final(self).meta() == if old(self).meta().dom().contains(meta.image_ref@) {
                old(self).meta()
            } else {
                old(self).meta().insert(meta.image_ref@, meta)
            },
            match r {
                Ok(_) => opt_text(final(self).active()) == Some(meta.image_ref@),
                Err(e) => is_taken_error(e, meta.image_ref@) && final(self).active() == old(
                    self,
                ).active(),
            },
    {
        let name = meta.image_ref.clone();
        let fits = match self.get(name.as_str()) {
            Some(kept) => comes_from(kept, &meta.source, meta.hdu),
            None => true,
        };
        if !fits {
            return Err(taken_error(name.as_str()));
        }
        self.register(meta);
        let ghost registered = self.meta();
        self.active_ref = Some(name);
        assert(self.meta() =~= registered);
        Ok(())
    }

    /// The image that an operation is about: the one asked for, else the one in use.
    pub fn target_ref(&self, explicit: Option<String>) -> (r: Result<String, AppError>)
        ensures
            match r {
                Ok(name) => Some(name@) == if explicit is Some {
                    opt_text(explicit)
                } else {
                    opt_text(self.active())
                },
                Err(e) => {
                    &&& explicit is None && self.active() is None
                    &&& e is BadRequest
                    &&& e->BadRequest_0@ == "no active image in this session; open a file first"@
                },
            },
    {
        match explicit {
            Some(name) => Ok(name),
            None => match &self.active_ref {
                Some(name) => Ok(name.clone()),
                None => Err(
                    AppError::BadRequest(
                        "no active image in this session; open a file first".to_owned(),
                    ),
                ),
            },
        }
    }

    /// The file that another header unit is loaded from: that of the image in use.
    pub fn hdu_source(&self) -> (r: Result<String, AppError>)
        requires
            self.wf(),
        ensures
            match (self.active(), r) {
                (None, Err(e)) => e is BadRequest && e->BadRequest_0@
                    == "no active image in this session; open a file first"@,
                (Some(name), Ok(source)) => self.meta().dom().contains(name@) && opt_text(
                    self.meta()[name@].source,
                ) == Some(source@),
                (Some(name), Err(e)) => {
                    &&& self.meta().dom().contains(name@) ==> self.meta()[name@].source is None
                    &&& e is BadRequest
                    &&& e->BadRequest_0@ == "active ref "@ + name@
                        + " has no source file to re-open"@
                },
                (None, Ok(_)) => false,
            },
    {
        match &self.active_ref {
            None => Err(
                AppError::BadRequest(
                    "no active image in this session; open a file first".to_owned(),
                ),
            ),
            Some(name) => {
                if let Some(meta) = self.get(name.as_str()) {
                    if let Some(source) = &meta.source {
                        return Ok(source.clone());
                    }
                }
                let mut message = "active ref ".to_owned();
                message.append(name.as_str());
                message.append(" has no source file to re-open");
                Err(AppError::BadRequest(message))
            },
        }
    }

    /// The names of all images, and what is known of each, as they were registered.
    pub(crate) fn all(&self) -> (images: &Vec<ImageMeta>)
        requires
            self.wf(),
        ensures
            forall|i: int|
                0 <= i < images@.len() ==> {
                    &&& self.meta().dom().contains((#[trigger] images@[i]).image_ref@)
                    &&& self.meta()[images@[i].image_ref@] == images@[i]
                },
            forall|k: Seq<char>| #[trigger]
                self.meta().dom().contains(k) ==> exists|i: int|
                    0 <= i < images@.len() && (#[trigger] images@[i]).image_ref@ == k,
            forall|i: int, j: int|
                0 <= i < j < images@.len() ==> (#[trigger] images@[i]).image_ref@ != (
                #[trigger] images@[j]).image_ref@,
    {
        proof {
            assert forall|k: Seq<char>| #[trigger] self.meta().dom().contains(k) implies exists|
                i: int,
            |
                0 <= i < self.images@.len() && (#[trigger] self.images@[i]).image_ref@ == k by {
                assert(entries(self.places).dom().contains(k));
                let i = entries(self.places)[k] as int;
                assert(self.images@[i].image_ref@ == k);
            }
        }
        &self.images
    }
}

/// The number behind `n`; behind the last one, counting begins anew.
pub open spec fn count_on(n: u64) -> u64 {
    if n == u64::MAX {
        0
    } else {
        (n + 1) as u64
    }
}

/// The number behind `n`.
pub(crate) fn counted(n: u64) -> (m: u64)
    ensures
        m == count_on(n),
{
    if n == u64::MAX {
        0
    } else {
        n + 1
    }
}

/// The number `k` places behind `n`; behind the last one, counting begins anew.
pub open spec fn number_after(n: u64, k: nat) -> u64 {
    ((n + k) % 0x1_0000_0000_0000_0000) as u64
}

/// Whether the name under the number `k` places behind `from` is free, and those before it are not.
pub open spec fn is_first_free(
    prefix: Seq<char>,
    from: u64,
    taken: Set<Seq<char>>,
    k: nat,
) -> bool {
    &&& !taken.contains(minted_name(prefix, number_after(from, k) as nat))
    &&& forall|j: nat|
        j < k ==> taken.contains(#[trigger] minted_name(prefix, number_after(from, j) as nat))
}

/// Whether `name` is the first free one from number `from` on, and `next` the number behind it.
pub open spec fn is_minted(
    name: Seq<char>,
    prefix: Seq<char>,
    from: u64,
    next: u64,
    taken: Set<Seq<char>>,
) -> bool {
    &&& !taken.contains(name)
    &&& exists|k: nat| #[trigger]
        is_first_free(prefix, from, taken, k) && name == minted_name(
            prefix,
            number_after(from, k) as nat,
        ) && next == count_on(number_after(from, k))
}

/// Whether an image was loaded from a file and a unit of it, as a request names them.
pub open spec fn is_from(m: ImageMeta, source: Option<Seq<char>>, hdu: Option<usize>) -> bool {
    opt_text(m.source) == source && m.hdu == hdu
}

fn comes_from(m: &ImageMeta, source: &Option<String>, hdu: Option<usize>) -> (b: bool)
    ensures
        b == is_from(*m, opt_text(*source), hdu),
{
    let same_source = match (&m.source, source) {
        (Some(a), Some(b)) => same(a.as_str(), b.as_str()),
        (None, None) => true,
        _ => false,
    };
    let same_unit = match (m.hdu, hdu) {
        (Some(a), Some(b)) => a == b,
        (None, None) => true,
        _ => false,
    };
    same_source && same_unit
}

/// Whether a unit of a file can be opened under a name: the name is free, or its image is of that
/// file and unit.
pub open spec fn can_open(
    meta: Map<Seq<char>, ImageMeta>,
    name: Seq<char>,
    source: Option<Seq<char>>,
    hdu: Option<usize>,
) -> bool {
    meta.dom().contains(name) ==> is_from(meta[name], source, hdu)
}

/// Whether an error says that a name is taken.
pub open spec fn is_taken_error(e: AppError, name: Seq<char>) -> bool {
    e is Conflict && e->Conflict_0@ == "image ref "@ + name + " already exists in session"@
}

fn taken_error(name: &str) -> (e: AppError)
    ensures
        is_taken_error(e, name@),
{
    let mut message = "image ref ".to_owned();
    message.append(name);
    message.append(" already exists in session");
    AppError::Conflict(message)
}

/// Where the name under the next number is free, that one is minted.
pub proof fn a_free_name_is_minted_as_it_comes(
    name: Seq<char>,
    prefix: Seq<char>,
    from: u64,
    next: u64,
    taken: Set<Seq<char>>,
)
    requires
        is_minted(name, prefix, from, next, taken),
        !taken.contains(minted_name(prefix, from as nat)),
    ensures
        name == minted_name(prefix, from as nat),
        next == count_on(from),
{
    let k = choose|k: nat| #[trigger]
        is_first_free(prefix, from, taken, k) && name == minted_name(
            prefix,
            number_after(from, k) as nat,
        ) && next == count_on(number_after(from, k));
    assert(number_after(from, 0) == from);
    if k > 0 {
        assert(taken.contains(minted_name(prefix, number_after(from, 0) as nat)));
    }
}

/// The name minted under a number.
pub open spec fn minted_name(prefix: Seq<char>, n: nat) -> Seq<char> {
    prefix + "_"@ + decimal(n)
}

proof fn lemma_decimal_reads_back(n: nat)
    ensures
        digits_value(decimal(n)) == n,
    decreases n,
{
    if n < 10 {
        let s = decimal(n);
        assert(s.drop_last() =~= Seq::<char>::empty());
        assert(digits_value(s.drop_last()) == 0);
    } else {
        lemma_decimal_reads_back(n / 10);
        assert(decimal(n).drop_last() =~= decimal(n / 10));
    }
}

/// Names minted under different numbers differ.
pub proof fn minted_names_differ(prefix: Seq<char>, a: nat, b: nat)
    requires
        a != b,
    ensures
        minted_name(prefix, a) != minted_name(prefix, b),
{
    lemma_decimal_reads_back(a);
    lemma_decimal_reads_back(b);
    let start = prefix + "_"@;
    if minted_name(prefix, a) == minted_name(prefix, b) {
        assert(minted_name(prefix, a).skip(start.len() as int) =~= decimal(a));
        assert(minted_name(prefix, b).skip(start.len() as int) =~= decimal(b));
    }
}

/// A session.
pub struct Session {
    pub id: String,
    pub v2: V2SessionState,
    pub activity: ActivityLog,
    pub jobs: Jobs,
    /// Seconds since the Unix epoch at its creation.
    pub created_unix: u64,
    /// The server's clock, in nanoseconds, when a request last touched it.
    pub last_accessed: u64,
}

/// Whether a job is running.
pub open spec fn is_active(s: Session) -> bool {
    some_run(s.jobs.states())
}

/// Nanoseconds since a session was last touched.
pub open spec fn idle_nanos(s: Session, now: u64) -> nat {
    if now > s.last_accessed {
        (now - s.last_accessed) as nat
    } else {
        0
    }
}

/// Whether a session is to be evicted: no job of it runs, and it has been idle for more than
/// `ttl` seconds.
pub open spec fn expired(s: Session, now: u64, ttl: u64) -> bool {
    !is_active(s) && idle_nanos(s, now) > ttl * 1_000_000_000
}

impl Session {
    /// The parts of a session are as they ought to be.
    pub open spec fn wf(&self) -> bool {
        self.v2.wf() && self.activity.wf() && self.jobs.wf()
    }

    /// A session without images, activity or jobs.
    pub fn new(id: String, created_unix: u64, now: u64) -> (s: Self)
        ensures
            s.wf(),
            is_fresh(s, id, created_unix, now),
    {
        Session {
            id,
            v2: V2SessionState::new(),
            activity: ActivityLog::new(),
            jobs: Jobs::new(),
            created_unix,
            last_accessed: now,
        }
    }

    /// Notes that a request reached the session.
    pub fn touch(&mut self, now: u64)
        ensures
            *final(self) == (Session { last_accessed: now, ..*old(self) }),
    {
        self.last_accessed = now;
    }

    /// Whole seconds since a request last touched the session.
    pub fn idle_secs(&self, now: u64) -> (secs: u64)
        ensures
            secs == idle_nanos(*self, now) / 1_000_000_000,
    {
        if now > self.last_accessed {
            (now - self.last_accessed) / 1_000_000_000
        } else {
            0
        }
    }

    /// The number of running jobs.
    pub fn running_jobs(&self) -> (n: usize)
        requires
            self.wf(),
        ensures
            n == running_ids(self.jobs.states()).len(),
    {
        self.jobs.running()
    }

    /// Whether a job is running.
    pub fn has_active_jobs(&self) -> (b: bool)
        requires
            self.wf(),
        ensures
            b == is_active(*self),
    {
        self.jobs.any_running()
    }

    /// Whether the session is to be evicted.
    pub fn is_expired(&self, now: u64, ttl: u64) -> (b: bool)
        requires
            self.wf(),
        ensures
            b == expired(*self, now, ttl),
    {
        if self.has_active_jobs() {
            return false;
        }
        let idle: u64 = if now > self.last_accessed {
            now - self.last_accessed
        } else {
            0
        };
        (idle as u128) > (ttl as u128) * 1_000_000_000
    }
}

/// Whether `s` is a session just created.
pub open spec fn is_fresh(s: Session, id: String, created_unix: u64, now: u64) -> bool {
    &&& s.id == id
    &&& s.v2.active() is None
    &&& s.v2.minted() == 0
    &&& s.v2.meta() == Map::<Seq<char>, ImageMeta>::empty()
    &&& s.activity.recorded() == 0
    &&& s.jobs.states() == Map::<Seq<char>, bool>::empty()
    &&& s.created_unix == created_unix
    &&& s.last_accessed == now
}

/// A session with a running job is never evicted, however long it has been idle; nor is one that
/// was touched just now.
pub proof fn busy_or_fresh_sessions_stay(s: Session, now: u64, ttl: u64)
    ensures
        is_active(s) ==> !expired(s, now, ttl),
        s.last_accessed == now ==> !expired(s, now, ttl),
{
}

} // verus!
