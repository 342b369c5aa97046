//! The jobs that a session runs in the background.

use vstd::prelude::*;
use vstd::string::*;
use dashmap::DashMap;
use crate::server::index::{entries, index_get, index_insert, index_new};

verus! {

/// A job.
#[derive(Debug)]
pub struct Job {
    pub id: String,
    pub running: bool,
}

/// The jobs of a session, by their ids.
pub struct Jobs {
    places: DashMap<String, u64>,
    jobs: Vec<Job>,
}

/// Whether one of some jobs runs.
pub open spec fn some_run(states: Map<Seq<char>, bool>) -> bool {
    exists|id: Seq<char>| #[trigger] states.dom().contains(id) && states[id]
}

/// The ids of the running ones among some jobs.
pub open spec fn running_ids(states: Map<Seq<char>, bool>) -> Set<Seq<char>> {
    states.dom().filter(|id: Seq<char>| states[id])
}

impl Jobs {
    /// Whether each job runs, by its id.
    pub closed spec fn states(&self) -> Map<Seq<char>, bool> {
        Map::new(
            |id: Seq<char>| entries(self.places).dom().contains(id),
            |id: Seq<char>| self.jobs@[entries(self.places)[id] as int].running,
        )
    }

    /// Each id leads to the job of that id, and each job has an id that leads to it.
    pub closed spec fn wf(&self) -> bool {
        let places = entries(self.places);
        &&& places.dom().finite()
        &&& forall|id: Seq<char>| #[trigger]
            places.dom().contains(id) ==> places[id] < self.jobs@.len()
                && self.jobs@[places[id] as int].id@ == id
        &&& forall|i: int|
            0 <= i < self.jobs@.len() ==> {
                &&& places.dom().contains((#[trigger] self.jobs@[i]).id@)
                &&& places[self.jobs@[i].id@] == i
            }
    }

    /// No job.
    pub fn new() -> (j: Self)
        ensures
            j.wf(),
            j.states() == Map::<Seq<char>, bool>::empty(),
    {
        let j = Jobs { places: index_new(), jobs: Vec::new() };
        assert(j.states() =~= Map::<Seq<char>, bool>::empty());
        j
    }

    /// Takes in a job, in place of one of that id.
    pub fn insert(&mut self, job: Job)
        requires
            old(self).wf(),
        ensures
            final(self).wf(),
            final(self).states() == old(self).states().insert(job.id@, job.running),
    {
        let ghost before = self.jobs@;
        match index_get(&self.places, job.id.as_str()) {
            Some(i) => {
                assert(i < self.jobs.len());
                self.jobs[i as usize] = job;
                assert(self.jobs@ == before.update(i as int, job));
            },
            None => {
                let i: usize = self.jobs.len();
                let id = job.id.clone();
                index_insert(&mut self.places, id, i as u64);
                self.jobs.push(job);
                assert(self.jobs@ == before.push(job));
            },
        }
        assert(self.states() =~= old(self).states().insert(job.id@, job.running));
    }

    /// Notes that a job is done; whether there is one of that id.
    pub fn set_done(&mut self, id: &str) -> (found: bool)
        requires
            old(self).wf(),
        ensures
            final(self).wf(),
            found == old(self).states().dom().contains(id@),
            final(self).states() == if found {
                old(self).states().insert(id@, false)
            } else {
                old(self).states()
            },
    {
        match index_get(&self.places, id) {
            Some(i) => {
                assert(i < self.jobs.len());
                let done = Job { id: self.jobs[i as usize].id.clone(), running: false };
                self.insert(done);
                true
            },
            None => false,
        }
    }

    /// The number of running jobs.
    pub fn running(&self) -> (n: usize)
        requires
            self.wf(),
        ensures
            n == running_ids(self.states()).len(),
    {
        let mut n: usize = 0;
        let mut i: usize = 0;
        let ghost mut ids: Set<Seq<char>> = Set::empty();
        while i < self.jobs.len()
            invariant
                self.wf(),
                i <= self.jobs@.len(),
                n <= i,
                ids.finite(),
                n == ids.len(),
                forall|id: Seq<char>| #[trigger]
                    ids.contains(id) <==> self.states().dom().contains(id) && self.states()[id]
                        && entries(self.places)[id] < i,
            decreases self.jobs.len() - i,
        {
            let ghost id = self.jobs@[i as int].id@;
            assert(entries(self.places).dom().contains(id));
            if self.jobs[i].running {
                proof {
                    assert(!ids.contains(id));
                    ids = ids.insert(id);
                }
                n = n + 1;
            }
            proof {
                assert forall|k: Seq<char>| #[trigger] ids.contains(k) <==> self.states().dom().contains(
                    k,
                ) && self.states()[k] && entries(self.places)[k] < i + 1 by {
                    if self.states().dom().contains(k) && entries(self.places)[k] == i {
                        assert(self.jobs@[i as int].id@ == k);
                    }
                }
            }
            i = i + 1;
        }
        assert(ids =~= running_ids(self.states()));
        n
    }

    /// Whether a job is running.
    pub fn any_running(&self) -> (b: bool)
        requires
            self.wf(),
        ensures
            b == some_run(self.states()),
    {
        let mut i: usize = 0;
        while i < self.jobs.len()
            invariant
                self.wf(),
                i <= self.jobs@.len(),
                forall|j: int| 0 <= j < i ==> !(#[trigger] self.jobs@[j]).running,
            decreases self.jobs.len() - i,
        {
            if self.jobs[i].running {
                let ghost id = self.jobs@[i as int].id@;
                assert(entries(self.places).dom().contains(id));
                assert(self.states().dom().contains(id) && self.states()[id]);
                return true;
            }
            i = i + 1;
        }
        assert forall|id: Seq<char>| #[trigger] self.states().dom().contains(id) implies !self.states()[id] by {
            assert(entries(self.places).dom().contains(id));
            let at = entries(self.places)[id] as int;
            assert(!self.jobs@[at].running);
        }
        false
    }

    /// A job runs exactly where some are counted.
    pub proof fn some_run_where_some_are_counted(&self)
        requires
            self.wf(),
        ensures
            some_run(self.states()) <==> running_ids(self.states()).len() > 0,
    {
        let ids = running_ids(self.states());
        assert(self.states().dom() =~= entries(self.places).dom());
        assert(ids.finite());
        if some_run(self.states()) {
            let id = choose|id: Seq<char>| #[trigger]
                self.states().dom().contains(id) && self.states()[id];
            assert(ids.contains(id));
            if ids.len() == 0 {
                assert(ids =~= Set::empty());
            }
        }
        if ids.len() > 0 {
            let id = ids.choose();
            assert(ids.contains(id));
            assert(self.states().dom().contains(id));
        }
    }
}

} // verus!
