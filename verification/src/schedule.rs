//! The schedule actor's book of jobs. The cron engine fires the jobs; the
//! actor keeps the ids of the jobs that the engine holds, answers the
//! callers of add and remove, and turns away a removal of a job it does not
//! hold.

use crate::errors::{Error, SchedulerError};
use vstd::prelude::*;

verus! {

/// The id of a job: the 128 bits of the identifier that the engine gave it.
#[derive(Debug, Clone, Copy, PartialEq, Eq, Hash, Structural)]
pub struct JobId(pub u128);

/// The jobs that are registered with the engine.
#[derive(Debug)]
pub struct Schedule {
    jobs: Vec<JobId>,
}

impl View for Schedule {
    type V = Set<JobId>;

    closed spec fn view(&self) -> Set<JobId> {
        self.jobs@.to_set()
    }
}

impl Schedule {
    /// No id is kept twice.
    pub closed spec fn wf(&self) -> bool {
        self.jobs@.no_duplicates()
    }

    /// A schedule without jobs.
    pub fn new() -> (schedule: Self)
        ensures
            schedule.wf(),
            schedule@ == Set::<JobId>::empty(),
    {
        let schedule = Schedule { jobs: Vec::new() };
        assert(schedule.jobs@.to_set() =~= Set::<JobId>::empty());
        schedule
    }

    fn position(&self, id: JobId) -> (at: Option<usize>)
        ensures
            match at {
                Some(i) => i < self.jobs@.len() && self.jobs@[i as int] == id,
                None => !self.jobs@.contains(id),
            },
    {
        let mut i: usize = 0;
        while i < self.jobs.len()
            invariant
                i <= self.jobs@.len(),
                forall|k: int| 0 <= k < i ==> self.jobs@[k] != id,
            decreases self.jobs@.len() - i,
        {
            if self.jobs[i] == id {
                return Some(i);
            }
            i += 1;
        }
        None
    }

    /// Whether a job with this id is registered.
    pub fn knows(&self, id: JobId) -> (known: bool)
        ensures
            known == self@.contains(id),
    {
        self.position(id).is_some()
    }

    /// The number of registered jobs.
    pub fn len(&self) -> (n: usize)
        requires
            self.wf(),
        ensures
            n == self@.len(),
    {
        proof {
            self.jobs@.unique_seq_to_set();
        }
        self.jobs.len()
    }

    /// The answer to the caller of add, once the engine has taken or refused
    /// the job. An id that the engine handed out is registered and returned;
    /// a refusal is passed on as a scheduler error and registers nothing.
    pub fn on_added(&mut self, outcome: Result<JobId, SchedulerError>) -> (res: Result<JobId, Error>)
        requires
            old(self).wf(),
        ensures
            final(self).wf(),
            match outcome {
                Ok(id) => res == Ok::<JobId, Error>(id) && final(self)@ == old(self)@.insert(id),
                Err(e) => res == Err::<JobId, Error>(Error::Scheduler(e)) && final(self)@ == old(
                    self,
                )@,
            },
    {
        match outcome {
            Ok(id) => {
                if self.position(id).is_none() {
                    self.jobs.push(id);
                    assert(self.jobs@.to_set() =~= old(self).jobs@.to_set().insert(id)) by {
                        assert forall|x: JobId|
                            self.jobs@.contains(x) <==> old(self).jobs@.contains(x) || x == id by {
                            if self.jobs@.contains(x) {
                                let k = choose|k: int| 0 <= k < self.jobs@.len() && self.jobs@[k] == x;
                                if k < old(self).jobs@.len() {
                                    assert(old(self).jobs@[k] == x);
                                }
                            }
                            if old(self).jobs@.contains(x) {
                                let k = choose|k: int|
                                    0 <= k < old(self).jobs@.len() && old(self).jobs@[k] == x;
                                assert(self.jobs@[k] == x);
                            }
                            if x == id {
                                assert(self.jobs@[self.jobs@.len() - 1] == x);
                            }
                        }
                    }
                } else {
                    assert(self.jobs@.to_set() =~= self.jobs@.to_set().insert(id));
                }
                Ok(id)
            },
            Err(e) => Err(Error::Scheduler(e)),
        }
    }

    /// The actor's move on a request to remove a job, before the engine is
    /// asked. A registered id goes on to the engine; an id that is not
    /// registered is refused with `UnknownJob`. The book stays as it is
    /// either way: the job is struck only once the engine has removed it.
    pub fn on_remove(&self, id: JobId) -> (res: Result<(), Error>)
        ensures
            res == if self@.contains(id) {
                Ok::<(), Error>(())
            } else {
                Err::<(), Error>(Error::Scheduler(SchedulerError::UnknownJob))
            },
    {
        match self.position(id) {
            Some(_) => Ok(()),
            None => Err(Error::Scheduler(SchedulerError::UnknownJob)),
        }
    }

    /// The answer to the caller of remove, once the engine has answered for
    /// the job with this id. A job that the engine removed is struck from
    /// the book. A refusal is passed on as a scheduler error and the job
    /// stays registered, so that its removal can be asked for again.
    pub fn on_removed(&mut self, id: JobId, outcome: Result<(), SchedulerError>) -> (res: Result<
        (),
        Error,
    >)
        requires
            old(self).wf(),
        ensures
            final(self).wf(),
            match outcome {
                Ok(_) => res == Ok::<(), Error>(()) && final(self)@ == old(self)@.remove(id),
                Err(e) => res == Err::<(), Error>(Error::Scheduler(e)) && final(self)@ == old(
                    self,
                )@,
            },
    {
        match outcome {
            Ok(_) => {
                match self.position(id) {
                    Some(i) => {
                        self.jobs.remove(i);
                        assert(self.jobs@.to_set() =~= old(self).jobs@.to_set().remove(id)) by {
                            let before = old(self).jobs@;
                            let after = self.jobs@;
                            assert forall|x: JobId|
                                after.contains(x) <==> before.contains(x) && x != id by {
                                if after.contains(x) {
                                    let k = choose|k: int| 0 <= k < after.len() && after[k] == x;
                                    if k < i {
                                        assert(before[k] == x);
                                    } else {
                                        assert(before[k + 1] == x);
                                    }
                                }
                                if before.contains(x) && x != id {
                                    let k = choose|k: int| 0 <= k < before.len() && before[k] == x;
                                    if k < i {
                                        assert(after[k] == x);
                                    } else {
                                        assert(after[k - 1] == x);
                                    }
                                }
                            }
                        }
                    },
                    None => {
                        assert(self.jobs@.to_set() =~= self.jobs@.to_set().remove(id));
                    },
                }
                Ok(())
            },
            Err(e) => Err(Error::Scheduler(e)),
        }
    }
}

} // verus!
