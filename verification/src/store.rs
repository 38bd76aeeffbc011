//! The job store: the single shared table of job records, with the
//! conditional writes the lifecycle operations are built from. Every
//! operation is one atomic interaction with the table.

use vstd::prelude::*;

use crate::job::{Job, NewJob, QueueError, Status};
use crate::model::{
    all_wf, claim_slot, claim_step, eligible, has_id, insert_step, inserted_job, is_candidate,
    job_before, lemma_job_before_connected, lemma_job_before_transitive, lemma_store_ok_update,
    store_ok, terminal_job, terminal_slot, unique_ids,
};
use crate::text::str_eq;
use crate::text::str_lex_lt;

verus! {

/// The durable table of job records. Records are permanent history:
/// nothing is ever deleted.
pub struct JobStore {
    jobs: Vec<Job>,
}

impl View for JobStore {
    type V = Seq<Job>;

    closed spec fn view(&self) -> Seq<Job> {
        self.jobs@
    }
}

fn is_eligible_job(j: &Job) -> (r: bool)
    ensures
        r == eligible(*j),
{
    j.status == Status::Pending && j.worker_id.is_none()
}

fn job_before_exec(a: &Job, b: &Job) -> (r: bool)
    ensures
        r == job_before(*a, *b),
{
    if a.created_at < b.created_at {
        true
    } else if b.created_at < a.created_at {
        false
    } else {
        str_lex_lt(a.id.as_str(), b.id.as_str())
    }
}

impl JobStore {
    /// The store invariant: unique ids, well-formed records.
    pub open spec fn wf(self) -> bool {
        store_ok(self@)
    }

    /// An empty store.
    pub fn new() -> (s: Self)
        ensures
            s@ == Seq::<Job>::empty(),
            s.wf(),
    {
        JobStore { jobs: Vec::new() }
    }

    /// A snapshot of all records, in insertion order.
    pub fn list_all(&self) -> (r: &Vec<Job>)
        ensures
            r@ == self@,
    {
        &self.jobs
    }

    fn index_of(&self, id: &str) -> (r: Option<usize>)
        ensures
            match r {
                Some(i) => i < self@.len() && self@[i as int].id@ == id@,
                None => !has_id(self@, id@),
            },
    {
        let n = self.jobs.len();
        let mut i: usize = 0;
        while i < n
            invariant
                0 <= i <= n,
                n == self@.len(),
                forall|k: int| 0 <= k < i ==> (#[trigger] self@[k]).id@ != id@,
            decreases n - i,
        {
            if str_eq(self.jobs[i].id.as_str(), id) {
                return Some(i);
            }
            i = i + 1;
        }
        None
    }

    /// Persists a fresh pending record, or reports `Conflict` when the id
    /// is already taken. The caller re-reads if it needs the row.
    pub fn insert(&mut self, new_job: NewJob, now: i64) -> (r: Result<(), QueueError>)
        requires
            old(self).wf(),
            new_job.wf(),
        ensures
            final(self).wf(),
            match r {
                Ok(()) => insert_step(old(self)@, final(self)@, new_job, now),
                Err(e) => {
                    &&& e == QueueError::Conflict
                    &&& has_id(old(self)@, new_job.id@)
                    &&& final(self)@ == old(self)@
                },
            },
    {
        match self.index_of(new_job.id.as_str()) {
            Some(_) => Err(QueueError::Conflict),
            None => {
                let ghost pre = self@;
                let j = Job {
                    id: new_job.id,
                    name: new_job.name,
                    payload: new_job.payload,
                    status: new_job.status,
                    worker_id: None,
                    retry_count: new_job.retry_count,
                    max_retries: new_job.max_retries,
                    last_error: None,
                    created_at: now,
                    updated_at: None,
                };
                self.jobs.push(j);
                proof {
                    assert(self@ == pre.push(inserted_job(new_job, now)));
                    assert forall|a: int, b: int| 0 <= a < b < self@.len() implies (
                    #[trigger] self@[a].id@) != (#[trigger] self@[b].id@) by {
                        if b < pre.len() {
                            assert(pre[a].id@ != pre[b].id@);
                        } else {
                            assert(pre[a].id@ != inserted_job(new_job, now).id@);
                        }
                    }
                    assert(all_wf(self@)) by {
                        assert(forall|k: int|
                            0 <= k < pre.len() ==> (#[trigger] self@[k]) == pre[k]);
                    }
                }
                Ok(())
            },
        }
    }

    /// Reads the record with the given id, or reports `NotFound`.
    pub fn get(&self, id: &str) -> (r: Result<&Job, QueueError>)
        ensures
            match r {
                Ok(j) => exists|i: int|
                    0 <= i < self@.len() && (#[trigger] self@[i]).id@ == id@ && *j == self@[i],
                Err(e) => e == QueueError::NotFound && !has_id(self@, id@),
            },
    {
        match self.index_of(id) {
            Some(i) => Ok(&self.jobs[i]),
            None => Err(QueueError::NotFound),
        }
    }

    fn find_candidate(&self) -> (r: Option<usize>)
        requires
            self.wf(),
        ensures
            match r {
                Some(i) => is_candidate(self@, i as int),
                None => forall|k: int| 0 <= k < self@.len() ==> !eligible(#[trigger] self@[k]),
            },
    {
        let n = self.jobs.len();
        let mut best: Option<usize> = None;
        let mut i: usize = 0;
        while i < n
            invariant
                0 <= i <= n,
                n == self@.len(),
                self.wf(),
                match best {
                    Some(b) => {
                        &&& b < i
                        &&& eligible(self@[b as int])
                        &&& forall|k: int|
                            0 <= k < i && eligible(#[trigger] self@[k]) && k != b
                                ==> job_before(self@[b as int], self@[k])
                    },
                    None => forall|k: int| 0 <= k < i ==> !eligible(#[trigger] self@[k]),
                },
            decreases n - i,
        {
            if is_eligible_job(&self.jobs[i]) {
                match best {
                    None => {
                        best = Some(i);
                    },
                    Some(b) => {
                        if job_before_exec(&self.jobs[i], &self.jobs[b]) {
                            proof {
                                assert forall|k: int|
                                    0 <= k < i && eligible(#[trigger] self@[k]) && k != b implies
                                    job_before(self@[i as int], self@[k]) by {
                                    lemma_job_before_transitive(
                                        self@[i as int],
                                        self@[b as int],
                                        self@[k],
                                    );
                                }
                            }
                            best = Some(i);
                        } else {
                            proof {
                                lemma_job_before_connected(self@[b as int], self@[i as int]);
                            }
                        }
                    },
                }
            }
            i = i + 1;
        }
        best
    }

    /// The atomic claim: hands the oldest eligible record (ties broken by
    /// id) to the worker and marks it running, in one conditional write.
    /// `None` is the normal empty result when nothing is claimable.
    pub fn try_claim_oldest_pending(&mut self, worker_id: &str, now: i64) -> (r: Option<Job>)
        requires
            old(self).wf(),
        ensures
            final(self).wf(),
            match r {
                Some(j) => claim_step(old(self)@, final(self)@, j, worker_id@, now),
                None => {
                    &&& final(self)@ == old(self)@
                    &&& forall|k: int|
                        0 <= k < old(self)@.len() ==> !eligible(#[trigger] old(self)@[k])
                },
            },
    {
        match self.find_candidate() {
            None => None,
            Some(i) => {
                let ghost pre = self@;
                let mut j = self.jobs[i].clone();
                j.status = Status::Running;
                j.worker_id = Some(worker_id.to_owned());
                j.updated_at = Some(now);
                let ret = j.clone();
                self.jobs[i] = j;
                proof {
                    assert(claim_slot(pre, self@, ret, worker_id@, now, i as int));
                    lemma_store_ok_update(pre, self@, i as int);
                }
                Some(ret)
            },
        }
    }

    /// The atomic terminal write: moves the record to the given terminal
    /// status only if its status still equals `from_status`.
    pub fn transition_to_terminal(
        &mut self,
        id: &str,
        from_status: Status,
        new_status: Status,
        error: Option<String>,
        now: i64,
    ) -> (r: Result<Job, QueueError>)
        requires
            old(self).wf(),
            from_status == Status::Running,
            new_status == Status::Success ==> error is None,
            new_status == Status::Failed ==> error is Some,
            new_status == Status::Success || new_status == Status::Failed,
        ensures
            final(self).wf(),
            match r {
                Ok(j) => exists|i: int|
                    #[trigger] terminal_slot(
                        old(self)@,
                        final(self)@,
                        j,
                        id@,
                        new_status,
                        error,
                        now,
                        i,
                    ),
                Err(e) => {
                    &&& final(self)@ == old(self)@
                    &&& (e == QueueError::NotFound || e == QueueError::PreconditionFailed)
                    &&& (e == QueueError::NotFound <==> !has_id(old(self)@, id@))
                    &&& (e == QueueError::PreconditionFailed ==> exists|i: int|
                        0 <= i < old(self)@.len() && (#[trigger] old(self)@[i]).id@ == id@
                            && old(self)@[i].status != from_status)
                },
            },
    {
        match self.index_of(id) {
            None => Err(QueueError::NotFound),
            Some(i) => {
                let cur_status = self.jobs[i].status;
                if cur_status != from_status {
                    Err(QueueError::PreconditionFailed)
                } else {
                    let ghost pre = self@;
                    let mut j = self.jobs[i].clone();
                    j.status = new_status;
                    j.last_error = error;
                    j.updated_at = Some(now);
                    let ret = j.clone();
                    self.jobs[i] = j;
                    proof {
                        assert(ret == terminal_job(pre[i as int], new_status, error, now));
                        assert(terminal_slot(pre, self@, ret, id@, new_status, error, now,
                            i as int));
                        lemma_store_ok_update(pre, self@, i as int);
                    }
                    Ok(ret)
                }
            },
        }
    }
}

} // verus!
