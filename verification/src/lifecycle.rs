//! The lifecycle operations the queue exposes to its caller: submit, list,
//! claim, and the two terminal reports. Each performs one logically atomic
//! interaction with the store; validation errors never touch the store.

use vstd::prelude::*;

use crate::ids::fresh_id;
use crate::job::{Job, NewJob, QueueError, Status};
use crate::model::{claim_step, eligible, failure_step, has_id, success_step, terminal_slot};
use crate::store::JobStore;
use crate::text::{lemma_trim_unchanged, trim, trimmed};

verus! {

/// The retry ceiling a submission asks for, with the default of 3.
pub open spec fn effective_retries(m: Option<i32>) -> int {
    match m {
        Some(v) => v as int,
        None => 3,
    }
}

/// Submits a job under a caller-chosen id: validates the inputs, then
/// inserts a fresh pending record and returns it as stored. The id is
/// trimmed like every id the queue accepts, so the record can be reported
/// on under the same id.
pub fn submit_with_id(
    store: &mut JobStore,
    id: String,
    name: &str,
    payload: &str,
    max_retries: Option<i32>,
    now: i64,
) -> (r: Result<Job, QueueError>)
    requires
        old(store).wf(),
    ensures
        final(store).wf(),
        ({
            let tn = trimmed(name@);
            let tp = trimmed(payload@);
            let tid = trimmed(id@);
            let m = effective_retries(max_retries);
            if tn.len() == 0 || m < 0 || m > 64 {
                &&& r matches Err(e) && e == QueueError::InvalidArgument
                &&& final(store)@ == old(store)@
            } else if has_id(old(store)@, tid) {
                &&& r matches Err(e) && e == QueueError::Conflict
                &&& final(store)@ == old(store)@
            } else {
                &&& r matches Ok(j) && {
                    &&& j.id@ == tid
                    &&& j.name@ == tn
                    &&& j.payload@ == tp
                    &&& j.status == Status::Pending
                    &&& j.worker_id is None
                    &&& j.retry_count == 0
                    &&& j.max_retries == m
                    &&& j.last_error is None
                    &&& j.created_at == now
                    &&& j.updated_at is None
                    &&& final(store)@ == old(store)@.push(j)
                }
            }
        }),
{
    let tname = trim(name);
    if tname.as_str().is_empty() {
        return Err(QueueError::InvalidArgument);
    }
    let m: i32 = match max_retries {
        Some(v) => v,
        None => 3,
    };
    if m < 0 || m > 64 {
        return Err(QueueError::InvalidArgument);
    }
    let tpayload = trim(payload);
    let tid = trim(id.as_str());
    let id_copy = tid.clone();
    let new_job = NewJob {
        id: tid,
        name: tname,
        payload: tpayload,
        max_retries: m,
        retry_count: 0,
        status: Status::Pending,
    };
    match store.insert(new_job, now) {
        Err(e) => Err(e),
        Ok(()) => {
            let found = store.get(id_copy.as_str());
            match found {
                Ok(j) => Ok(j.clone()),
                Err(e) => {
                    proof {
                        let s = store@;
                        assert(s[s.len() - 1] == crate::model::inserted_job(new_job, now));
                        assert(s[s.len() - 1].id@ == id_copy@);
                        assert(has_id(s, id_copy@));
                        assert(false);
                    }
                    Err(e)
                },
            }
        },
    }
}

/// Submits a job under a freshly generated id. The id is random, so a
/// duplicate — reported as `Conflict` — is possible in principle, but only
/// when some stored id already has the 36-character UUID shape: on any
/// other store, every valid submission is promised to succeed.
pub fn submit(
    store: &mut JobStore,
    name: &str,
    payload: &str,
    max_retries: Option<i32>,
    now: i64,
) -> (r: Result<Job, QueueError>)
    requires
        old(store).wf(),
    ensures
        final(store).wf(),
        ({
            let tn = trimmed(name@);
            let tp = trimmed(payload@);
            let m = effective_retries(max_retries);
            if tn.len() == 0 || m < 0 || m > 64 {
                &&& r matches Err(e) && e == QueueError::InvalidArgument
                &&& final(store)@ == old(store)@
            } else {
                match r {
                    Ok(j) => {
                        &&& j.id@.len() == 36
                        &&& !has_id(old(store)@, j.id@)
                        &&& j.name@ == tn
                        &&& j.payload@ == tp
                        &&& j.status == Status::Pending
                        &&& j.worker_id is None
                        &&& j.retry_count == 0
                        &&& j.max_retries == m
                        &&& j.last_error is None
                        &&& j.created_at == now
                        &&& j.updated_at is None
                        &&& final(store)@ == old(store)@.push(j)
                    },
                    Err(e) => {
                        &&& e == QueueError::Conflict
                        &&& final(store)@ == old(store)@
                        &&& exists|k: int|
                            0 <= k < old(store)@.len() && (#[trigger] old(store)@[k]).id@.len()
                                == 36
                    },
                }
            }
        }),
{
    let id = fresh_id();
    let ghost idv = id@;
    let r = submit_with_id(store, id, name, payload, max_retries, now);
    proof {
        lemma_trim_unchanged(idv);
        let m = effective_retries(max_retries);
        if trimmed(name@).len() > 0 && 0 <= m <= 64 && r is Err {
            assert(has_id(old(store)@, idv));
            let k = choose|k: int|
                0 <= k < old(store)@.len() && (#[trigger] old(store)@[k]).id@ == idv;
            assert(old(store)@[k].id@.len() == 36);
        }
    }
    r
}

/// A snapshot of every record, in insertion order.
pub fn list(store: &JobStore) -> (r: &Vec<Job>)
    ensures
        r@ == store@,
{
    store.list_all()
}

/// Claims the oldest eligible job for the given worker. `Ok(None)` is the
/// normal empty result when nothing is claimable.
pub fn claim(store: &mut JobStore, worker_id: &str, now: i64) -> (r: Result<
    Option<Job>,
    QueueError,
>)
    requires
        old(store).wf(),
    ensures
        final(store).wf(),
        ({
            let w = trimmed(worker_id@);
            if w.len() == 0 {
                &&& r matches Err(e) && e == QueueError::InvalidArgument
                &&& final(store)@ == old(store)@
            } else {
                match r {
                    Ok(Some(j)) => claim_step(old(store)@, final(store)@, j, w, now),
                    Ok(None) => {
                        &&& final(store)@ == old(store)@
                        &&& forall|k: int|
                            0 <= k < old(store)@.len() ==> !eligible(#[trigger] old(store)@[k])
                    },
                    Err(_) => false,
                }
            }
        }),
{
    let w = trim(worker_id);
    if w.as_str().is_empty() {
        return Err(QueueError::InvalidArgument);
    }
    Ok(store.try_claim_oldest_pending(w.as_str(), now))
}

/// Reports that the job finished successfully; the job must still be
/// running.
pub fn report_success(store: &mut JobStore, id: &str, now: i64) -> (r: Result<Job, QueueError>)
    requires
        old(store).wf(),
    ensures
        final(store).wf(),
        ({
            let tid = trimmed(id@);
            match r {
                Ok(j) => success_step(old(store)@, final(store)@, j, tid, now),
                Err(e) => {
                    &&& final(store)@ == old(store)@
                    &&& (e == QueueError::NotFound || e == QueueError::InvalidState)
                    &&& (e == QueueError::NotFound <==> !has_id(old(store)@, tid))
                    &&& (e == QueueError::InvalidState <==> exists|i: int|
                        0 <= i < old(store)@.len() && (#[trigger] old(store)@[i]).id@ == tid
                            && old(store)@[i].status != Status::Running)
                },
            }
        }),
{
    let tid = trim(id);
    let cur_status: Option<Status> = match store.get(tid.as_str()) {
        Ok(j) => Some(j.status),
        Err(_) => None,
    };
    match cur_status {
        None => Err(QueueError::NotFound),
        Some(st) => {
            if st != Status::Running {
                Err(QueueError::InvalidState)
            } else {
                let res = store.transition_to_terminal(
                    tid.as_str(),
                    Status::Running,
                    Status::Success,
                    None,
                    now,
                );
                match res {
                    Ok(j) => Ok(j),
                    Err(e) => {
                        proof {
                            assert(false);
                        }
                        Err(e)
                    },
                }
            }
        },
    }
}

/// Reports that the job failed, recording the trimmed error message; the
/// job must still be running.
pub fn report_failure(store: &mut JobStore, id: &str, error: &str, now: i64) -> (r: Result<
    Job,
    QueueError,
>)
    requires
        old(store).wf(),
    ensures
        final(store).wf(),
        ({
            let tid = trimmed(id@);
            let msg = trimmed(error@);
            match r {
                Ok(j) => failure_step(old(store)@, final(store)@, j, tid, msg, now),
                Err(e) => {
                    &&& final(store)@ == old(store)@
                    &&& (e == QueueError::NotFound || e == QueueError::InvalidState)
                    &&& (e == QueueError::NotFound <==> !has_id(old(store)@, tid))
                    &&& (e == QueueError::InvalidState <==> exists|i: int|
                        0 <= i < old(store)@.len() && (#[trigger] old(store)@[i]).id@ == tid
                            && old(store)@[i].status != Status::Running)
                },
            }
        }),
{
    let tid = trim(id);
    let terr = trim(error);
    let ghost terr_snap = terr;
    let cur_status: Option<Status> = match store.get(tid.as_str()) {
        Ok(j) => Some(j.status),
        Err(_) => None,
    };
    match cur_status {
        None => Err(QueueError::NotFound),
        Some(st) => {
            if st != Status::Running {
                Err(QueueError::InvalidState)
            } else {
                let res = store.transition_to_terminal(
                    tid.as_str(),
                    Status::Running,
                    Status::Failed,
                    Some(terr),
                    now,
                );
                match res {
                    Ok(j) => {
                        proof {
                            let i = choose|i: int|
                                terminal_slot(
                                    old(store)@,
                                    store@,
                                    j,
                                    tid@,
                                    Status::Failed,
                                    Some(terr_snap),
                                    now,
                                    i,
                                );
                        }
                        Ok(j)
                    },
                    Err(e) => {
                        proof {
                            assert(false);
                        }
                        Err(e)
                    },
                }
            }
        },
    }
}

} // verus!
