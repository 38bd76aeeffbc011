//! The mathematical model of the queue: which jobs are claimable, in which
//! order they are handed out, and what each operation does to the sequence
//! of records. The executable store promises exactly these transitions.

use vstd::prelude::*;

use crate::job::{Job, NewJob, Status};
use crate::text::{lex_lt, lemma_lex_lt_connected, lemma_lex_lt_transitive};

verus! {

/// A job a worker may claim: pending and not yet assigned.
pub open spec fn eligible(j: Job) -> bool {
    j.status == Status::Pending && j.worker_id is None
}

/// The claim order: older creation instant first, ties broken by id
/// in lexicographic order.
pub open spec fn job_before(a: Job, b: Job) -> bool {
    ||| a.created_at < b.created_at
    ||| (a.created_at == b.created_at && lex_lt(a.id@, b.id@))
}

/// Whether position `i` holds the job a single claim must take: eligible,
/// and ahead of every other eligible job in the claim order.
pub open spec fn is_candidate(s: Seq<Job>, i: int) -> bool {
    &&& 0 <= i < s.len()
    &&& eligible(s[i])
    &&& forall|k: int|
        0 <= k < s.len() && eligible(#[trigger] s[k]) && k != i ==> job_before(s[i], s[k])
}

/// No two records share an id.
pub open spec fn unique_ids(s: Seq<Job>) -> bool {
    forall|i: int, j: int|
        0 <= i < j < s.len() ==> #[trigger] s[i].id@ != #[trigger] s[j].id@
}

/// Every record satisfies its per-record invariant.
pub open spec fn all_wf(s: Seq<Job>) -> bool {
    forall|i: int| 0 <= i < s.len() ==> (#[trigger] s[i]).wf()
}

/// The store invariant.
pub open spec fn store_ok(s: Seq<Job>) -> bool {
    unique_ids(s) && all_wf(s)
}

/// Whether some record carries the given id.
pub open spec fn has_id(s: Seq<Job>, id: Seq<char>) -> bool {
    exists|i: int| 0 <= i < s.len() && (#[trigger] s[i]).id@ == id
}

/// The record an insertion persists: the payload as a pending job,
/// created now, never yet written to.
pub open spec fn inserted_job(nj: NewJob, now: i64) -> Job {
    Job {
        id: nj.id,
        name: nj.name,
        payload: nj.payload,
        status: nj.status,
        worker_id: None,
        retry_count: nj.retry_count,
        max_retries: nj.max_retries,
        last_error: None,
        created_at: now,
        updated_at: None,
    }
}

/// A successful insertion: the new record is appended, its id was free.
pub open spec fn insert_step(pre: Seq<Job>, post: Seq<Job>, nj: NewJob, now: i64) -> bool {
    &&& nj.wf()
    &&& !has_id(pre, nj.id@)
    &&& post == pre.push(inserted_job(nj, now))
}

/// A successful claim of the candidate at position `i`: that job, and only
/// that job, becomes running and carries the worker's id.
pub open spec fn claim_slot(
    pre: Seq<Job>,
    post: Seq<Job>,
    j: Job,
    w: Seq<char>,
    now: i64,
    i: int,
) -> bool {
    &&& is_candidate(pre, i)
    &&& j.id == pre[i].id
    &&& j.name == pre[i].name
    &&& j.payload == pre[i].payload
    &&& j.status == Status::Running
    &&& j.worker_id matches Some(wid) && wid@ == w
    &&& j.retry_count == pre[i].retry_count
    &&& j.max_retries == pre[i].max_retries
    &&& j.last_error == pre[i].last_error
    &&& j.created_at == pre[i].created_at
    &&& j.updated_at == Some(now)
    &&& post == pre.update(i, j)
}

/// A successful claim, wherever the candidate stood.
pub open spec fn claim_step(pre: Seq<Job>, post: Seq<Job>, j: Job, w: Seq<char>, now: i64) -> bool {
    exists|i: int| claim_slot(pre, post, j, w, now, i)
}

/// The record a terminal report leaves behind: only status, error message
/// and write instant change.
pub open spec fn terminal_job(base: Job, st: Status, err: Option<String>, now: i64) -> Job {
    Job {
        id: base.id,
        name: base.name,
        payload: base.payload,
        status: st,
        worker_id: base.worker_id,
        retry_count: base.retry_count,
        max_retries: base.max_retries,
        last_error: err,
        created_at: base.created_at,
        updated_at: Some(now),
    }
}

/// A successful terminal write at position `i`: the job was still running,
/// and moves to the given terminal status.
pub open spec fn terminal_slot(
    pre: Seq<Job>,
    post: Seq<Job>,
    j: Job,
    id: Seq<char>,
    st: Status,
    err: Option<String>,
    now: i64,
    i: int,
) -> bool {
    &&& 0 <= i < pre.len()
    &&& pre[i].id@ == id
    &&& pre[i].status == Status::Running
    &&& j == terminal_job(pre[i], st, err, now)
    &&& post == pre.update(i, j)
}

/// A successful `reportSuccess`.
pub open spec fn success_step(pre: Seq<Job>, post: Seq<Job>, j: Job, id: Seq<char>, now: i64) -> bool {
    exists|i: int| terminal_slot(pre, post, j, id, Status::Success, None, now, i)
}

/// A successful `reportFailure` with the trimmed message `msg`.
pub open spec fn failure_step(
    pre: Seq<Job>,
    post: Seq<Job>,
    j: Job,
    id: Seq<char>,
    msg: Seq<char>,
    now: i64,
) -> bool {
    exists|i: int, es: String|
        es@ == msg && #[trigger] terminal_slot(pre, post, j, id, Status::Failed, Some(es), now, i)
}

/// Any state change the queue can make: nothing, an insertion, a claim,
/// or a terminal report.
pub open spec fn queue_step(pre: Seq<Job>, post: Seq<Job>) -> bool {
    ||| post == pre
    ||| exists|nj: NewJob, t: i64| insert_step(pre, post, nj, t)
    ||| exists|j: Job, w: Seq<char>, t: i64| claim_step(pre, post, j, w, t)
    ||| exists|j: Job, id: Seq<char>, t: i64| success_step(pre, post, j, id, t)
    ||| exists|j: Job, id: Seq<char>, m: Seq<char>, t: i64| failure_step(pre, post, j, id, m, t)
}

/// The claim order is transitive.
pub proof fn lemma_job_before_transitive(a: Job, b: Job, c: Job)
    requires
        job_before(a, b),
        job_before(b, c),
    ensures
        job_before(a, c),
{
    if a.created_at == b.created_at && b.created_at == c.created_at {
        lemma_lex_lt_transitive(a.id@, b.id@, c.id@);
    }
}

/// Two jobs with different ids are comparable in the claim order.
pub proof fn lemma_job_before_connected(a: Job, b: Job)
    requires
        a.id@ != b.id@,
    ensures
        job_before(a, b) || job_before(b, a),
{
    if a.created_at == b.created_at {
        lemma_lex_lt_connected(a.id@, b.id@);
    }
}

/// An in-place update that keeps the id and the record invariant keeps the
/// store invariant.
pub proof fn lemma_store_ok_update(pre: Seq<Job>, post: Seq<Job>, i: int)
    requires
        store_ok(pre),
        0 <= i < pre.len(),
        post == pre.update(i, post[i]),
        post.len() == pre.len(),
        post[i].id@ == pre[i].id@,
        post[i].wf(),
    ensures
        store_ok(post),
{
    assert forall|a: int, b: int| 0 <= a < b < post.len() implies (#[trigger] post[a].id@)
        != (#[trigger] post[b].id@) by {
        assert(pre[a].id@ != pre[b].id@);
    }
    assert forall|k: int| 0 <= k < post.len() implies (#[trigger] post[k]).wf() by {
        if k != i {
            assert(post[k] == pre[k]);
        }
    }
}

} // verus!
