//! The laws of the queue, proved once and for all over the model: no job
//! is ever handed to two workers, claims go out oldest-first, and a
//! terminal record never changes again.

use vstd::prelude::*;

use crate::job::{status_advances, Job, NewJob, Status};
use crate::model::{
    claim_slot, claim_step, eligible, failure_step, has_id, insert_step, inserted_job,
    is_candidate, job_before, lemma_store_ok_update, queue_step, store_ok, success_step,
    terminal_job, terminal_slot, unique_ids,
};

verus! {

/// The set of ids a worker could claim right now.
pub open spec fn eligible_ids(s: Seq<Job>) -> Set<Seq<char>> {
    Set::new(
        |idv: Seq<char>|
            exists|k: int| 0 <= k < s.len() && (#[trigger] s[k]).id@ == idv && eligible(s[k]),
    )
}

/// A claim does not touch any id: the table keeps its length and every
/// position keeps its identifier.
pub proof fn lemma_claim_keeps_ids(pre: Seq<Job>, post: Seq<Job>, j: Job, w: Seq<char>, t: i64)
    requires
        claim_step(pre, post, j, w, t),
    ensures
        post.len() == pre.len(),
        forall|k: int| 0 <= k < pre.len() ==> (#[trigger] post[k]).id@ == pre[k].id@,
{
    let i = choose|i: int| claim_slot(pre, post, j, w, t, i);
    assert forall|k: int| 0 <= k < pre.len() implies (#[trigger] post[k]).id@ == pre[k].id@ by {
        if k != i {
            assert(post[k] == pre[k]);
        }
    }
}

/// No double claim: two successive successful claims, by any workers at
/// any instants, never return the same job.
pub proof fn lemma_no_double_claim(
    s0: Seq<Job>,
    s1: Seq<Job>,
    s2: Seq<Job>,
    a: Job,
    b: Job,
    w1: Seq<char>,
    w2: Seq<char>,
    t1: i64,
    t2: i64,
)
    requires
        unique_ids(s0),
        claim_step(s0, s1, a, w1, t1),
        claim_step(s1, s2, b, w2, t2),
    ensures
        a.id@ != b.id@,
{
    let i = choose|i: int| claim_slot(s0, s1, a, w1, t1, i);
    let k = choose|k: int| claim_slot(s1, s2, b, w2, t2, k);
    lemma_claim_keeps_ids(s0, s1, a, w1, t1);
    if a.id@ == b.id@ {
        assert(s1[k].id@ == b.id@);
        assert(s1[i] == a);
        assert(s1[i].id@ == a.id@);
        if k != i {
            assert(s1[k].id@ == s0[k].id@ && s1[i].id@ == s0[i].id@);
            assert(s0[k].id@ != s0[i].id@);
        }
        assert(k == i);
        assert(eligible(s1[k]) && s1[i].status == Status::Running);
        assert(false);
    }
}

/// A successful claim removes exactly the claimed job from the eligible
/// set: it was eligible before, and afterwards the eligible ids are the
/// old ones minus its id.
pub proof fn lemma_claim_takes_exactly_one(
    pre: Seq<Job>,
    post: Seq<Job>,
    j: Job,
    w: Seq<char>,
    t: i64,
)
    requires
        unique_ids(pre),
        claim_step(pre, post, j, w, t),
    ensures
        eligible_ids(pre).contains(j.id@),
        eligible_ids(post) == eligible_ids(pre).remove(j.id@),
{
    let i = choose|i: int| claim_slot(pre, post, j, w, t, i);
    assert(pre[i].id@ == j.id@ && eligible(pre[i]));
    assert(eligible_ids(pre).contains(j.id@));
    assert forall|idv: Seq<char>| #[trigger]
        eligible_ids(post).contains(idv) implies eligible_ids(pre).remove(j.id@).contains(
        idv,
    ) by {
        let k = choose|k: int| 0 <= k < post.len() && (#[trigger] post[k]).id@ == idv && eligible(
            post[k],
        );
        assert(k != i) by {
            assert(post[i] == j && j.worker_id is Some);
        }
        assert(post[k] == pre[k]);
        assert(eligible_ids(pre).contains(idv));
        assert(idv != j.id@) by {
            if k < i {
                assert(pre[k].id@ != pre[i].id@);
            } else {
                assert(pre[i].id@ != pre[k].id@);
            }
        }
    }
    assert forall|idv: Seq<char>| #[trigger]
        eligible_ids(pre).remove(j.id@).contains(idv) implies eligible_ids(post).contains(
        idv,
    ) by {
        let k = choose|k: int| 0 <= k < pre.len() && (#[trigger] pre[k]).id@ == idv && eligible(
            pre[k],
        );
        assert(k != i) by {
            assert(pre[i].id@ == j.id@ && idv != j.id@);
        }
        assert(post[k] == pre[k]);
    }
    assert(eligible_ids(post) =~= eligible_ids(pre).remove(j.id@));
}

/// Claim ordering: the claimed job comes before every other job that was
/// eligible at the same moment — it is older, or of equal age with the
/// lexicographically smaller id.
pub proof fn lemma_claim_picks_oldest(
    pre: Seq<Job>,
    post: Seq<Job>,
    j: Job,
    w: Seq<char>,
    t: i64,
    k: int,
)
    requires
        claim_step(pre, post, j, w, t),
        0 <= k < pre.len(),
        eligible(pre[k]),
        pre[k].id@ != j.id@,
    ensures
        job_before(j, pre[k]),
{
    let i = choose|i: int| claim_slot(pre, post, j, w, t, i);
    assert(k != i);
    assert(job_before(pre[i], pre[k]));
}

/// The ids of the jobs a run of claims handed out.
pub open spec fn claimed_ids(jobs: Seq<Job>) -> Set<Seq<char>> {
    Set::new(
        |idv: Seq<char>|
            exists|n: int| 0 <= n < jobs.len() && (#[trigger] jobs[n]).id@ == idv,
    )
}

/// The counting form of the no-double-claim law. Along any run of
/// successful claims against one store — however many workers, in whatever
/// order their calls are serialized — the jobs handed out carry pairwise
/// distinct ids, each was eligible at the start, and the eligible ids that
/// remain are exactly the initial ones minus those handed out. So once as
/// many claims have succeeded as there were eligible jobs, nothing is left
/// to claim, and every further call observes the normal empty result.
pub proof fn lemma_claim_run_counts(
    states: Seq<Seq<Job>>,
    jobs: Seq<Job>,
    ws: Seq<Seq<char>>,
    ts: Seq<i64>,
)
    requires
        states.len() == jobs.len() + 1,
        ws.len() == jobs.len(),
        ts.len() == jobs.len(),
        unique_ids(states[0]),
        forall|n: int|
            0 <= n < jobs.len() ==> claim_step(
                states[n],
                states[n + 1],
                #[trigger] jobs[n],
                ws[n],
                ts[n],
            ),
    ensures
        forall|a: int, b: int|
            0 <= a < b < jobs.len() ==> (#[trigger] jobs[a]).id@ != (#[trigger] jobs[b]).id@,
        forall|n: int| 0 <= n < jobs.len() ==> eligible_ids(states[0]).contains(
            (#[trigger] jobs[n]).id@,
        ),
        eligible_ids(states.last()) == eligible_ids(states[0]).difference(claimed_ids(jobs)),
    decreases jobs.len(),
{
    if jobs.len() == 0 {
        assert(states.last() == states[0]);
        assert(claimed_ids(jobs) =~= Set::<Seq<char>>::empty());
        assert(eligible_ids(states[0]).difference(claimed_ids(jobs)) =~= eligible_ids(states[0]));
    } else {
        let s0 = states[0];
        let s1 = states[1];
        let j0 = jobs[0];
        assert(claim_step(s0, s1, j0, ws[0], ts[0]));
        lemma_claim_takes_exactly_one(s0, s1, j0, ws[0], ts[0]);
        lemma_claim_keeps_ids(s0, s1, j0, ws[0], ts[0]);
        assert forall|a: int, b: int| 0 <= a < b < s1.len() implies (#[trigger] s1[a].id@)
            != (#[trigger] s1[b].id@) by {
            assert(s1[a].id@ == s0[a].id@ && s1[b].id@ == s0[b].id@);
            assert(s0[a].id@ != s0[b].id@);
        }
        let states2 = states.drop_first();
        let jobs2 = jobs.drop_first();
        let ws2 = ws.drop_first();
        let ts2 = ts.drop_first();
        assert forall|n: int| 0 <= n < jobs2.len() implies claim_step(
            states2[n],
            states2[n + 1],
            #[trigger] jobs2[n],
            ws2[n],
            ts2[n],
        ) by {
            assert(states2[n] == states[n + 1]);
            assert(states2[n + 1] == states[n + 2]);
            assert(jobs2[n] == jobs[n + 1]);
            assert(ws2[n] == ws[n + 1]);
            assert(ts2[n] == ts[n + 1]);
            assert(claim_step(states[n + 1], states[n + 2], jobs[n + 1], ws[n + 1], ts[n + 1]));
        }
        lemma_claim_run_counts(states2, jobs2, ws2, ts2);
        assert(states2.last() == states.last());

        // The whole run's ids are the first id plus the tail's ids.
        assert(claimed_ids(jobs) =~= claimed_ids(jobs2).insert(j0.id@)) by {
            assert forall|idv: Seq<char>| #[trigger]
                claimed_ids(jobs).contains(idv) implies claimed_ids(jobs2).insert(
                j0.id@,
            ).contains(idv) by {
                let n = choose|n: int| 0 <= n < jobs.len() && (#[trigger] jobs[n]).id@ == idv;
                if n > 0 {
                    assert(jobs2[n - 1] == jobs[n]);
                    assert(claimed_ids(jobs2).contains(idv));
                }
            }
            assert forall|idv: Seq<char>| #[trigger]
                claimed_ids(jobs2).insert(j0.id@).contains(idv) implies claimed_ids(
                jobs,
            ).contains(idv) by {
                if idv == j0.id@ {
                    assert((jobs[0]).id@ == idv);
                } else {
                    let n = choose|n: int| 0 <= n < jobs2.len() && (#[trigger] jobs2[n]).id@
                        == idv;
                    assert(jobs[n + 1] == jobs2[n]);
                    assert((jobs[n + 1]).id@ == idv);
                }
            }
        }

        // Membership: the first job was eligible at the start; each later
        // one was eligible after the first claim, hence at the start too.
        assert forall|n: int| 0 <= n < jobs.len() implies eligible_ids(s0).contains(
            (#[trigger] jobs[n]).id@,
        ) by {
            if n > 0 {
                assert(jobs2[n - 1] == jobs[n]);
                assert(eligible_ids(s1).contains(jobs[n].id@));
                assert(eligible_ids(s1) == eligible_ids(s0).remove(j0.id@));
            }
        }

        // Distinctness: within the tail by induction; against the first
        // job because its id is no longer eligible after its claim.
        assert forall|a: int, b: int| 0 <= a < b < jobs.len() implies (#[trigger] jobs[a]).id@
            != (#[trigger] jobs[b]).id@ by {
            if a == 0 {
                assert(jobs2[b - 1] == jobs[b]);
                assert(eligible_ids(s1).contains(jobs[b].id@));
                assert(eligible_ids(s1) == eligible_ids(s0).remove(j0.id@));
            } else {
                assert(jobs2[a - 1] == jobs[a] && jobs2[b - 1] == jobs[b]);
            }
        }

        // The remaining eligible ids: remove the first id, then the tail's.
        assert(eligible_ids(states.last()) =~= eligible_ids(s0).difference(claimed_ids(jobs)))
            by {
            assert(eligible_ids(states2[0]) == eligible_ids(s1));
            assert(eligible_ids(states.last()) == eligible_ids(s1).difference(
                claimed_ids(jobs2),
            ));
            assert(eligible_ids(s1) == eligible_ids(s0).remove(j0.id@));
        }
    }
}

/// Terminal statuses are frozen: whatever step the queue takes, a record
/// that was already successful or failed is left exactly as it was.
pub proof fn lemma_terminal_never_changes(pre: Seq<Job>, post: Seq<Job>, i: int)
    requires
        queue_step(pre, post),
        0 <= i < pre.len(),
        pre[i].status.is_terminal(),
    ensures
        0 <= i < post.len(),
        post[i] == pre[i],
{
    if post == pre {
    } else if exists|nj: NewJob, t: i64| insert_step(pre, post, nj, t) {
        let (nj, t) = choose|nj: NewJob, t: i64| insert_step(pre, post, nj, t);
        assert(post == pre.push(inserted_job(nj, t)));
    } else if exists|j: Job, w: Seq<char>, t: i64| claim_step(pre, post, j, w, t) {
        let (j, w, t) = choose|j: Job, w: Seq<char>, t: i64| claim_step(pre, post, j, w, t);
        let c = choose|c: int| claim_slot(pre, post, j, w, t, c);
        assert(eligible(pre[c]));
        assert(c != i);
    } else if exists|j: Job, id: Seq<char>, t: i64| success_step(pre, post, j, id, t) {
        let (j, id, t) = choose|j: Job, id: Seq<char>, t: i64| success_step(pre, post, j, id, t);
        let c = choose|c: int| terminal_slot(pre, post, j, id, Status::Success, None, t, c);
        assert(pre[c].status == Status::Running);
        assert(c != i);
    } else {
        let (j, id, m, t) = choose|j: Job, id: Seq<char>, m: Seq<char>, t: i64|
            failure_step(pre, post, j, id, m, t);
        let (c, es) = choose|c: int, es: String|
            es@ == m && terminal_slot(pre, post, j, id, Status::Failed, Some(es), t, c);
        assert(pre[c].status == Status::Running);
        assert(c != i);
    }
}

/// Monotonic lifecycle: whatever step the queue takes, every existing
/// record keeps its id, creation instant, label, payload and retry
/// configuration; its status only moves forward; and a worker assignment,
/// once made, never changes.
pub proof fn lemma_step_respects_lifecycle(pre: Seq<Job>, post: Seq<Job>, i: int)
    requires
        queue_step(pre, post),
        0 <= i < pre.len(),
    ensures
        pre.len() <= post.len(),
        post[i].id == pre[i].id,
        post[i].created_at == pre[i].created_at,
        post[i].name == pre[i].name,
        post[i].payload == pre[i].payload,
        post[i].max_retries == pre[i].max_retries,
        post[i].retry_count == pre[i].retry_count,
        status_advances(pre[i].status, post[i].status),
        pre[i].worker_id is Some ==> post[i].worker_id == pre[i].worker_id,
{
    if post == pre {
    } else if exists|nj: NewJob, t: i64| insert_step(pre, post, nj, t) {
        let (nj, t) = choose|nj: NewJob, t: i64| insert_step(pre, post, nj, t);
        assert(post == pre.push(inserted_job(nj, t)));
    } else if exists|j: Job, w: Seq<char>, t: i64| claim_step(pre, post, j, w, t) {
        let (j, w, t) = choose|j: Job, w: Seq<char>, t: i64| claim_step(pre, post, j, w, t);
        let c = choose|c: int| claim_slot(pre, post, j, w, t, c);
        if c == i {
            assert(post[i] == j);
            assert(eligible(pre[i]));
        }
    } else if exists|j: Job, id: Seq<char>, t: i64| success_step(pre, post, j, id, t) {
        let (j, id, t) = choose|j: Job, id: Seq<char>, t: i64| success_step(pre, post, j, id, t);
        let c = choose|c: int| terminal_slot(pre, post, j, id, Status::Success, None, t, c);
        if c == i {
            assert(post[i] == terminal_job(pre[i], Status::Success, None, t));
        }
    } else {
        let (j, id, m, t) = choose|j: Job, id: Seq<char>, m: Seq<char>, t: i64|
            failure_step(pre, post, j, id, m, t);
        let (c, es) = choose|c: int, es: String|
            es@ == m && terminal_slot(pre, post, j, id, Status::Failed, Some(es), t, c);
        if c == i {
            assert(post[i] == terminal_job(pre[i], Status::Failed, Some(es), t));
        }
    }
}

/// The store invariant is inductive: it survives every step the queue can
/// take.
pub proof fn lemma_step_preserves_store_ok(pre: Seq<Job>, post: Seq<Job>)
    requires
        store_ok(pre),
        queue_step(pre, post),
    ensures
        store_ok(post),
{
    if post == pre {
    } else if exists|nj: NewJob, t: i64| insert_step(pre, post, nj, t) {
        let (nj, t) = choose|nj: NewJob, t: i64| insert_step(pre, post, nj, t);
        let x = inserted_job(nj, t);
        assert(post == pre.push(x));
        assert forall|a: int, b: int| 0 <= a < b < post.len() implies (#[trigger] post[a].id@)
            != (#[trigger] post[b].id@) by {
            if b < pre.len() {
                assert(pre[a].id@ != pre[b].id@);
            } else {
                assert(post[b] == x);
                assert(pre[a].id@ != x.id@);
            }
        }
        assert forall|k: int| 0 <= k < post.len() implies (#[trigger] post[k]).wf() by {
            if k < pre.len() {
                assert(post[k] == pre[k]);
            } else {
                assert(post[k] == x);
            }
        }
    } else if exists|j: Job, w: Seq<char>, t: i64| claim_step(pre, post, j, w, t) {
        let (j, w, t) = choose|j: Job, w: Seq<char>, t: i64| claim_step(pre, post, j, w, t);
        let c = choose|c: int| claim_slot(pre, post, j, w, t, c);
        assert(j.wf()) by {
            assert(eligible(pre[c]) && pre[c].wf());
        }
        lemma_store_ok_update(pre, post, c);
    } else if exists|j: Job, id: Seq<char>, t: i64| success_step(pre, post, j, id, t) {
        let (j, id, t) = choose|j: Job, id: Seq<char>, t: i64| success_step(pre, post, j, id, t);
        let c = choose|c: int| terminal_slot(pre, post, j, id, Status::Success, None, t, c);
        assert(j.wf()) by {
            assert(pre[c].status == Status::Running && pre[c].wf());
        }
        lemma_store_ok_update(pre, post, c);
    } else {
        let (j, id, m, t) = choose|j: Job, id: Seq<char>, m: Seq<char>, t: i64|
            failure_step(pre, post, j, id, m, t);
        let (c, es) = choose|c: int, es: String|
            es@ == m && terminal_slot(pre, post, j, id, Status::Failed, Some(es), t, c);
        assert(j.wf()) by {
            assert(pre[c].status == Status::Running && pre[c].wf());
        }
        lemma_store_ok_update(pre, post, c);
    }
}

/// After a successful terminal report, the job is on record with its
/// terminal status and is no longer running, so a second report on it is
/// rejected and changes nothing.
pub proof fn lemma_second_report_rejected(
    pre: Seq<Job>,
    post: Seq<Job>,
    j: Job,
    id: Seq<char>,
    t: i64,
)
    requires
        success_step(pre, post, j, id, t),
    ensures
        exists|i: int|
            0 <= i < post.len() && (#[trigger] post[i]).id@ == id && post[i].status
                == Status::Success && post[i].status != Status::Running,
{
    let c = choose|c: int| terminal_slot(pre, post, j, id, Status::Success, None, t, c);
    assert(post[c] == j);
    assert(post[c].id@ == id && post[c].status == Status::Success);
}

} // verus!
