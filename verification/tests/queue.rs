use jobqueue::job::{NewJob, QueueError, Status};
use jobqueue::lifecycle::{claim, list, report_failure, report_success, submit, submit_with_id};
use jobqueue::store::JobStore;

fn seeded(store: &mut JobStore, id: &str, name: &str, now: i64) {
    let r = submit_with_id(store, id.to_string(), name, "{}", None, now);
    assert!(r.is_ok());
}

#[test]
fn submitted_job_is_pending_unclaimed() {
    let mut store = JobStore::new();
    let job = submit_with_id(&mut store, "id-1".to_string(), "build", "{\"k\":1}", Some(5), 10)
        .unwrap();
    assert_eq!(job.status, Status::Pending);
    assert_eq!(job.worker_id, None);
    assert_eq!(job.retry_count, 0);
    assert_eq!(job.max_retries, 5);
    assert_eq!(job.last_error, None);
    assert_eq!(job.created_at, 10);
    assert_eq!(job.updated_at, None);
    assert_eq!(job.id, "id-1");
}

#[test]
fn submit_empty_name_rejected() {
    let mut store = JobStore::new();
    let r = submit(&mut store, "", "{}", None, 1);
    assert_eq!(r.unwrap_err(), QueueError::InvalidArgument);
    assert_eq!(list(&store).len(), 0);
}

#[test]
fn submit_whitespace_name_rejected() {
    let mut store = JobStore::new();
    let r = submit(&mut store, "  ", "{}", None, 1);
    assert_eq!(r.unwrap_err(), QueueError::InvalidArgument);
    assert_eq!(list(&store).len(), 0);
}

#[test]
fn submit_trims_name_and_payload() {
    let mut store = JobStore::new();
    let job = submit(&mut store, " build ", "  {\"a\":2} ", None, 1).unwrap();
    assert_eq!(job.name, "build");
    assert_eq!(job.payload, "{\"a\":2}");
}

#[test]
fn max_retries_bounds() {
    let mut store = JobStore::new();
    let low = submit(&mut store, "a", "{}", Some(-1), 1);
    assert_eq!(low.unwrap_err(), QueueError::InvalidArgument);
    let high = submit(&mut store, "a", "{}", Some(65), 1);
    assert_eq!(high.unwrap_err(), QueueError::InvalidArgument);
    let zero = submit(&mut store, "a", "{}", Some(0), 1).unwrap();
    assert_eq!(zero.max_retries, 0);
    let top = submit(&mut store, "b", "{}", Some(64), 2).unwrap();
    assert_eq!(top.max_retries, 64);
}

#[test]
fn max_retries_defaults_to_three() {
    let mut store = JobStore::new();
    let job = submit(&mut store, "a", "{}", None, 1).unwrap();
    assert_eq!(job.max_retries, 3);
}

#[test]
fn generated_ids_are_uuids_and_fresh() {
    let mut store = JobStore::new();
    let a = submit(&mut store, "a", "{}", None, 1).unwrap();
    let b = submit(&mut store, "b", "{}", None, 2).unwrap();
    assert_eq!(a.id.chars().count(), 36);
    assert_eq!(b.id.chars().count(), 36);
    assert_ne!(a.id, b.id);
}

#[test]
fn submitted_id_is_trimmed_and_reportable() {
    let mut store = JobStore::new();
    let job = submit_with_id(&mut store, " job-a ".to_string(), "a", "{}", None, 1).unwrap();
    assert_eq!(job.id, "job-a");
    claim(&mut store, "w1", 2).unwrap().unwrap();
    let done = report_success(&mut store, " job-a ", 3).unwrap();
    assert_eq!(done.status, Status::Success);
}

#[test]
fn duplicate_id_is_conflict() {
    let mut store = JobStore::new();
    seeded(&mut store, "same", "a", 1);
    let r = submit_with_id(&mut store, "same".to_string(), "b", "{}", None, 2);
    assert_eq!(r.unwrap_err(), QueueError::Conflict);
    assert_eq!(list(&store).len(), 1);
}

#[test]
fn claim_returns_oldest_pending() {
    let mut store = JobStore::new();
    seeded(&mut store, "job-a", "first", 100);
    seeded(&mut store, "job-b", "second", 200);
    let got = claim(&mut store, "w1", 300).unwrap().unwrap();
    assert_eq!(got.id, "job-a");
    assert_eq!(got.status, Status::Running);
    assert_eq!(got.worker_id, Some("w1".to_string()));
    assert_eq!(got.updated_at, Some(300));
}

#[test]
fn claim_breaks_creation_ties_by_id() {
    let mut store = JobStore::new();
    seeded(&mut store, "zz", "late-id", 100);
    seeded(&mut store, "aa", "early-id", 100);
    let got = claim(&mut store, "w1", 300).unwrap().unwrap();
    assert_eq!(got.id, "aa");
}

#[test]
fn claim_trims_and_rejects_empty_worker() {
    let mut store = JobStore::new();
    seeded(&mut store, "job-a", "a", 1);
    let r = claim(&mut store, "   ", 2);
    assert_eq!(r.unwrap_err(), QueueError::InvalidArgument);
    let got = claim(&mut store, " w9 ", 3).unwrap().unwrap();
    assert_eq!(got.worker_id, Some("w9".to_string()));
}

#[test]
fn claim_on_empty_store_is_none() {
    let mut store = JobStore::new();
    let got = claim(&mut store, "w1", 1).unwrap();
    assert!(got.is_none());
}

#[test]
fn no_double_claim_under_many_claims() {
    let mut store = JobStore::new();
    seeded(&mut store, "job-a", "a", 1);
    seeded(&mut store, "job-b", "b", 2);
    seeded(&mut store, "job-c", "c", 3);
    let mut ids: Vec<String> = Vec::new();
    let mut empties = 0;
    for attempt in 0..5 {
        match claim(&mut store, "w", 10 + attempt).unwrap() {
            Some(job) => ids.push(job.id),
            None => empties += 1,
        }
    }
    assert_eq!(ids.len(), 3);
    assert_eq!(empties, 2);
    for i in 0..ids.len() {
        for k in (i + 1)..ids.len() {
            assert_ne!(ids[i], ids[k]);
        }
    }
}

#[test]
fn report_success_transitions_and_is_final() {
    let mut store = JobStore::new();
    seeded(&mut store, "job-a", "a", 1);
    let got = claim(&mut store, "w1", 2).unwrap().unwrap();
    let done = report_success(&mut store, &got.id, 3).unwrap();
    assert_eq!(done.status, Status::Success);
    assert_eq!(done.worker_id, Some("w1".to_string()));
    assert_eq!(done.updated_at, Some(3));

    let again = report_success(&mut store, &got.id, 4);
    assert_eq!(again.unwrap_err(), QueueError::InvalidState);
    let fail_after = report_failure(&mut store, &got.id, "late", 5);
    assert_eq!(fail_after.unwrap_err(), QueueError::InvalidState);

    let snapshot = store.get("job-a").unwrap();
    assert_eq!(snapshot.status, Status::Success);
    assert_eq!(snapshot.last_error, None);
    assert_eq!(snapshot.updated_at, Some(3));
}

#[test]
fn report_failure_records_message() {
    let mut store = JobStore::new();
    seeded(&mut store, "job-a", "a", 1);
    claim(&mut store, "w1", 2).unwrap().unwrap();
    let failed = report_failure(&mut store, "job-a", "boom", 3).unwrap();
    assert_eq!(failed.status, Status::Failed);
    assert_eq!(failed.last_error, Some("boom".to_string()));
}

#[test]
fn report_failure_trims_message_and_allows_empty() {
    let mut store = JobStore::new();
    seeded(&mut store, "job-a", "a", 1);
    seeded(&mut store, "job-b", "b", 2);
    claim(&mut store, "w1", 3).unwrap().unwrap();
    claim(&mut store, "w2", 4).unwrap().unwrap();
    let failed = report_failure(&mut store, "job-a", "  boom  ", 5).unwrap();
    assert_eq!(failed.last_error, Some("boom".to_string()));
    let empty = report_failure(&mut store, "job-b", "   ", 6).unwrap();
    assert_eq!(empty.last_error, Some(String::new()));
}

#[test]
fn report_on_missing_or_pending_job() {
    let mut store = JobStore::new();
    seeded(&mut store, "job-a", "a", 1);
    let missing = report_success(&mut store, "nope", 2);
    assert_eq!(missing.unwrap_err(), QueueError::NotFound);
    let pending = report_success(&mut store, "job-a", 3);
    assert_eq!(pending.unwrap_err(), QueueError::InvalidState);
    let pending_fail = report_failure(&mut store, "job-a", "x", 4);
    assert_eq!(pending_fail.unwrap_err(), QueueError::InvalidState);
}

#[test]
fn store_rejects_terminal_write_unless_running() {
    let mut store = JobStore::new();
    let payload = NewJob {
        id: "job-a".to_string(),
        name: "a".to_string(),
        payload: "{}".to_string(),
        max_retries: 3,
        retry_count: 0,
        status: Status::Pending,
    };
    store.insert(payload, 1).unwrap();
    let r = store.transition_to_terminal("job-a", Status::Running, Status::Success, None, 2);
    assert_eq!(r.unwrap_err(), QueueError::PreconditionFailed);
    let snapshot = store.get("job-a").unwrap();
    assert_eq!(snapshot.status, Status::Pending);
}

#[test]
fn list_reflects_all_records_in_insertion_order() {
    let mut store = JobStore::new();
    seeded(&mut store, "job-a", "a", 1);
    seeded(&mut store, "job-b", "b", 2);
    claim(&mut store, "w1", 3).unwrap().unwrap();
    let all = list(&store);
    assert_eq!(all.len(), 2);
    assert_eq!(all[0].id, "job-a");
    assert_eq!(all[0].status, Status::Running);
    assert_eq!(all[1].id, "job-b");
    assert_eq!(all[1].status, Status::Pending);
}

#[test]
fn end_to_end_lifecycle() {
    let mut store = JobStore::new();
    let p = submit(&mut store, "sync", "{}", None, 1).unwrap();
    assert_eq!(p.status, Status::Pending);

    let running = claim(&mut store, "w1", 2).unwrap().unwrap();
    assert_eq!(running.id, p.id);
    assert_eq!(running.status, Status::Running);
    assert_eq!(running.worker_id, Some("w1".to_string()));

    let done = report_success(&mut store, &p.id, 3).unwrap();
    assert_eq!(done.status, Status::Success);

    let nothing = claim(&mut store, "w2", 4).unwrap();
    assert!(nothing.is_none());
}
