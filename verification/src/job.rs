//! The job record, its lifecycle status, the submission payload and the
//! error taxonomy of the queue.

use vstd::prelude::*;

verus! {

/// Lifecycle status of a job. It only ever moves forward along
/// `Pending -> Running -> {Success, Failed}`; the last two are terminal.
#[derive(Clone, Copy, PartialEq, Eq, Structural, Debug)]
pub enum Status {
    Pending,
    Running,
    Success,
    Failed,
}

impl Status {
    /// Whether no further status change is permitted.
    pub open spec fn is_terminal(self) -> bool {
        self == Status::Success || self == Status::Failed
    }
}

/// Whether a status may lawfully be followed by another: either nothing
/// changed, or one forward edge of the lifecycle was taken.
pub open spec fn status_advances(from: Status, to: Status) -> bool {
    ||| from == to
    ||| (from == Status::Pending && to != Status::Pending)
    ||| (from == Status::Running && to.is_terminal())
}

/// The typed failures the queue reports to its caller. The table is held
/// in memory and every operation on it is total, so there is no variant
/// for a transient store failure.
#[derive(Clone, Copy, PartialEq, Eq, Structural, Debug)]
pub enum QueueError {
    /// Bad caller input; the store was never touched.
    InvalidArgument,
    /// The referenced job id does not exist.
    NotFound,
    /// The operation is not legal for the job's current status.
    InvalidState,
    /// A conditional write found the job no longer in the expected status.
    PreconditionFailed,
    /// A job with the same id already exists.
    Conflict,
}

/// One job record, the sole entity of the queue.
#[derive(Debug)]
pub struct Job {
    /// Opaque unique identifier, assigned at creation, immutable.
    pub id: String,
    /// Non-empty display label, stored trimmed.
    pub name: String,
    /// Opaque blob passed through unparsed, stored trimmed.
    pub payload: String,
    /// Current lifecycle status.
    pub status: Status,
    /// Identifier of the claiming worker; set at claim and never changed.
    pub worker_id: Option<String>,
    /// Retry bookkeeping; reserved for requeue semantics, never incremented.
    pub retry_count: i32,
    /// Retry ceiling fixed at creation, between 0 and 64.
    pub max_retries: i32,
    /// The reported error message; present exactly on failed jobs.
    pub last_error: Option<String>,
    /// Creation instant, in caller-supplied ticks, immutable.
    pub created_at: i64,
    /// Instant of the last state-changing write, if any happened.
    pub updated_at: Option<i64>,
}

impl Job {
    /// The per-record invariant every job in the store satisfies.
    pub open spec fn wf(self) -> bool {
        &&& 0 <= self.retry_count
        &&& 0 <= self.max_retries <= 64
        &&& match self.status {
            Status::Pending => self.worker_id is None && self.last_error is None,
            Status::Running => self.worker_id is Some && self.last_error is None,
            Status::Success => self.worker_id is Some && self.last_error is None,
            Status::Failed => self.worker_id is Some && self.last_error is Some,
        }
    }
}

fn clone_opt_string(o: &Option<String>) -> (r: Option<String>)
    ensures
        r == *o,
{
    match o {
        Some(s) => Some(s.clone()),
        None => None,
    }
}

impl Clone for Job {
    /// An exact copy: the clone equals the original record.
    fn clone(&self) -> (r: Self)
        ensures
            r == *self,
    {
        Job {
            id: self.id.clone(),
            name: self.name.clone(),
            payload: self.payload.clone(),
            status: self.status,
            worker_id: clone_opt_string(&self.worker_id),
            retry_count: self.retry_count,
            max_retries: self.max_retries,
            last_error: clone_opt_string(&self.last_error),
            created_at: self.created_at,
            updated_at: self.updated_at,
        }
    }
}

/// The validated payload a submission inserts: a fresh pending job.
pub struct NewJob {
    /// Identifier the new record will carry.
    pub id: String,
    /// Display label, already trimmed and non-empty.
    pub name: String,
    /// Opaque blob, already trimmed.
    pub payload: String,
    /// Retry ceiling, between 0 and 64.
    pub max_retries: i32,
    /// Initial retry counter.
    pub retry_count: i32,
    /// Initial status; a fresh job is pending.
    pub status: Status,
}

impl NewJob {
    /// What the store demands of an insertion payload.
    pub open spec fn wf(self) -> bool {
        &&& self.status == Status::Pending
        &&& 0 <= self.retry_count
        &&& 0 <= self.max_retries <= 64
    }
}

} // verus!
