//! Proof jobs and their status records.

use vstd::prelude::*;
use vstd::string::StringExecFns;
use crate::models::ExecutionTrace;

verus! {

/// A request to prove a stored trace.
pub struct ProofJob {
    pub job_id: String,
    pub trace_id: String,
    pub timestamp: u64,
}

/// The key under which a job's status is stored.
pub open spec fn status_key_text(job_id: Seq<char>) -> Seq<char> {
    "job_status:"@ + job_id
}

/// The key under which a job's status is stored.
pub fn job_status_key(job_id: &str) -> (k: String)
    ensures
        k@ == status_key_text(job_id@),
{
    let mut k = String::from_str("job_status:");
    k.append(job_id);
    k
}

/// The status reported for a job: the stored one, or `NOT_FOUND` where
/// nothing is stored.
pub fn resolve_job_status(stored: Option<String>) -> (s: String)
    ensures
        match stored {
            Some(v) => s@ == v@,
            None => s@ == "NOT_FOUND"@,
        },
{
    match stored {
        Some(v) => v,
        None => String::from_str("NOT_FOUND"),
    }
}

/// The stages a job's status record goes through: queued by the
/// scheduler (or failed, when the queue refuses it), then processing and
/// completed at the worker.
#[derive(Debug, Clone, Copy, PartialEq, Eq, Structural)]
pub enum JobStatus {
    Queued,
    Processing,
    Completed,
    Failed,
}

/// The text a status is recorded as.
pub open spec fn status_text(s: JobStatus) -> Seq<char> {
    match s {
        JobStatus::Queued => "QUEUED"@,
        JobStatus::Processing => "PROCESSING"@,
        JobStatus::Completed => "COMPLETED"@,
        JobStatus::Failed => "FAILED"@,
    }
}

impl JobStatus {
    /// The text this status is recorded as.
    pub fn as_str(&self) -> (t: &'static str)
        ensures
            t@ == status_text(*self),
    {
        match self {
            JobStatus::Queued => "QUEUED",
            JobStatus::Processing => "PROCESSING",
            JobStatus::Completed => "COMPLETED",
            JobStatus::Failed => "FAILED",
        }
    }
}

/// What happens to a job along its way.
#[derive(Debug, Clone, Copy, PartialEq, Eq, Structural)]
pub enum JobEvent {
    /// The scheduler stored the job and is handing it to the queue.
    Submitted,
    /// The queue refused the job.
    QueueRefused,
    /// A worker took the job and starts proving.
    Started,
    /// The worker finished the proof.
    Proved,
}

/// The status recorded after an event.
pub open spec fn status_after_spec(e: JobEvent) -> JobStatus {
    match e {
        JobEvent::Submitted => JobStatus::Queued,
        JobEvent::QueueRefused => JobStatus::Failed,
        JobEvent::Started => JobStatus::Processing,
        JobEvent::Proved => JobStatus::Completed,
    }
}

/// The status to record after an event: a submitted job is queued, one
/// the queue refused has failed, a started one is processing and a proved
/// one completed.
pub fn status_after(e: JobEvent) -> (s: JobStatus)
    ensures
        s == status_after_spec(e),
{
    match e {
        JobEvent::Submitted => JobStatus::Queued,
        JobEvent::QueueRefused => JobStatus::Failed,
        JobEvent::Started => JobStatus::Processing,
        JobEvent::Proved => JobStatus::Completed,
    }
}

/// What a worker received from the queue.
pub enum Delivery {
    /// A message without a payload.
    Empty,
    /// A payload that is not text.
    Unreadable,
    /// Text that is not a proof job.
    Malformed,
    /// A proof job.
    Job(ProofJob),
}

/// What a worker does with a job: it records the job as processing under
/// the status key, proves the trace, and records it as completed.
pub struct JobPlan {
    pub status_key: String,
    pub trace: ExecutionTrace,
}

/// The trace a worker proves while traces are not fetched from storage:
/// no steps, the public input 42 and no private inputs.
pub open spec fn placeholder_trace_ok(t: ExecutionTrace) -> bool {
    &&& t.steps@.len() == 0
    &&& t.public_inputs@ == seq![42u32]
    &&& t.private_inputs@.len() == 0
}

/// The worker's decision on a delivery: deliveries that are not proof jobs
/// are skipped; a proof job is planned under its status key.
pub fn plan_delivery(d: Delivery) -> (r: Option<JobPlan>)
    ensures
        match d {
            Delivery::Job(job) => r is Some && r->0.status_key@ == status_key_text(job.job_id@)
                && placeholder_trace_ok(r->0.trace),
            _ => r is None,
        },
{
    match d {
        Delivery::Job(job) => {
            let mut public_inputs: Vec<u32> = Vec::new();
            public_inputs.push(42);
            assert(public_inputs@ =~= seq![42u32]);
            let trace = ExecutionTrace { steps: Vec::new(), public_inputs, private_inputs: Vec::new() };
            Some(JobPlan { status_key: job_status_key(job.job_id.as_str()), trace })
        },
        _ => None,
    }
}

} // verus!
