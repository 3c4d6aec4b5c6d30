use vstd::prelude::*;

verus! {

/// Lifecycle of a job. A job only ever moves one step forward through
/// `Preparing -> Waiting -> Processing -> Completed`.
#[derive(PartialEq, Eq, Structural, Clone, Copy, Debug)]
pub enum JobStatus {
    Preparing,
    Waiting,
    Processing,
    Completed,
}

/// Which side-effect processor owns a job.
#[derive(PartialEq, Eq, Structural, Clone, Copy, Debug)]
pub enum JobType {
    EmailSend,
    ImageConvert,
}

/// Position of a status in the lifecycle order.
pub open spec fn rank(s: JobStatus) -> nat {
    match s {
        JobStatus::Preparing => 0,
        JobStatus::Waiting => 1,
        JobStatus::Processing => 2,
        JobStatus::Completed => 3,
    }
}

/// `to` is the status that immediately follows `from`.
pub open spec fn is_next(from: JobStatus, to: JobStatus) -> bool {
    rank(to) == rank(from) + 1
}

impl JobStatus {
    /// Whether moving from `self` to `to` is a single forward step.
    pub fn can_advance_to(&self, to: JobStatus) -> (r: bool)
        ensures
            r == is_next(*self, to),
    {
        match (*self, to) {
            (JobStatus::Preparing, JobStatus::Waiting) => true,
            (JobStatus::Waiting, JobStatus::Processing) => true,
            (JobStatus::Processing, JobStatus::Completed) => true,
            _ => false,
        }
    }
}

/// The persisted unit of work.
pub struct JobRecord {
    pub id: String,
    pub job_type: JobType,
    /// Serialized parameters, opaque to the store.
    pub param: String,
    pub status: JobStatus,
    pub created_at: i64,
    pub updated_at: i64,
}

impl JobRecord {
    /// The record after a successful status change at time `now`.
    pub open spec fn advanced(self, status: JobStatus, now: i64) -> JobRecord {
        JobRecord { status: status, updated_at: now, ..self }
    }

    /// A field-by-field copy.
    pub fn duplicate(&self) -> (r: JobRecord)
        ensures
            r == *self,
    {
        JobRecord {
            id: self.id.clone(),
            job_type: self.job_type,
            param: self.param.clone(),
            status: self.status,
            created_at: self.created_at,
            updated_at: self.updated_at,
        }
    }
}

/// Failures of the pipeline.
#[derive(PartialEq, Eq, Clone, Debug)]
pub enum JobError {
    /// The referenced job does not exist.
    NotFound,
    /// A job with this id already exists.
    AlreadyExists,
    /// The conditional status update changed nothing.
    TransitionConflict,
    /// The trigger payload matched no accepted shape; carries the parse error.
    MalformedEvent(String),
    /// The side-effect processor failed; carries its message.
    ProcessorError(String),
}

} // verus!
