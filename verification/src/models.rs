//! Request and response objects of the job manager's interface. Job ids
//! travel as their 128-bit values; the embedding program converts them to
//! and from its wire representation.

use vstd::prelude::*;

use crate::job_metadata::JobMetadata;
use crate::job_status::JobStatus;

verus! {

/// Request object for canceling a job.
#[derive(Debug, Clone, PartialEq, Eq)]
pub struct CancelJobRequest {
    /// The id of the job.
    pub uuid: u128,
}

/// Request object for getting the results of a job (i.e. the subtitle file).
#[derive(Debug, Clone, PartialEq, Eq)]
pub struct GetJobRequest {
    /// The id of the job.
    pub uuid: u128,
}

/// Request object for getting the status of a job.
#[derive(Debug, Clone, PartialEq, Eq)]
pub struct GetStatusRequest {
    /// The id of the job.
    pub uuid: u128,
}

/// Response object for getting the status of a job.
#[derive(Debug, Clone, PartialEq, Eq)]
pub struct GetStatusResponse {
    /// The status of the job
    pub status: JobStatus,
    /// The metadata of the job
    pub metadata: JobMetadata,
}

/// Response object for getting the status of all jobs.
#[derive(Debug, Clone, PartialEq, Eq)]
pub struct GetAllStatusesResponse {
    /// The statuses of the jobs
    pub statuses: Vec<GetStatusResponse>,
}

/// Request object for queueing a new job.
#[derive(Debug, Clone, PartialEq, Eq)]
pub struct NewJobRequest {
    /// The path to the file to transcribe. Must be within the storage
    /// directory the server was configured with.
    pub path: String,
}

/// Response object for queueing a new job.
#[derive(Debug, Clone, PartialEq, Eq)]
pub struct NewJobResponse {
    /// The id of the job
    pub uuid: u128,
}

} // verus!
