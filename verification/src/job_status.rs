//! The lifecycle status of a job.

use vstd::prelude::*;

verus! {

/// Mathematical model of a [`JobStatus`]: the same variants, with the failure
/// reason abstracted to a sequence of characters.
pub enum SpecJobStatus {
    Queued,
    Running,
    Succeeded,
    Canceled,
    Failed { reason: Option<Seq<char>> },
}

/// The status of a job.
///
/// A job is created `Queued`, moves to `Running` when it is admitted, and ends
/// in exactly one of the terminal statuses `Succeeded`, `Canceled` or
/// `Failed`; no transition ever leaves a terminal status.
#[derive(Debug, Clone, PartialEq, Eq)]
pub enum JobStatus {
    /// The job is queued to run
    Queued,
    /// The job is running
    Running,
    /// The job finished successfully
    Succeeded,
    /// The job was canceled
    Canceled,
    /// The job failed with the given optional reason
    Failed { reason: Option<String> },
}

impl View for JobStatus {
    type V = SpecJobStatus;

    open spec fn view(&self) -> SpecJobStatus {
        match self {
            JobStatus::Queued => SpecJobStatus::Queued,
            JobStatus::Running => SpecJobStatus::Running,
            JobStatus::Succeeded => SpecJobStatus::Succeeded,
            JobStatus::Canceled => SpecJobStatus::Canceled,
            JobStatus::Failed { reason } => SpecJobStatus::Failed {
                reason: match reason {
                    Some(r) => Some(r@),
                    None => None,
                },
            },
        }
    }
}

impl SpecJobStatus {
    /// A status is finished when it is terminal: neither queued nor running.
    pub open spec fn spec_is_finished(self) -> bool {
        match self {
            SpecJobStatus::Queued | SpecJobStatus::Running => false,
            _ => true,
        }
    }
}

impl JobStatus {
    /// Check if the job is finished, i.e. it is not queued or running.
    pub fn is_finished(&self) -> (r: bool)
        ensures
            r == self@.spec_is_finished(),
    {
        match self {
            JobStatus::Queued | JobStatus::Running => false,
            _ => true,
        }
    }

    /// Copy of this status; the view of the copy equals the view of the
    /// original.
    pub fn duplicate(&self) -> (r: JobStatus)
        ensures
            r@ == self@,
    {
        match self {
            JobStatus::Queued => JobStatus::Queued,
            JobStatus::Running => JobStatus::Running,
            JobStatus::Succeeded => JobStatus::Succeeded,
            JobStatus::Canceled => JobStatus::Canceled,
            JobStatus::Failed { reason } => JobStatus::Failed {
                reason: match reason {
                    Some(r) => Some(r.clone()),
                    None => None,
                },
            },
        }
    }
}

} // verus!
