//! Per-job metadata: the logical name of the source artifact and the two
//! lifecycle timestamps.

use vstd::prelude::*;

verus! {

/// Mathematical model of a [`JobMetadata`].
pub struct SpecJobMetadata {
    pub filename: Seq<char>,
    pub created_at: i64,
    pub updated_at: i64,
}

/// Metadata on a job, including information about the file.
///
/// `created_at` is set once at submission; `updated_at` is advanced on every
/// status transition. Timestamps are milliseconds since the Unix epoch.
#[derive(Debug, Clone, PartialEq, Eq)]
pub struct JobMetadata {
    pub filename: String,
    pub created_at: i64,
    pub updated_at: i64,
}

impl View for JobMetadata {
    type V = SpecJobMetadata;

    open spec fn view(&self) -> SpecJobMetadata {
        SpecJobMetadata {
            filename: self.filename@,
            created_at: self.created_at,
            updated_at: self.updated_at,
        }
    }
}

/// Relies on `chrono::Utc::now` and `chrono::DateTime::timestamp_millis`:
/// the current wall-clock time in milliseconds since the Unix epoch. Nothing
/// is assumed of the value; the clock may even move backwards.
#[verifier::external_body]
pub(crate) fn current_timestamp_millis() -> i64 {
    chrono::Utc::now().timestamp_millis()
}

/// `m` with its `updated_at` advanced to `now`. A clock reading older than
/// the last update is ignored, so `updated_at` never moves backwards.
pub open spec fn spec_touch(m: SpecJobMetadata, now: i64) -> SpecJobMetadata {
    SpecJobMetadata {
        filename: m.filename,
        created_at: m.created_at,
        updated_at: if now > m.updated_at {
            now
        } else {
            m.updated_at
        },
    }
}

impl JobMetadata {
    /// Initialize metadata for a newly queued job. Both timestamps are set to
    /// the same reading of the clock.
    pub fn init_for_queued_job(filename: String) -> (r: JobMetadata)
        ensures
            r@.filename == filename@,
            r@.created_at == r@.updated_at,
    {
        let now = current_timestamp_millis();
        JobMetadata { filename, created_at: now, updated_at: now }
    }

    /// Initialize metadata for a newly queued job at the given time.
    pub fn init_for_queued_job_at(filename: String, now: i64) -> (r: JobMetadata)
        ensures
            r@ == (SpecJobMetadata { filename: filename@, created_at: now, updated_at: now }),
    {
        JobMetadata { filename, created_at: now, updated_at: now }
    }

    /// Advance `updated_at` to `now`, never backwards.
    pub fn touch(&mut self, now: i64)
        ensures
            final(self)@ == spec_touch(old(self)@, now),
    {
        if now > self.updated_at {
            self.updated_at = now;
        }
    }

    /// Copy of this metadata; the view of the copy equals the view of the
    /// original.
    pub fn duplicate(&self) -> (r: JobMetadata)
        ensures
            r@ == self@,
    {
        JobMetadata {
            filename: self.filename.clone(),
            created_at: self.created_at,
            updated_at: self.updated_at,
        }
    }
}

} // verus!
