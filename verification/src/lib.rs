//! A job manager for long-running transcription processes.
//!
//! The core is a scheduler that tracks each job from submission through
//! completion or cancellation: an arrival-ordered admission queue, a table of
//! running jobs, a status and metadata store, and a pluggable strategy that
//! decides which queued jobs to admit each tick and on which resource class
//! they run. Process handling (spawning, polling, killing) is left to the
//! embedding program, which reports outcomes back as plain events.

pub mod command;
pub mod config;
pub mod job_metadata;
pub mod job_status;
pub mod laws;
pub mod models;
pub mod paths;
pub mod render;
pub mod scheduler;
pub mod strategy;

use vstd::prelude::*;

verus! {

} // verus!
