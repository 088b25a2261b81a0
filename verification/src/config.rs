//! The server's configuration values. Reading and validating them from disk
//! is the embedding program's concern.

use vstd::prelude::*;

verus! {

/// The configuration of the job manager service.
#[derive(Debug, Clone, PartialEq, Eq)]
pub struct Config {
    /// The directory the files to transcribe are stored under.
    pub video_storage_path: String,
    /// The host address to serve on.
    pub host: String,
    /// The port to serve on.
    pub port: u16,
}

} // verus!
