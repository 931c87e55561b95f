//! Version history of a project file.
use vstd::prelude::*;

verus! {

/// The commits of one file, oldest first.
#[derive(Debug, Clone)]
pub struct VersionHistory {
    pub version: u32,
    pub commits: Vec<VersionCommit>,
}

impl VersionHistory {
    /// An empty history, schema version 1.
    pub fn new() -> (h: Self)
        ensures
            h.version == 1,
            h.commits@.len() == 0,
    {
        VersionHistory { version: 1, commits: Vec::new() }
    }
}

/// One commit: its id, time stamp, message, and the file size in bytes.
#[derive(Debug, Clone)]
pub struct VersionCommit {
    pub id: String,
    pub timestamp: String,
    pub message: String,
    pub file_size_bytes: u64,
}

} // verus!
