//! Error and result types for download jobs.

use vstd::prelude::*;

verus! {

/// A failure of one download job, tagged by the component that failed.
#[derive(Debug)]
pub enum DownloadError {
    /// A network, DNS, TLS or HTTP-status failure.
    Transport(String),
    /// A file create/write/read/delete failure.
    Filesystem(String),
    /// A concurrent fragment task terminated abnormally.
    Concurrency(String),
    /// A malformed job, e.g. a URL with no extractable file name.
    Input(String),
}

/// The outcome of one download job. A job either wrote the final file,
/// skipped the download because the destination already existed, or failed.
#[derive(Debug)]
pub enum DownloadResult {
    Completed,
    Skipped,
    Failed(DownloadError),
}

impl Clone for DownloadError {
    fn clone(&self) -> (r: Self)
        ensures
            r == *self,
    {
        match self {
            DownloadError::Transport(m) => DownloadError::Transport(m.clone()),
            DownloadError::Filesystem(m) => DownloadError::Filesystem(m.clone()),
            DownloadError::Concurrency(m) => DownloadError::Concurrency(m.clone()),
            DownloadError::Input(m) => DownloadError::Input(m.clone()),
        }
    }
}

impl Clone for DownloadResult {
    fn clone(&self) -> (r: Self)
        ensures
            r == *self,
    {
        match self {
            DownloadResult::Completed => DownloadResult::Completed,
            DownloadResult::Skipped => DownloadResult::Skipped,
            DownloadResult::Failed(e) => DownloadResult::Failed(e.clone()),
        }
    }
}

impl DownloadResult {
    /// Whether the job ended without a failure.
    pub fn is_success(&self) -> (r: bool)
        ensures
            r == !(self matches DownloadResult::Failed(_)),
    {
        match self {
            DownloadResult::Completed => true,
            DownloadResult::Skipped => true,
            DownloadResult::Failed(_) => false,
        }
    }
}

} // verus!
