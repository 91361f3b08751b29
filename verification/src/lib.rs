//! A segmented-download engine: range-support detection, fragment
//! partitioning, concurrent fetch bookkeeping, and ordered reassembly.
//!
//! The crate holds the decision logic of the downloader: how a resource is
//! split into byte ranges, how header lines and curl-style command lines are
//! parsed, how fragments are recombined, and which step a download job takes
//! next. All I/O (HTTP requests, file reads and writes) is performed by the
//! surrounding application, which drives the job state machine defined in
//! [`downloader`].

pub mod downloader;
pub mod errors;
pub mod headers;
pub mod helpers;
pub mod numbers;
pub mod planner;
pub mod probe;
pub mod reassembler;
