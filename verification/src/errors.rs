//! Error taxonomy for the pipeline.
//!
//! `LogError` covers the idempotency log alone; `PodError` covers the
//! whole pipeline. Failures are reported per podcast or per entry and
//! never abort sibling work, so both types are small value enums that
//! a `WorkItem` can carry.

use vstd::prelude::*;

verus! {

/// An error from the idempotency log.
#[derive(Clone, Copy, Debug, PartialEq, Eq, Structural)]
pub enum LogError {
    /// The podcast name was rejected as a partition key.
    UnsafeName,
    /// The underlying store failed (open, read or write).
    StorageFault,
    /// An explicit claim found the episode already present.
    DuplicateClaim,
}

/// An error from the pipeline.
#[derive(Clone, Copy, Debug, PartialEq, Eq, Structural)]
pub enum PodError {
    /// The idempotency log failed, or a directory could not be created.
    StorageFault,
    /// The feed was malformed or an entry lacked a required field.
    FeedFault,
    /// A network transfer failed.
    TransferFault,
    /// The target file could not be created or written.
    FileFault,
    /// The destination exists but is not a directory.
    PathConflict,
    /// A claim lost the race: the episode was already recorded.
    DuplicateClaim,
}

impl PodError {
    /// The pipeline error that a log error maps to.
    pub open spec fn from_log_spec(e: LogError) -> PodError {
        match e {
            LogError::DuplicateClaim => PodError::DuplicateClaim,
            _ => PodError::StorageFault,
        }
    }

    /// Maps a log error into the pipeline taxonomy: a lost claim race
    /// keeps its identity, everything else is a storage fault.
    pub fn from_log(e: LogError) -> (r: PodError)
        ensures
            r == PodError::from_log_spec(e),
    {
        match e {
            LogError::DuplicateClaim => PodError::DuplicateClaim,
            LogError::UnsafeName => PodError::StorageFault,
            LogError::StorageFault => PodError::StorageFault,
        }
    }
}

} // verus!
