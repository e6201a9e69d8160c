//! The errors of request handling.

use vstd::prelude::*;
use crate::codec::CodecError;

verus! {

/// Why a request, or one of its steps, failed. Errors that reject a task
/// carry the id of that task.
#[derive(Debug, Clone, PartialEq, Eq)]
pub enum Error {
    /// The scheduler's queue is full.
    SchedulerBusy(u64),
    /// The scheduler is shutting down.
    SchedulerStopped(u64),
    /// The pool for the task's priority holds as many tasks as it admits.
    PoolBusy(u64),
    /// The request's deadline passed between chunks.
    Outdated,
    /// A lock that is not yet resolved covers this key.
    KeyIsLocked(Vec<u8>),
    /// Malformed encoded bytes.
    Codec(CodecError),
    /// A `NOT NULL` column without a default is absent from a row.
    MissingColumn { col_id: i64, handle: i64 },
    /// An error reported by the storage engine.
    Storage(String),
    /// Any other executor error; the DAG handler reports it in band.
    Other(String),
}

} // verus!
