//! A priority-tiered request worker for read requests against an MVCC
//! key-value engine: key encoding, storage adapter, result shaping for
//! DAG requests, subtask continuation and priority pool admission.

pub mod codec;
pub mod dag;
pub mod datum;
pub mod errors;
pub mod keys;
pub mod perf_context;
pub mod readpool;
pub mod rpn;
pub mod storage;
pub mod storage_impl;
pub mod util;
pub mod worker;
