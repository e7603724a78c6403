//! Verified decision logic of a wrapper around the ddss double dummy solver.
//!
//! The solver itself is a C++ library reached through FFI; what this crate
//! proves is the logic that surrounds those calls: how the process-wide
//! thread pool is configured at most once, how ddss status codes are
//! classified, and how batches of deals and boards are cut into segments
//! that respect ddss's per-call limits.
pub mod batch;
pub mod pool;
pub mod status;

pub use pool::{thread_target, to_request, try_thread_target, PoolConflict, UNINIT};
pub use status::{check, DdsError};
