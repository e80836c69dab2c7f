//! Cross-process named locks: the verified core.
//!
//! A named lock excludes other processes through an OS-level lock on a file
//! and other threads of the same process through a thread latch. This crate
//! holds the decisions: which names are valid, where the lock file lies, how
//! the handles of one process find their shared state, and how an acquire and
//! a release move the latch.
pub mod error;
pub mod lock;
pub mod mutex;
pub mod name;
pub mod registry;

pub use error::Error;
pub use lock::{Claim, ClaimStep, Lock, LockAcquisition, LockGuard, LockState};
pub use mutex::{mutex_name, wait_outcome, WaitFailure, WaitResult};
pub use name::{key_from_name, path_key, validate_name};
pub use registry::{Lookup, Registry, Vacancy};
