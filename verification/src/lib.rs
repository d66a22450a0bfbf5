//! Verified core of a personal job-application tracker.
//!
//! The library owns the domain model (jobs, notes, status lifecycle) and a
//! store that enforces the domain invariants: unique monotonically assigned
//! ids, existence checks before writes, cascade deletion of a job's notes,
//! and newest-first listing. Command-line parsing, the durable storage
//! backend and all other I/O live outside the library and talk to it in
//! plain values.

pub mod laws;
pub mod model;
pub mod store;
