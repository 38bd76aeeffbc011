//! A verified job-queue core.
//!
//! Producers submit units of work, workers claim pending work exclusively,
//! and workers report success or failure back. The lifecycle state machine,
//! the claim protocol and the input validation live here, fully verified;
//! HTTP plumbing and process bootstrap stay outside.

mod ids;
pub mod job;
pub mod laws;
pub mod lifecycle;
pub mod model;
pub mod store;
pub mod text;
