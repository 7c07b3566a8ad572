//! Concurrent password recovery for password-protected 7z archives.
//!
//! The crate is organised around a small verified core:
//! - [`config`] holds the run configuration and its normalisation rules;
//! - [`archive`] decides questions about archive headers and entry listings;
//! - [`search`] classifies a whole password search run;
//! - [`coordinator`] is the step-by-step state machine that a concurrent
//!   driver follows, with its concurrency and cancellation invariants.

pub mod archive;
pub mod config;
pub mod coordinator;
pub mod search;
