//! Running planned jobs in runner containers, with pause-on-failure support.
pub mod pause;
pub mod payload;
pub mod plans;
pub mod runtime;
pub mod timeline;
pub mod types;
pub mod job_steps;
