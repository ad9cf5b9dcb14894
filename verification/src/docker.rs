//! Docker invocation: container configuration, socket discovery and CLI argument helpers.
pub mod config;
pub mod runtime;
pub mod socket;
