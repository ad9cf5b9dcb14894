//! Running jobs on macOS guests through tart virtual machines.
pub mod command;
pub mod execute;
pub mod host;
pub mod image;
pub mod runner_binary;

pub use crate::plan::HostCapability;
use vstd::prelude::*;

verus! {

/// The image used when no runner label maps to a known macOS image.
pub const DEFAULT_MACOS_IMAGE: &'static str = "ghcr.io/cirruslabs/macos-sequoia-xcode:latest";

/// The actions runner release used on macOS guests by default.
pub const DEFAULT_MACOS_RUNNER_VERSION: &'static str = "2.331.0";

} // verus!
