//! Snapshots of a worktree copied into a job workspace.
use vstd::prelude::*;

verus! {

/// What a workspace sync copied, and from where to where.
#[derive(Debug, Clone, PartialEq, Eq)]
pub struct WorkspaceSnapshot {
    pub source: String,
    pub destination: String,
    pub copied_files: Vec<String>,
}

} // verus!
