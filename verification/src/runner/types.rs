//! What a runner job is planned and seeded with.
use crate::plan::{NeedContext, PlannedJobContainer};
use crate::runner::runtime::ServiceSpec;
use crate::strmap::{StrMap, text_map};
use vstd::prelude::*;

verus! {

/// How one job's runner container is started.
#[derive(Debug, Clone, PartialEq, Eq)]
pub struct JobExecutionPlan {
    pub workflow: String,
    pub job_id: String,
    pub runner_name: String,
    pub container_name: String,
    pub image: String,
    pub env: Vec<String>,
    pub binds: Vec<String>,
    pub extra_hosts: Vec<String>,
    pub command: Vec<String>,
    pub log_dir: String,
    pub signals_dir: String,
    pub services: Vec<ServiceSpec>,
    pub pause_on_failure: bool,
}

/// A runner registered with the DTU server.
#[derive(Debug, Clone, PartialEq, Eq)]
pub struct DtuRunnerRegistration {
    pub runner_name: String,
    pub log_dir: String,
    pub timeline_dir: String,
    pub virtual_cache_patterns: Vec<String>,
}

/// A job as seeded into the DTU server.
#[derive(Debug, Clone, PartialEq, Eq)]
pub struct DtuJobSeed {
    pub id: String,
    pub runner_name: String,
    pub name: String,
    pub workflow_name: String,
    pub repo_root: String,
    pub github_repo: String,
    pub head_sha: String,
    pub real_head_sha: String,
    pub runner_work_dir: Option<String>,
    pub runner_os: Option<String>,
    pub runner_arch: Option<String>,
    pub env: StrMap<String>,
    pub outputs: StrMap<String>,
    pub needs_context: StrMap<NeedContext>,
    pub container: Option<DtuJobContainer>,
    pub services: Vec<ServiceSpec>,
    pub matrix_context: Option<StrMap<String>>,
    pub steps: Vec<DtuJobStep>,
}

/// A job container as seeded into the DTU server.
#[derive(Debug, Clone, PartialEq, Eq)]
pub struct DtuJobContainer {
    pub image: String,
    pub env: StrMap<String>,
    pub ports: Vec<String>,
    pub volumes: Vec<String>,
    pub options: Option<String>,
}

/// One step of a job as handed to the DTU server.
#[derive(Debug, Clone, PartialEq, Eq)]
pub struct DtuJobStep {
    pub name: String,
    pub context_name: Option<String>,
    pub run: Option<String>,
    pub uses: Option<String>,
    pub condition: Option<String>,
    pub shell: Option<String>,
    pub working_directory: Option<String>,
    pub env: StrMap<String>,
    pub with: StrMap<String>,
}

/// The seeded form of a planned job container.
pub fn dtu_job_container_from(container: &PlannedJobContainer) -> (r: DtuJobContainer)
    requires
        container.env.wf(),
    ensures
        r.image@ == container.image@,
        r.env.wf(),
        text_map(r.env) == text_map(container.env),
        r.ports@ == container.ports@,
        r.volumes@ == container.volumes@,
        r.options == container.options,
{
    DtuJobContainer {
        image: container.image.clone(),
        env: container.env.duplicate(),
        ports: crate::text::copy_strings(&container.ports),
        volumes: crate::text::copy_strings(&container.volumes),
        options: match &container.options {
            Some(o) => Some(o.clone()),
            None => None,
        },
    }
}

} // verus!
