//! Results of runner jobs, pause signals, and the decisions around a job's containers.
use crate::plan::PlannedService;
use crate::runner::types::{DtuRunnerRegistration, JobExecutionPlan};
use crate::strmap::{StrMap, text_map};
use crate::text::{bounded, cat, cat3, join, join_strings, lines, lines_of, owned, parse_u32, trim,
    trim_str, unsigned_literal, usize_to_string, views, decimal};
use vstd::prelude::*;

verus! {

/// A service container of a job.
#[derive(Debug, Clone, PartialEq, Eq)]
pub struct ServiceSpec {
    pub id: String,
    pub image: String,
    pub env: Vec<String>,
    pub ports: StrMap<String>,
    pub options: Option<String>,
    pub health_cmd: Option<String>,
}

/// A service container that was started.
#[derive(Debug, Clone, PartialEq, Eq)]
pub struct StartedService {
    pub id: String,
    pub container_name: String,
}

/// How a container exited.
#[derive(Debug, Clone, PartialEq, Eq)]
pub struct ContainerExit {
    pub code: i32,
}

/// The result of one job.
#[derive(Debug, Clone, PartialEq, Eq)]
pub struct JobResult {
    pub name: String,
    pub workflow: String,
    pub succeeded: bool,
    pub paused: bool,
    pub duration_ms: u64,
    pub failed_step: Option<String>,
    pub debug_log_path: Option<String>,
    pub steps: Vec<StepResult>,
}

/// The result of one step.
#[derive(Debug, Clone, PartialEq, Eq)]
pub struct StepResult {
    pub name: String,
    pub status: StepStatus,
    pub log_path: Option<String>,
}

/// How a step ended.
#[derive(Debug, Clone, Copy, PartialEq, Eq, Structural)]
pub enum StepStatus {
    Passed,
    Failed,
    Skipped,
}

/// What a paused job wrote to its `paused` signal file.
#[derive(Debug, Clone, PartialEq, Eq)]
pub struct PausedSignal {
    pub step: Option<String>,
    pub attempt: Option<u32>,
    pub step_index: Option<u32>,
}

/// A trimmed line read as a `u32`.
pub open spec fn line_number(ls: Seq<Seq<char>>, i: int) -> Option<nat> {
    if i < ls.len() {
        bounded(unsigned_literal(trim(ls[i])), u32::MAX as nat)
    } else {
        None
    }
}

impl PausedSignal {
    /// Reads a signal: the first line is the paused step (when not blank), the second the
    /// attempt and the third the step index (when they are numbers).
    pub fn from_content(content: &str) -> (r: Self)
        ensures
            match r.step {
                Some(s) => lines_of(content@).len() > 0 && trim(lines_of(content@)[0]).len() > 0 && s@ == trim(lines_of(content@)[0]),
                None => lines_of(content@).len() == 0 || trim(lines_of(content@)[0]).len() == 0,
            },
            match r.attempt {
                Some(a) => line_number(lines_of(content@), 1) == Some(a as nat),
                None => line_number(lines_of(content@), 1) is None,
            },
            match r.step_index {
                Some(a) => line_number(lines_of(content@), 2) == Some(a as nat),
                None => line_number(lines_of(content@), 2) is None,
            },
    {
        let ls = lines(content);
        assert(views(ls@) == lines_of(content@));
        let step = if ls.len() > 0 {
            assert(views(ls@)[0] == ls@[0]@);
            let t = trim_str(ls[0].as_str());
            if t.as_str().is_empty() {
                None
            } else {
                Some(t)
            }
        } else {
            None
        };
        let attempt = if ls.len() > 1 {
            assert(views(ls@)[1] == ls@[1]@);
            let t = trim_str(ls[1].as_str());
            parse_u32(t.as_str())
        } else {
            None
        };
        let step_index = if ls.len() > 2 {
            assert(views(ls@)[2] == ls@[2]@);
            let t = trim_str(ls[2].as_str());
            parse_u32(t.as_str())
        } else {
            None
        };
        PausedSignal { step, attempt, step_index }
    }
}

/// The service spec of a planned service.
pub fn service_spec_from(service: &PlannedService) -> (r: ServiceSpec)
    requires
        service.ports.wf(),
    ensures
        r.id@ == service.id@,
        r.image@ == service.image@,
        r.env@ == service.env@,
        r.ports.wf(),
        text_map(r.ports) == text_map(service.ports),
        r.options == service.options,
        r.health_cmd == service.health_cmd,
{
    ServiceSpec {
        id: service.id.clone(),
        image: service.image.clone(),
        env: crate::text::copy_strings(&service.env),
        ports: service.ports.duplicate(),
        options: match &service.options {
            Some(o) => Some(o.clone()),
            None => None,
        },
        health_cmd: match &service.health_cmd {
            Some(h) => Some(h.clone()),
            None => None,
        },
    }
}

/// The caches the DTU server serves virtually: pnpm, npm and yarn.
pub fn default_virtual_cache_patterns() -> (r: Vec<String>)
    ensures
        views(r@) == seq!["pnpm"@, "npm"@, "yarn"@],
{
    let mut v: Vec<String> = Vec::new();
    v.push(owned("pnpm"));
    v.push(owned("npm"));
    v.push(owned("yarn"));
    assert(views(v@) =~= seq!["pnpm"@, "npm"@, "yarn"@]);
    v
}

/// What a job's runner registers with the DTU server: the runner's name, the job's log
/// directory (also where its timeline is kept) and the default virtual caches.
pub fn runner_registration(plan: &JobExecutionPlan) -> (r: DtuRunnerRegistration)
    ensures
        r.runner_name@ == plan.runner_name@,
        r.log_dir@ == plan.log_dir@,
        r.timeline_dir@ == plan.log_dir@,
        views(r.virtual_cache_patterns@) == seq!["pnpm"@, "npm"@, "yarn"@],
{
    DtuRunnerRegistration {
        runner_name: plan.runner_name.clone(),
        log_dir: plan.log_dir.clone(),
        timeline_dir: plan.log_dir.clone(),
        virtual_cache_patterns: default_virtual_cache_patterns(),
    }
}

/// The registration is the one a job's runner makes (see `runner_registration`).
pub open spec fn registers_for(r: DtuRunnerRegistration, plan: JobExecutionPlan) -> bool {
    &&& r.runner_name@ == plan.runner_name@
    &&& r.log_dir@ == plan.log_dir@
    &&& r.timeline_dir@ == plan.log_dir@
    &&& views(r.virtual_cache_patterns@) == seq!["pnpm"@, "npm"@, "yarn"@]
}

/// The seed id of an attempt (see `attempt_seed_id`).
pub open spec fn attempt_id(seed_id: Seq<char>, attempt: nat) -> Seq<char> {
    if attempt > 1 { seed_id + "-retry-"@ + decimal(attempt) } else { seed_id }
}

/// What the host reports to a registered run: it is starting, the attempt's job ran, or
/// whether a restart was requested after it.
#[derive(Debug)]
pub enum RegisteredRunEvent {
    Start,
    Ran,
    Restart(bool),
}

/// What a registered run does next: an attempt (first clearing the restart request that
/// caused it, if any), which registers the runner, seeds the job under the attempt's id and
/// runs it; asking whether a restart was requested; or finishing with the last attempt's result.
#[derive(Debug)]
pub enum RegisteredRunAction {
    Attempt { clear_restart: bool, registration: DtuRunnerRegistration, seed_id: String },
    CheckRestart,
    Finish,
}

/// One step of running a job through a registered runner, from the current attempt number and
/// what the host reported: it starts with attempt 1; after each attempt it asks whether a
/// restart was requested, and a requested restart starts the next attempt under its own seed
/// id; otherwise the run is over.
pub fn registered_run_step(plan: &JobExecutionPlan, seed_id: &str, attempt: u32, event: RegisteredRunEvent)
    -> (r: (u32, RegisteredRunAction))
    requires
        event matches RegisteredRunEvent::Restart(true) ==> attempt < u32::MAX,
    ensures
        event is Start ==> r.0 == 1 && (r.1 matches RegisteredRunAction::Attempt { clear_restart, registration, seed_id: s }
            && !clear_restart && registers_for(registration, *plan) && s@ == seed_id@),
        event is Ran ==> r.0 == attempt && r.1 is CheckRestart,
        event matches RegisteredRunEvent::Restart(true) ==> r.0 == attempt + 1
            && (r.1 matches RegisteredRunAction::Attempt { clear_restart, registration, seed_id: s }
            && clear_restart && registers_for(registration, *plan) && s@ == attempt_id(seed_id@, (attempt + 1) as nat)),
        event matches RegisteredRunEvent::Restart(false) ==> r.0 == attempt && r.1 is Finish,
{
    match event {
        RegisteredRunEvent::Start => {
            let id = attempt_seed_id(seed_id, 1);
            (1, RegisteredRunAction::Attempt { clear_restart: false, registration: runner_registration(plan), seed_id: id })
        },
        RegisteredRunEvent::Ran => (attempt, RegisteredRunAction::CheckRestart),
        RegisteredRunEvent::Restart(true) => {
            let next = attempt + 1;
            let id = attempt_seed_id(seed_id, next);
            (next, RegisteredRunAction::Attempt { clear_restart: true, registration: runner_registration(plan), seed_id: id })
        },
        RegisteredRunEvent::Restart(false) => (attempt, RegisteredRunAction::Finish),
    }
}

/// The network a job's containers share: `local-ci-<container name>`.
pub fn job_network_name(container_name: &str) -> (r: String)
    ensures
        r@ == "local-ci-"@ + container_name@,
{
    cat("local-ci-", container_name)
}

/// The seed id of a retried attempt: the id itself on the first attempt, else
/// `<id>-retry-<attempt>`.
pub fn attempt_seed_id(seed_id: &str, attempt: u32) -> (r: String)
    ensures
        r@ == (if attempt > 1 { seed_id@ + "-retry-"@ + decimal(attempt as nat) } else { seed_id@ }),
{
    if attempt > 1 {
        let n = crate::text::u64_to_string(attempt as u64);
        cat3(seed_id, "-retry-", n.as_str())
    } else {
        owned(seed_id)
    }
}

/// A job's outcome once its containers were cleaned up: cleanup errors turn a success into
/// a cleanup failure and are appended to an earlier error.
pub open spec fn job_outcome_spec(run_error: Option<Seq<char>>, cleanup_errors: Seq<Seq<char>>) -> Option<Seq<char>> {
    match run_error {
        None => if cleanup_errors.len() == 0 {
            None
        } else {
            Some("runner cleanup failed: "@ + join(cleanup_errors, "; "@))
        },
        Some(e) => if cleanup_errors.len() == 0 {
            Some(e)
        } else {
            Some(e + "; cleanup also failed: "@ + join(cleanup_errors, "; "@))
        },
    }
}

/// Combines a job's result with the errors of its cleanup.
pub fn combine_job_outcome(result: Result<JobResult, String>, cleanup_errors: &Vec<String>) -> (r: Result<JobResult, String>)
    ensures
        match r {
            Ok(j) => result is Ok && cleanup_errors@.len() == 0 && result == Ok::<JobResult, String>(j),
            Err(e) => job_outcome_spec(match result {
                Ok(_) => None,
                Err(x) => Some(x@),
            }, views(cleanup_errors@)) == Some(e@),
        },
        r is Ok <==> (result is Ok && cleanup_errors@.len() == 0),
{
    match result {
        Ok(job) => {
            if cleanup_errors.len() == 0 {
                Ok(job)
            } else {
                let joined = join_strings(cleanup_errors, "; ");
                Err(cat("runner cleanup failed: ", joined.as_str()))
            }
        },
        Err(err) => {
            if cleanup_errors.len() == 0 {
                Err(err)
            } else {
                let joined = join_strings(cleanup_errors, "; ");
                Err(cat3(err.as_str(), "; cleanup also failed: ", joined.as_str()))
            }
        },
    }
}

} // verus!
