//! The order of work of a job in runner containers: the network, the services (each started
//! and then awaited healthy), the runner, its logs and exit, the job's result; then, unless the
//! job is paused, removal of the runner, the started services in reverse order and the
//! network, and of the signals directory unless a restart is requested.
use crate::runner::runtime::{job_outcome_spec, JobResult};
use crate::text::{cat, owned, views};
use vstd::prelude::*;

verus! {

/// How far a container job has got: the last operation asked of the host, with the service
/// it concerned.
#[derive(Debug, Clone, Copy, PartialEq, Eq, Structural)]
pub enum JobStage {
    Start,
    CreateNetwork,
    StartService(usize),
    WaitHealthy(usize),
    StartRunner,
    StreamLogs,
    WaitRunner,
    CollectResult,
    CheckPaused,
    RemoveRunner,
    RemoveService(usize),
    RemoveNetwork,
    CheckRestart,
    RemoveSignals,
    Done,
}

/// The state of a container job: its stage, how many services were started, whether the
/// network and the runner were, the job's result once known, and the cleanup errors so far.
#[derive(Debug)]
pub struct ContainerJobState {
    pub stage: JobStage,
    pub started: usize,
    pub network_created: bool,
    pub runner_started: bool,
    pub result: Option<Result<JobResult, String>>,
    pub cleanup: Vec<String>,
}

/// The mathematical form of a container job state.
pub struct JobStateView {
    pub stage: JobStage,
    pub started: usize,
    pub network_created: bool,
    pub runner_started: bool,
    pub result: Option<Result<JobResult, Seq<char>>>,
    pub cleanup: Seq<Seq<char>>,
}

pub open spec fn job_state_view(s: ContainerJobState) -> JobStateView {
    JobStateView {
        stage: s.stage,
        started: s.started,
        network_created: s.network_created,
        runner_started: s.runner_started,
        result: match s.result {
            Some(Ok(j)) => Some(Ok(j)),
            Some(Err(e)) => Some(Err(e@)),
            None => None,
        },
        cleanup: views(s.cleanup@),
    }
}

/// What the host answered to the last operation.
#[derive(Debug)]
pub enum JobOutcome {
    Nothing,
    Unit(Result<(), String>),
    Exit(Result<bool, String>),
    Collected(Result<JobResult, String>),
    Flag(bool),
}

/// The next operation of a container job, or its end with the job's outcome.
#[derive(Debug)]
pub enum JobAction {
    CreateNetwork(String),
    StartService(usize),
    WaitHealthy(usize),
    StartRunner(String),
    StreamLogs,
    WaitRunner,
    CollectResult(bool),
    CheckPaused,
    RemoveRunner,
    RemoveService(usize),
    RemoveNetwork(String),
    CheckRestart,
    RemoveSignals,
    Finish(Result<JobResult, String>),
}

/// The mathematical form of a container job operation.
pub enum JobActionView {
    CreateNetwork(Seq<char>),
    StartService(usize),
    WaitHealthy(usize),
    StartRunner(Seq<char>),
    StreamLogs,
    WaitRunner,
    CollectResult(bool),
    CheckPaused,
    RemoveRunner,
    RemoveService(usize),
    RemoveNetwork(Seq<char>),
    CheckRestart,
    RemoveSignals,
    Finish(Result<JobResult, Seq<char>>),
}

pub open spec fn job_action_view(a: JobAction) -> JobActionView {
    match a {
        JobAction::CreateNetwork(n) => JobActionView::CreateNetwork(n@),
        JobAction::StartService(i) => JobActionView::StartService(i),
        JobAction::WaitHealthy(i) => JobActionView::WaitHealthy(i),
        JobAction::StartRunner(n) => JobActionView::StartRunner(n@),
        JobAction::StreamLogs => JobActionView::StreamLogs,
        JobAction::WaitRunner => JobActionView::WaitRunner,
        JobAction::CollectResult(b) => JobActionView::CollectResult(b),
        JobAction::CheckPaused => JobActionView::CheckPaused,
        JobAction::RemoveRunner => JobActionView::RemoveRunner,
        JobAction::RemoveService(i) => JobActionView::RemoveService(i),
        JobAction::RemoveNetwork(n) => JobActionView::RemoveNetwork(n@),
        JobAction::CheckRestart => JobActionView::CheckRestart,
        JobAction::RemoveSignals => JobActionView::RemoveSignals,
        JobAction::Finish(Ok(j)) => JobActionView::Finish(Ok(j)),
        JobAction::Finish(Err(e)) => JobActionView::Finish(Err(e@)),
    }
}

/// The network of a job's containers.
pub open spec fn network_of(container: Seq<char>) -> Seq<char> {
    "local-ci-"@ + container
}

/// The job's outcome: its result combined with the cleanup errors (a result never recorded
/// counts as a failure).
pub open spec fn job_outcome(s: JobStateView) -> Result<JobResult, Seq<char>> {
    match s.result {
        Some(Ok(j)) => if s.cleanup.len() == 0 {
            Ok(j)
        } else {
            Err(job_outcome_spec(None, s.cleanup)->0)
        },
        Some(Err(e)) => Err(job_outcome_spec(Some(e), s.cleanup)->0),
        None => Err(job_outcome_spec(Some("the job did not run"@), s.cleanup)->0),
    }
}

pub open spec fn at(s: JobStateView, stage: JobStage) -> JobStateView {
    JobStateView { stage, started: s.started, network_created: s.network_created, runner_started: s.runner_started, result: s.result, cleanup: s.cleanup }
}

/// A failure: remember it and ask whether the job is paused.
pub open spec fn job_fail(s: JobStateView, e: Seq<char>) -> (JobStateView, JobActionView) {
    (
        JobStateView { stage: JobStage::CheckPaused, started: s.started, network_created: s.network_created, runner_started: s.runner_started, result: Some(Err(e)), cleanup: s.cleanup },
        JobActionView::CheckPaused,
    )
}

/// The failure an unusable answer stands for.
pub open spec fn job_outcome_failure(o: JobOutcome) -> Seq<char> {
    match o {
        JobOutcome::Unit(Err(e)) => e@,
        JobOutcome::Exit(Err(e)) => e@,
        JobOutcome::Collected(Err(e)) => e@,
        _ => "unexpected answer from the container runtime"@,
    }
}

/// The cleanup errors once a removal was answered.
pub open spec fn with_removal(cleanup: Seq<Seq<char>>, o: JobOutcome) -> Seq<Seq<char>> {
    match o {
        JobOutcome::Unit(Err(e)) => cleanup.push(e@),
        _ => cleanup,
    }
}

/// Removal after the runner: the last started service not yet removed, else the network if
/// it was created, else the restart check.
pub open spec fn removal_from(s: JobStateView, remaining: usize, network: Seq<char>) -> (JobStateView, JobActionView) {
    if remaining > 0 {
        (at(s, JobStage::RemoveService((remaining - 1) as usize)), JobActionView::RemoveService((remaining - 1) as usize))
    } else if s.network_created {
        (at(s, JobStage::RemoveNetwork), JobActionView::RemoveNetwork(network))
    } else {
        (at(s, JobStage::CheckRestart), JobActionView::CheckRestart)
    }
}

/// The first service to start after service `next - 1`, else the runner.
pub open spec fn service_or_runner(s: JobStateView, next: usize, services: usize, network: Seq<char>) -> (JobStateView, JobActionView) {
    if next < services {
        (at(s, JobStage::StartService(next)), JobActionView::StartService(next))
    } else {
        (at(s, JobStage::StartRunner), JobActionView::StartRunner(network))
    }
}

/// The answer that the job is paused (or that a restart is requested).
pub open spec fn paused_answer(o: JobOutcome) -> bool {
    o matches JobOutcome::Flag(true)
}

/// One step of a job in runner containers with `services` services.
pub open spec fn job_step_spec(container: Seq<char>, services: usize, s: JobStateView, o: JobOutcome) -> (JobStateView, JobActionView) {
    let network = network_of(container);
    match s.stage {
        JobStage::Start => (at(s, JobStage::CreateNetwork), JobActionView::CreateNetwork(network)),
        JobStage::CreateNetwork => match o {
            JobOutcome::Unit(Ok(())) => service_or_runner(
                JobStateView { stage: s.stage, started: s.started, network_created: true, runner_started: s.runner_started, result: s.result, cleanup: s.cleanup },
                0, services, network),
            _ => job_fail(s, job_outcome_failure(o)),
        },
        JobStage::StartService(i) => match o {
            JobOutcome::Unit(Ok(())) => (
                JobStateView { stage: JobStage::WaitHealthy(i), started: (i + 1) as usize, network_created: s.network_created, runner_started: s.runner_started, result: s.result, cleanup: s.cleanup },
                JobActionView::WaitHealthy(i),
            ),
            _ => job_fail(s, job_outcome_failure(o)),
        },
        JobStage::WaitHealthy(i) => match o {
            JobOutcome::Unit(Ok(())) => service_or_runner(s, (i + 1) as usize, services, network),
            _ => job_fail(s, job_outcome_failure(o)),
        },
        JobStage::StartRunner => match o {
            JobOutcome::Unit(Ok(())) => (
                JobStateView { stage: JobStage::StreamLogs, started: s.started, network_created: s.network_created, runner_started: true, result: s.result, cleanup: s.cleanup },
                JobActionView::StreamLogs,
            ),
            _ => job_fail(s, job_outcome_failure(o)),
        },
        JobStage::StreamLogs => match o {
            JobOutcome::Unit(Ok(())) => (at(s, JobStage::WaitRunner), JobActionView::WaitRunner),
            _ => job_fail(s, job_outcome_failure(o)),
        },
        JobStage::WaitRunner => match o {
            JobOutcome::Exit(Ok(code_zero)) => (at(s, JobStage::CollectResult), JobActionView::CollectResult(code_zero)),
            _ => job_fail(s, job_outcome_failure(o)),
        },
        JobStage::CollectResult => match o {
            JobOutcome::Collected(Ok(j)) => (
                JobStateView { stage: JobStage::CheckPaused, started: s.started, network_created: s.network_created, runner_started: s.runner_started, result: Some(Ok(j)), cleanup: s.cleanup },
                JobActionView::CheckPaused,
            ),
            _ => job_fail(s, job_outcome_failure(o)),
        },
        JobStage::CheckPaused => if o matches JobOutcome::Flag(true) {
            (finished(s), JobActionView::Finish(job_outcome(s)))
        } else if s.runner_started {
            (at(s, JobStage::RemoveRunner), JobActionView::RemoveRunner)
        } else {
            removal_from(s, s.started, network)
        },
        JobStage::RemoveRunner => removal_from(
            JobStateView { stage: s.stage, started: s.started, network_created: s.network_created, runner_started: s.runner_started, result: s.result, cleanup: with_removal(s.cleanup, o) },
            s.started, network),
        JobStage::RemoveService(k) => removal_from(
            JobStateView { stage: s.stage, started: s.started, network_created: s.network_created, runner_started: s.runner_started, result: s.result, cleanup: with_removal(s.cleanup, o) },
            k, network),
        JobStage::RemoveNetwork => (
            JobStateView { stage: JobStage::CheckRestart, started: s.started, network_created: s.network_created, runner_started: s.runner_started, result: s.result, cleanup: with_removal(s.cleanup, o) },
            JobActionView::CheckRestart,
        ),
        JobStage::CheckRestart => if o matches JobOutcome::Flag(true) {
            (finished(s), JobActionView::Finish(job_outcome(s)))
        } else {
            (at(s, JobStage::RemoveSignals), JobActionView::RemoveSignals)
        },
        JobStage::RemoveSignals => (finished(s), JobActionView::Finish(job_outcome(s))),
        JobStage::Done => (finished(s), JobActionView::Finish(job_outcome(s))),
    }
}

/// The state a container job starts in.
pub fn container_job_start() -> (s: ContainerJobState)
    ensures
        s.stage == JobStage::Start,
        s.started == 0,
        !s.network_created,
        !s.runner_started,
        s.result is None,
        s.cleanup@.len() == 0,
{
    ContainerJobState { stage: JobStage::Start, started: 0, network_created: false, runner_started: false, result: None, cleanup: Vec::new() }
}

fn moved(s: ContainerJobState, stage: JobStage) -> (r: ContainerJobState)
    ensures
        job_state_view(r) == at(job_state_view(s), stage),
{
    ContainerJobState { stage, started: s.started, network_created: s.network_created, runner_started: s.runner_started, result: s.result, cleanup: s.cleanup }
}

fn failed(s: ContainerJobState, o: JobOutcome) -> (r: (ContainerJobState, JobAction))
    ensures
        (job_state_view(r.0), job_action_view(r.1)) == job_fail(job_state_view(s), job_outcome_failure(o)),
{
    let e = match o {
        JobOutcome::Unit(Err(e)) => e,
        JobOutcome::Exit(Err(e)) => e,
        JobOutcome::Collected(Err(e)) => e,
        _ => owned("unexpected answer from the container runtime"),
    };
    (
        ContainerJobState { stage: JobStage::CheckPaused, started: s.started, network_created: s.network_created, runner_started: s.runner_started, result: Some(Err(e)), cleanup: s.cleanup },
        JobAction::CheckPaused,
    )
}

/// The state once the outcome is handed out.
pub open spec fn finished(s: JobStateView) -> JobStateView {
    JobStateView { stage: JobStage::Done, started: s.started, network_created: s.network_created, runner_started: s.runner_started, result: None, cleanup: s.cleanup }
}

fn finish(s: ContainerJobState) -> (r: (ContainerJobState, JobAction))
    ensures
        (job_state_view(r.0), job_action_view(r.1)) == (finished(job_state_view(s)), JobActionView::Finish(job_outcome(job_state_view(s)))),
{
    let ContainerJobState { stage: _, started, network_created, runner_started, result, cleanup } = s;
    let run = match result {
        Some(r) => r,
        None => Err(owned("the job did not run")),
    };
    let outcome = crate::runner::runtime::combine_job_outcome(run, &cleanup);
    (ContainerJobState { stage: JobStage::Done, started, network_created, runner_started, result: None, cleanup }, JobAction::Finish(outcome))
}

fn removal_step(s: ContainerJobState, remaining: usize, network: String) -> (r: (ContainerJobState, JobAction))
    ensures
        (job_state_view(r.0), job_action_view(r.1)) == removal_from(job_state_view(s), remaining, network@),
{
    if remaining > 0 {
        (moved(s, JobStage::RemoveService(remaining - 1)), JobAction::RemoveService(remaining - 1))
    } else if s.network_created {
        (moved(s, JobStage::RemoveNetwork), JobAction::RemoveNetwork(network))
    } else {
        (moved(s, JobStage::CheckRestart), JobAction::CheckRestart)
    }
}

fn service_or_runner_step(s: ContainerJobState, next: usize, services: usize, network: String) -> (r: (ContainerJobState, JobAction))
    ensures
        (job_state_view(r.0), job_action_view(r.1)) == service_or_runner(job_state_view(s), next, services, network@),
{
    if next < services {
        (moved(s, JobStage::StartService(next)), JobAction::StartService(next))
    } else {
        (moved(s, JobStage::StartRunner), JobAction::StartRunner(network))
    }
}

fn push_removal(cleanup: &mut Vec<String>, o: JobOutcome)
    ensures
        views(final(cleanup)@) == with_removal(views(old(cleanup)@), o),
{
    let ghost before = views(cleanup@);
    if let JobOutcome::Unit(Err(e)) = o {
        cleanup.push(e);
    }
    assert(views(cleanup@) =~= with_removal(before, o));
}

/// Decides the next step of a job in runner containers from its state and the host's answer
/// to the last operation.
#[verifier::rlimit(40)]
pub fn container_job_step(container_name: &str, services: usize, state: ContainerJobState, outcome: JobOutcome) -> (r: (ContainerJobState, JobAction))
    requires
        state.stage is WaitHealthy ==> state.stage->WaitHealthy_0 < usize::MAX,
        state.stage is StartService ==> state.stage->StartService_0 < usize::MAX,
    ensures
        (job_state_view(r.0), job_action_view(r.1)) == job_step_spec(container_name@, services, job_state_view(state), outcome),
{
    let network = cat("local-ci-", container_name);
    match state.stage {
        JobStage::Start => (moved(state, JobStage::CreateNetwork), JobAction::CreateNetwork(network)),
        JobStage::CreateNetwork => match outcome {
            JobOutcome::Unit(Ok(())) => {
                let s = ContainerJobState { stage: state.stage, started: state.started, network_created: true, runner_started: state.runner_started, result: state.result, cleanup: state.cleanup };
                service_or_runner_step(s, 0, services, network)
            },
            o => failed(state, o),
        },
        JobStage::StartService(i) => match outcome {
            JobOutcome::Unit(Ok(())) => (
                ContainerJobState { stage: JobStage::WaitHealthy(i), started: i + 1, network_created: state.network_created, runner_started: state.runner_started, result: state.result, cleanup: state.cleanup },
                JobAction::WaitHealthy(i),
            ),
            o => failed(state, o),
        },
        JobStage::WaitHealthy(i) => match outcome {
            JobOutcome::Unit(Ok(())) => service_or_runner_step(state, i + 1, services, network),
            o => failed(state, o),
        },
        JobStage::StartRunner => match outcome {
            JobOutcome::Unit(Ok(())) => (
                ContainerJobState { stage: JobStage::StreamLogs, started: state.started, network_created: state.network_created, runner_started: true, result: state.result, cleanup: state.cleanup },
                JobAction::StreamLogs,
            ),
            o => failed(state, o),
        },
        JobStage::StreamLogs => match outcome {
            JobOutcome::Unit(Ok(())) => (moved(state, JobStage::WaitRunner), JobAction::WaitRunner),
            o => failed(state, o),
        },
        JobStage::WaitRunner => match outcome {
            JobOutcome::Exit(Ok(code_zero)) => (moved(state, JobStage::CollectResult), JobAction::CollectResult(code_zero)),
            o => failed(state, o),
        },
        JobStage::CollectResult => match outcome {
            JobOutcome::Collected(Ok(j)) => (
                ContainerJobState { stage: JobStage::CheckPaused, started: state.started, network_created: state.network_created, runner_started: state.runner_started, result: Some(Ok(j)), cleanup: state.cleanup },
                JobAction::CheckPaused,
            ),
            o => failed(state, o),
        },
        JobStage::CheckPaused => if let JobOutcome::Flag(true) = outcome {
            finish(state)
        } else if state.runner_started {
            (moved(state, JobStage::RemoveRunner), JobAction::RemoveRunner)
        } else {
            let remaining = state.started;
            removal_step(state, remaining, network)
        },
        JobStage::RemoveRunner => {
            let mut cleanup = state.cleanup;
            push_removal(&mut cleanup, outcome);
            let remaining = state.started;
            let s = ContainerJobState { stage: state.stage, started: state.started, network_created: state.network_created, runner_started: state.runner_started, result: state.result, cleanup };
            removal_step(s, remaining, network)
        },
        JobStage::RemoveService(k) => {
            let mut cleanup = state.cleanup;
            push_removal(&mut cleanup, outcome);
            let s = ContainerJobState { stage: state.stage, started: state.started, network_created: state.network_created, runner_started: state.runner_started, result: state.result, cleanup };
            removal_step(s, k, network)
        },
        JobStage::RemoveNetwork => {
            let mut cleanup = state.cleanup;
            push_removal(&mut cleanup, outcome);
            (
                ContainerJobState { stage: JobStage::CheckRestart, started: state.started, network_created: state.network_created, runner_started: state.runner_started, result: state.result, cleanup },
                JobAction::CheckRestart,
            )
        },
        JobStage::CheckRestart => if let JobOutcome::Flag(true) = outcome {
            finish(state)
        } else {
            (moved(state, JobStage::RemoveSignals), JobAction::RemoveSignals)
        },
        JobStage::RemoveSignals => finish(state),
        JobStage::Done => finish(state),
    }
}

/// A container job cleans up after itself: a job that is not paused removes the runner it
/// started, then the services it started from the last to the first, then the network it
/// created, before it finishes; a paused job finishes without removing anything.
pub proof fn lemma_container_job_cleans_up(container: Seq<char>, services: usize, s: JobStateView, o: JobOutcome)
    ensures
        (s.stage == JobStage::CheckPaused && paused_answer(o)) ==> job_step_spec(container, services, s, o).1 is Finish,
        (s.stage == JobStage::CheckPaused && !paused_answer(o) && s.runner_started)
            ==> job_step_spec(container, services, s, o).1 is RemoveRunner,
        ((s.stage == JobStage::RemoveRunner || (s.stage == JobStage::CheckPaused && !paused_answer(o) && !s.runner_started))
            && s.started > 0) ==> job_step_spec(container, services, s, o).1 == JobActionView::RemoveService((s.started - 1) as usize),
        (s.stage is RemoveService && s.stage->RemoveService_0 > 0)
            ==> job_step_spec(container, services, s, o).1 == JobActionView::RemoveService((s.stage->RemoveService_0 - 1) as usize),
        (s.stage is RemoveService && s.stage->RemoveService_0 == 0 && s.network_created)
            ==> job_step_spec(container, services, s, o).1 == JobActionView::RemoveNetwork(network_of(container)),
        job_step_spec(container, services, s, o).1 is Finish ==> (s.stage == JobStage::CheckPaused || s.stage == JobStage::CheckRestart
            || s.stage == JobStage::RemoveSignals || s.stage == JobStage::Done),
{
}

} // verus!
