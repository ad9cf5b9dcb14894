//! Run plans: planned jobs, the waves they are scheduled in, and how the results of needed
//! jobs (matrix legs included) decide what runs next.
use crate::expr::{ExpressionContext, RunnerContext, nested_text_map, nested_wf, truthy};
use crate::expr::eval::{all_success, any_failure, bool_text, evaluate_job_if, expr_value, job_if_context_ok, query_view, EvalFacts, EvalQuery, QueryView};
use crate::strmap::{StrMap, StrSet, seq_lt, lemma_seq_lt_trichotomy, lemma_seq_lt_transitive, sorted_keys, sorted_seq_of, lemma_sorted_seq_of, text_map,
    lemma_text_map_insert};
use crate::text::{cat, cat3, chars_of, contains, contains_seq, copy_strings, find_chars, first_index_of,
    first_occurrence, from_chars, is_prefix, is_suffix, join, join_strings, lemma_first_occurrence_exists, lemma_first_occurrence_unique,
    lines, lines_of, owned, slice_string, slice_vec, split_char, split_on_char, split_once_char,
    split_once_str, str_eq, strip_prefix, strip_suffix, trim, trim_str, views};
use crate::workflow::RunsOn;
use vstd::prelude::*;

pub mod document;

pub use document::{
    effective_run_default, mapping_value, merged_job_env, plan_workflow_document, planned_container,
    planned_job_target, planned_services, planned_step_name, planned_steps, run_default_from_value,
    try_plan_workflow_document,
};

verus! {

/// A planned run over one or more workflows.
#[derive(Debug, Clone, PartialEq, Eq)]
pub struct RunPlan {
    pub repo_root: String,
    pub effective_sha: EffectiveSha,
    pub selection: RunSelection,
    pub workflows: Vec<WorkflowRunPlan>,
    pub pause_on_failure: bool,
    pub no_matrix: bool,
    pub max_jobs: Option<u32>,
}

/// Which workflows a run covers.
#[derive(Debug, Clone, PartialEq, Eq)]
pub enum RunSelection {
    SingleWorkflow,
    AllRelevant { branch: String, changed_files: Vec<String>, skipped: Vec<SkippedWorkflow> },
}

/// A workflow left out of a run, and why.
#[derive(Debug, Clone, PartialEq, Eq)]
pub struct SkippedWorkflow {
    pub path: String,
    pub reason: String,
}

/// The plan of one workflow: its jobs and the waves they run in.
#[derive(Debug, Clone, PartialEq, Eq)]
pub struct WorkflowRunPlan {
    pub workflow_path: String,
    pub diagnostics: Vec<String>,
    pub jobs: Vec<PlannedJob>,
    pub schedule: Vec<Vec<String>>,
}

/// One job (or matrix leg) ready to run.
#[derive(Debug, Clone, PartialEq, Eq)]
pub struct PlannedJob {
    pub id: String,
    pub source_job_id: String,
    pub display_name: String,
    pub runner_name: String,
    pub target: PlannedJobTarget,
    pub needs: Vec<String>,
    pub if_condition: Option<String>,
    pub env: StrMap<String>,
    pub inputs: StrMap<String>,
    pub outputs: StrMap<String>,
    pub workflow_call_output_defs: StrMap<String>,
    pub caller_job_id: Option<String>,
    pub services: Vec<PlannedService>,
    pub container: Option<PlannedJobContainer>,
    pub steps: Vec<PlannedStep>,
    pub step_count: usize,
    pub matrix_context: Option<StrMap<String>>,
}

/// One step of a planned job.
#[derive(Debug, Clone, PartialEq, Eq)]
pub struct PlannedStep {
    pub id: Option<String>,
    pub name: String,
    pub index: usize,
    pub run: Option<String>,
    pub uses: Option<String>,
    pub if_condition: Option<String>,
    pub shell: Option<String>,
    pub working_directory: Option<String>,
    pub env: StrMap<String>,
    pub with: StrMap<String>,
}

/// A service container of a planned job.
#[derive(Debug, Clone, PartialEq, Eq)]
pub struct PlannedService {
    pub id: String,
    pub image: String,
    pub env: Vec<String>,
    pub ports: StrMap<String>,
    pub options: Option<String>,
    pub health_cmd: Option<String>,
}

/// The job container of a planned job.
#[derive(Debug, Clone, PartialEq, Eq)]
pub struct PlannedJobContainer {
    pub image: String,
    pub env: StrMap<String>,
    pub ports: Vec<String>,
    pub volumes: Vec<String>,
    pub options: Option<String>,
}

/// Where a planned job runs.
#[derive(Debug, Clone, PartialEq, Eq)]
pub enum PlannedJobTarget {
    Linux { runs_on: String },
    MacOs { runs_on: String },
    ReusableWorkflow { uses: String },
    Unknown,
}

/// How a job ended.
#[derive(Debug, Clone, Copy, PartialEq, Eq, Structural)]
pub enum JobResultStatus {
    Success,
    Failure,
    Skipped,
    Cancelled,
}

/// The word GitHub uses for a job result.
pub open spec fn github_result(s: JobResultStatus) -> Seq<char> {
    match s {
        JobResultStatus::Success => "success"@,
        JobResultStatus::Failure => "failure"@,
        JobResultStatus::Skipped => "skipped"@,
        JobResultStatus::Cancelled => "cancelled"@,
    }
}

impl JobResultStatus {
    /// The result as `needs.<job>.result` reports it.
    pub fn as_github_result(self) -> (r: &'static str)
        ensures
            r@ == github_result(self),
    {
        match self {
            JobResultStatus::Success => "success",
            JobResultStatus::Failure => "failure",
            JobResultStatus::Skipped => "skipped",
            JobResultStatus::Cancelled => "cancelled",
        }
    }
}

/// Whether a job runs.
#[derive(Debug, Clone, PartialEq, Eq)]
pub enum JobRunDecision {
    Run,
    Skip { reason: String },
}

/// Where a job is executed, or why it is skipped.
#[derive(Debug, Clone, PartialEq, Eq)]
pub enum JobExecutionRoute {
    Linux,
    MacOs,
    Skip { reason: String },
}

/// Whether this host can run macOS jobs.
#[derive(Debug, Clone, PartialEq, Eq)]
pub enum HostCapability {
    Supported,
    Unsupported { reason: String, hint: Option<String> },
}

/// The commit a run reports as its SHA.
#[derive(Debug, Clone, PartialEq, Eq)]
pub struct EffectiveSha {
    pub head_sha: String,
    pub sha_ref: Option<String>,
    pub source: EffectiveShaSource,
}

/// Where the effective SHA came from.
#[derive(Debug, Clone, Copy, PartialEq, Eq, Structural)]
pub enum EffectiveShaSource {
    Explicit,
    DirtyTree,
    Head,
}

/// What `needs.<job>` holds for a job that ran.
#[derive(Debug, Clone, PartialEq, Eq)]
pub struct NeedContext {
    pub result: String,
    pub outputs: StrMap<String>,
}

// ---------------------------------------------------------------------------
// Targets and routes
// ---------------------------------------------------------------------------

/// `runs-on` as one string: a label, the labels joined by ", ", or the raw value.
pub open spec fn runs_on_text(r: RunsOn) -> Seq<char> {
    match r {
        RunsOn::Single(v) => v@,
        RunsOn::Labels(vs) => join(views(vs@), ", "@),
        RunsOn::Other(v) => v@,
    }
}

/// The `runs-on` value as text.
pub fn format_runs_on(runs_on: &RunsOn) -> (r: String)
    ensures
        r@ == runs_on_text(*runs_on),
{
    match runs_on {
        RunsOn::Single(v) => v.clone(),
        RunsOn::Labels(vs) => join_strings(vs, ", "),
        RunsOn::Other(v) => v.clone(),
    }
}

/// The route of a job: Linux and supported macOS targets run; an unsupported macOS host,
/// a reusable-workflow call and an unknown target are skipped with a reason.
pub open spec fn route_spec(target: PlannedJobTarget, cap: HostCapability) -> Option<Seq<char>> {
    match target {
        PlannedJobTarget::Linux { .. } => None,
        PlannedJobTarget::MacOs { runs_on } => match cap {
            HostCapability::Supported => None,
            HostCapability::Unsupported { reason, hint } => Some(match hint {
                Some(h) => runs_on@ + ": "@ + reason@ + " "@ + h@,
                None => runs_on@ + ": "@ + reason@,
            }),
        },
        PlannedJobTarget::ReusableWorkflow { uses } => Some(
            "reusable workflow job '"@ + uses@ + "' is expanded before execution"@,
        ),
        PlannedJobTarget::Unknown => Some("unknown or unsupported runner target"@),
    }
}

/// Where a planned job is executed on a host with the given macOS capability.
pub fn execution_route_for_job(job: &PlannedJob, macos_capability: &HostCapability) -> (r: JobExecutionRoute)
    ensures
        match r {
            JobExecutionRoute::Linux => job.target is Linux,
            JobExecutionRoute::MacOs => job.target is MacOs && *macos_capability is Supported,
            JobExecutionRoute::Skip { reason } => route_spec(job.target, *macos_capability) == Some(reason@),
        },
        (r is Skip) <==> route_spec(job.target, *macos_capability) is Some,
{
    match &job.target {
        PlannedJobTarget::Linux { .. } => JobExecutionRoute::Linux,
        PlannedJobTarget::MacOs { runs_on } => match macos_capability {
            HostCapability::Supported => JobExecutionRoute::MacOs,
            HostCapability::Unsupported { reason, hint } => {
                let mut text = cat3(runs_on.as_str(), ": ", reason.as_str());
                match hint {
                    Some(h) => {
                        text.append(" ");
                        text.append(h.as_str());
                    },
                    None => {},
                }
                JobExecutionRoute::Skip { reason: text }
            },
        },
        PlannedJobTarget::ReusableWorkflow { uses } => JobExecutionRoute::Skip {
            reason: cat3("reusable workflow job '", uses.as_str(), "' is expanded before execution"),
        },
        PlannedJobTarget::Unknown => JobExecutionRoute::Skip { reason: owned("unknown or unsupported runner target") },
    }
}

// ---------------------------------------------------------------------------
// Matrix results
// ---------------------------------------------------------------------------

/// The result of a logical job from its legs: no legs is skipped; otherwise any failure wins,
/// then any cancellation, then any skip; only all-success is success.
pub open spec fn aggregate_spec(legs: Seq<JobResultStatus>) -> JobResultStatus {
    if legs.len() == 0 {
        JobResultStatus::Skipped
    } else if legs.contains(JobResultStatus::Failure) {
        JobResultStatus::Failure
    } else if legs.contains(JobResultStatus::Cancelled) {
        JobResultStatus::Cancelled
    } else if legs.contains(JobResultStatus::Skipped) {
        JobResultStatus::Skipped
    } else {
        JobResultStatus::Success
    }
}

fn legs_contain(legs: &[JobResultStatus], s: JobResultStatus) -> (r: bool)
    ensures
        r == legs@.contains(s),
{
    let mut i: usize = 0;
    while i < legs.len()
        invariant
            i <= legs@.len(),
            forall|j: int| 0 <= j < i ==> legs@[j] != s,
        decreases legs@.len() - i,
    {
        if legs[i] == s {
            assert(legs@[i as int] == s);
            return true;
        }
        i += 1;
    }
    false
}

/// The combined result of a matrix job's legs.
pub fn aggregate_matrix_status(legs: &[JobResultStatus]) -> (r: JobResultStatus)
    ensures
        r == aggregate_spec(legs@),
{
    if legs.len() == 0 {
        return JobResultStatus::Skipped;
    }
    if legs_contain(legs, JobResultStatus::Failure) {
        return JobResultStatus::Failure;
    }
    if legs_contain(legs, JobResultStatus::Cancelled) {
        return JobResultStatus::Cancelled;
    }
    if legs_contain(legs, JobResultStatus::Skipped) {
        return JobResultStatus::Skipped;
    }
    JobResultStatus::Success
}

/// The result a logical job reports is one of its legs' results, it is success only when every
/// leg succeeded, and it does not depend on the order in which the legs are listed.
pub proof fn lemma_aggregate_laws(legs: Seq<JobResultStatus>, other: Seq<JobResultStatus>)
    requires
        legs.to_multiset() == other.to_multiset(),
    ensures
        legs.len() > 0 ==> legs.contains(aggregate_spec(legs)),
        (aggregate_spec(legs) == JobResultStatus::Success) <==> (legs.len() > 0 && forall|i: int|
            0 <= i < legs.len() ==> legs[i] == JobResultStatus::Success),
        aggregate_spec(legs) == aggregate_spec(other),
{
    legs.to_multiset_ensures();
    other.to_multiset_ensures();
    assert forall|s: JobResultStatus| legs.contains(s) <==> other.contains(s) by {
        assert(legs.to_multiset().count(s) == other.to_multiset().count(s));
        assert(legs.contains(s) <==> legs.to_multiset().count(s) > 0);
        assert(other.contains(s) <==> other.to_multiset().count(s) > 0);
    }
    assert(legs.len() == legs.to_multiset().len());
    assert(other.len() == other.to_multiset().len());
    if legs.len() > 0 && !legs.contains(JobResultStatus::Failure) && !legs.contains(JobResultStatus::Cancelled)
        && !legs.contains(JobResultStatus::Skipped) {
        assert forall|i: int| 0 <= i < legs.len() implies legs[i] == JobResultStatus::Success by {
            if legs[i] != JobResultStatus::Success {
                assert(legs.contains(legs[i]));
            }
        }
        assert(legs.contains(legs[0]));
    }
    if legs.len() > 0 && forall|i: int| 0 <= i < legs.len() ==> legs[i] == JobResultStatus::Success {
        assert(!legs.contains(JobResultStatus::Failure));
        assert(!legs.contains(JobResultStatus::Cancelled));
        assert(!legs.contains(JobResultStatus::Skipped));
    }
}

// ---------------------------------------------------------------------------
// Schedule keys
// ---------------------------------------------------------------------------

/// A job's key in the schedule and in the results: the runner name for a matrix leg, else the
/// job id.
pub open spec fn key_of(j: PlannedJob) -> Seq<char> {
    if j.matrix_context is Some {
        j.runner_name@
    } else {
        j.id@
    }
}

/// The schedule key of a planned job.
pub fn schedule_key(job: &PlannedJob) -> (r: String)
    ensures
        r@ == key_of(*job),
{
    if job.matrix_context.is_some() {
        job.runner_name.clone()
    } else {
        job.id.clone()
    }
}

/// The schedule keys of the jobs with id `id`, in job order.
pub open spec fn keys_for_id(jobs: Seq<PlannedJob>, id: Seq<char>) -> Seq<Seq<char>>
    decreases jobs.len(),
{
    if jobs.len() == 0 {
        Seq::empty()
    } else if jobs.last().id@ == id {
        keys_for_id(jobs.drop_last(), id).push(key_of(jobs.last()))
    } else {
        keys_for_id(jobs.drop_last(), id)
    }
}

/// The result recorded under a key, or skipped when none was.
pub open spec fn recorded(results: StrMap<JobResultStatus>, key: Seq<char>) -> JobResultStatus {
    match results.lookup(key) {
        Some(s) => s,
        None => JobResultStatus::Skipped,
    }
}

/// The results of the legs of job `need`, in job order.
pub open spec fn leg_results(jobs: Seq<PlannedJob>, need: Seq<char>, results: StrMap<JobResultStatus>) -> Seq<JobResultStatus> {
    keys_for_id(jobs, need).map_values(|k: Seq<char>| recorded(results, k))
}

/// The result of a needed job: aggregated over its legs when `all_jobs` has any, else what is
/// recorded under its own id.
pub open spec fn need_result_spec(need: Seq<char>, jobs: Seq<PlannedJob>, results: StrMap<JobResultStatus>) -> JobResultStatus {
    let legs = leg_results(jobs, need, results);
    if legs.len() == 0 {
        recorded(results, need)
    } else {
        aggregate_spec(legs)
    }
}

/// The recorded result, or skipped.
fn recorded_result(results: &StrMap<JobResultStatus>, key: &str) -> (r: JobResultStatus)
    requires
        results.wf(),
    ensures
        r == recorded(*results, key@),
{
    match results.get(key) {
        Some(s) => *s,
        None => JobResultStatus::Skipped,
    }
}

/// The keys of the jobs with the given id.
fn keys_with_id(id: &str, all_jobs: &Vec<PlannedJob>) -> (r: Vec<String>)
    ensures
        views(r@) == keys_for_id(all_jobs@, id@),
{
    let mut r: Vec<String> = Vec::new();
    let mut i: usize = 0;
    while i < all_jobs.len()
        invariant
            i <= all_jobs.len(),
            views(r@) == keys_for_id(all_jobs@.take(i as int), id@),
        decreases all_jobs.len() - i,
    {
        proof {
            assert(all_jobs@.take(i + 1).drop_last() =~= all_jobs@.take(i as int));
            assert(all_jobs@.take(i + 1).last() == all_jobs@[i as int]);
        }
        if str_eq(all_jobs[i].id.as_str(), id) {
            let k = schedule_key(&all_jobs[i]);
            proof {
                assert(views(r@.push(k)) =~= views(r@).push(k@));
            }
            r.push(k);
        }
        i += 1;
    }
    assert(all_jobs@.take(all_jobs.len() as int) =~= all_jobs@);
    r
}

/// The result of a needed job, its matrix legs aggregated.
pub fn aggregate_need_result(need: &str, all_jobs: &Vec<PlannedJob>, completed_results: &StrMap<JobResultStatus>) -> (r: JobResultStatus)
    requires
        completed_results.wf(),
    ensures
        r == need_result_spec(need@, all_jobs@, *completed_results),
{
    let keys = keys_with_id(need, all_jobs);
    let ghost ks = views(keys@);
    let mut legs: Vec<JobResultStatus> = Vec::new();
    let mut i: usize = 0;
    while i < keys.len()
        invariant
            completed_results.wf(),
            i <= keys.len(),
            ks == views(keys@),
            legs@ == ks.take(i as int).map_values(|k: Seq<char>| recorded(*completed_results, k)),
        decreases keys.len() - i,
    {
        let s = recorded_result(completed_results, keys[i].as_str());
        legs.push(s);
        i += 1;
        assert(legs@ =~= ks.take(i as int).map_values(|k: Seq<char>| recorded(*completed_results, k)));
    }
    assert(ks.take(keys.len() as int) =~= ks);
    if legs.len() == 0 {
        recorded_result(completed_results, need)
    } else {
        aggregate_matrix_status(legs.as_slice())
    }
}

/// The maps of strings in a map are all well formed, and every value's result map is too.
pub open spec fn status_map(m: StrMap<JobResultStatus>) -> Map<Seq<char>, JobResultStatus> {
    Map::new(|k: Seq<char>| m.lookup(k) is Some, |k: Seq<char>| m.lookup(k)->0)
}

/// The needs of a job, each with its aggregated result.
pub fn aggregated_needs_results(job: &PlannedJob, all_jobs: &Vec<PlannedJob>, completed_results: &StrMap<JobResultStatus>) -> (r: StrMap<JobResultStatus>)
    requires
        completed_results.wf(),
    ensures
        r.wf(),
        forall|k: Seq<char>| #[trigger] status_map(r).contains_key(k) <==> views(job.needs@).contains(k),
        forall|k: Seq<char>| #[trigger] status_map(r).contains_key(k) ==> status_map(r)[k] == need_result_spec(k, all_jobs@, *completed_results),
{
    let mut r: StrMap<JobResultStatus> = StrMap::new();
    let mut i: usize = 0;
    while i < job.needs.len()
        invariant
            completed_results.wf(),
            r.wf(),
            i <= job.needs.len(),
            forall|k: Seq<char>| #[trigger] status_map(r).contains_key(k) <==> views(job.needs@).take(i as int).contains(k),
            forall|k: Seq<char>| #[trigger] status_map(r).contains_key(k) ==> status_map(r)[k] == need_result_spec(k, all_jobs@, *completed_results),
        decreases job.needs.len() - i,
    {
        let need = &job.needs[i];
        let s = aggregate_need_result(need.as_str(), all_jobs, completed_results);
        let ghost before = r;
        r.insert(need.clone(), s);
        proof {
            let ns0 = views(job.needs@).take(i as int);
            let ns = views(job.needs@).take(i + 1);
            assert(ns =~= ns0.push(need@));
            assert forall|k: Seq<char>| #[trigger] status_map(r).contains_key(k) <==> ns.contains(k) by {
                if k == need@ {
                    assert(ns[i as int] == need@);
                } else {
                    assert(r.lookup(k) == before.lookup(k));
                    assert(status_map(r).contains_key(k) == status_map(before).contains_key(k));
                    if ns.contains(k) {
                        let j = choose|j: int| 0 <= j < ns.len() && #[trigger] ns[j] == k;
                        assert(ns0[j] == k);
                    }
                    if ns0.contains(k) {
                        let j = choose|j: int| 0 <= j < ns0.len() && #[trigger] ns0[j] == k;
                        assert(ns[j] == k);
                    }
                }
            }
            assert forall|k: Seq<char>| #[trigger] status_map(r).contains_key(k) implies status_map(r)[k] == need_result_spec(k, all_jobs@, *completed_results) by {
                if k != need@ {
                    assert(r.lookup(k) == before.lookup(k));
                    assert(status_map(before).contains_key(k));
                    assert(status_map(r)[k] == status_map(before)[k]);
                } else {
                    assert(r.lookup(k) == Some(s));
                }
            }
        }
        i += 1;
    }
    assert(views(job.needs@).take(job.needs.len() as int) =~= views(job.needs@));
    r
}

} // verus!

verus! {

// ---------------------------------------------------------------------------
// Waves
// ---------------------------------------------------------------------------

/// The dependencies that one need stands for: the schedule keys of the jobs with that id, or
/// the need itself when no job has it.
pub open spec fn need_keys(jobs: Seq<PlannedJob>, need: Seq<char>) -> Seq<Seq<char>> {
    let ks = keys_for_id(jobs, need);
    if ks.len() > 0 {
        ks
    } else {
        seq![need]
    }
}

/// The dependencies of a list of needs, in order.
pub open spec fn dep_keys(jobs: Seq<PlannedJob>, needs: Seq<Seq<char>>) -> Seq<Seq<char>>
    decreases needs.len(),
{
    if needs.len() == 0 {
        Seq::empty()
    } else {
        dep_keys(jobs, needs.drop_last()) + need_keys(jobs, needs.last())
    }
}

/// Each schedule key of the first `n` jobs with the dependencies of the last job that has it.
pub open spec fn dep_map(jobs: Seq<PlannedJob>, n: int) -> Map<Seq<char>, Seq<Seq<char>>>
    decreases n,
{
    if n <= 0 {
        Map::empty()
    } else {
        dep_map(jobs, n - 1).insert(key_of(jobs[n - 1]), dep_keys(jobs, views(jobs[n - 1].needs@)))
    }
}

/// The dependency map of a job list.
pub open spec fn job_deps(jobs: Seq<PlannedJob>) -> Map<Seq<char>, Seq<Seq<char>>> {
    dep_map(jobs, jobs.len() as int)
}

/// Every dependency of `k` is done.
pub open spec fn is_ready(d: Map<Seq<char>, Seq<Seq<char>>>, k: Seq<char>, done: Set<Seq<char>>) -> bool {
    forall|i: int| 0 <= i < d[k].len() ==> done.contains(#[trigger] d[k][i])
}

/// The keys of `rem` that are ready, in order.
pub open spec fn ready_keys(d: Map<Seq<char>, Seq<Seq<char>>>, rem: Seq<Seq<char>>, done: Set<Seq<char>>) -> Seq<Seq<char>>
    decreases rem.len(),
{
    if rem.len() == 0 {
        rem
    } else if is_ready(d, rem.last(), done) {
        ready_keys(d, rem.drop_last(), done).push(rem.last())
    } else {
        ready_keys(d, rem.drop_last(), done)
    }
}

/// The keys of `rem` that are not ready, in order.
pub open spec fn blocked_keys(d: Map<Seq<char>, Seq<Seq<char>>>, rem: Seq<Seq<char>>, done: Set<Seq<char>>) -> Seq<Seq<char>>
    decreases rem.len(),
{
    if rem.len() == 0 {
        rem
    } else if is_ready(d, rem.last(), done) {
        blocked_keys(d, rem.drop_last(), done)
    } else {
        blocked_keys(d, rem.drop_last(), done).push(rem.last())
    }
}

/// The ready and the blocked keys split `rem`.
pub proof fn lemma_partition(d: Map<Seq<char>, Seq<Seq<char>>>, rem: Seq<Seq<char>>, done: Set<Seq<char>>)
    ensures
        ready_keys(d, rem, done).len() + blocked_keys(d, rem, done).len() == rem.len(),
        forall|x: Seq<char>| #[trigger] ready_keys(d, rem, done).contains(x) <==> rem.contains(x) && is_ready(d, x, done),
        forall|x: Seq<char>| #[trigger] blocked_keys(d, rem, done).contains(x) <==> rem.contains(x) && !is_ready(d, x, done),
    decreases rem.len(),
{
    if rem.len() > 0 {
        let p = rem.drop_last();
        lemma_partition(d, p, done);
        assert forall|x: Seq<char>| rem.contains(x) <==> p.contains(x) || x == rem.last() by {
            if rem.contains(x) {
                let j = choose|j: int| 0 <= j < rem.len() && rem[j] == x;
                if j < rem.len() - 1 {
                    assert(p[j] == x);
                }
            }
            if p.contains(x) {
                let j = choose|j: int| 0 <= j < p.len() && p[j] == x;
                assert(rem[j] == x);
            }
            if x == rem.last() {
                assert(rem[rem.len() - 1] == x);
            }
        }
        let r0 = ready_keys(d, p, done);
        let b0 = blocked_keys(d, p, done);
        assert forall|x: Seq<char>| r0.push(rem.last()).contains(x) <==> r0.contains(x) || x == rem.last() by {
            if r0.push(rem.last()).contains(x) {
                let j = choose|j: int| 0 <= j < r0.len() + 1 && r0.push(rem.last())[j] == x;
                if j < r0.len() {
                    assert(r0[j] == x);
                }
            }
            if r0.contains(x) {
                let j = choose|j: int| 0 <= j < r0.len() && r0[j] == x;
                assert(r0.push(rem.last())[j] == x);
            }
            if x == rem.last() {
                assert(r0.push(rem.last())[r0.len() as int] == x);
            }
        }
        assert forall|x: Seq<char>| b0.push(rem.last()).contains(x) <==> b0.contains(x) || x == rem.last() by {
            if b0.push(rem.last()).contains(x) {
                let j = choose|j: int| 0 <= j < b0.len() + 1 && b0.push(rem.last())[j] == x;
                if j < b0.len() {
                    assert(b0[j] == x);
                }
            }
            if b0.contains(x) {
                let j = choose|j: int| 0 <= j < b0.len() && b0[j] == x;
                assert(b0.push(rem.last())[j] == x);
            }
            if x == rem.last() {
                assert(b0.push(rem.last())[b0.len() as int] == x);
            }
        }
        assert forall|x: Seq<char>| #[trigger] ready_keys(d, rem, done).contains(x) <==> rem.contains(x) && is_ready(d, x, done) by {
            assert(r0.contains(x) <==> p.contains(x) && is_ready(d, x, done));
            assert(rem.contains(x) <==> p.contains(x) || x == rem.last());
        }
        assert forall|x: Seq<char>| #[trigger] blocked_keys(d, rem, done).contains(x) <==> rem.contains(x) && !is_ready(d, x, done) by {
            assert(b0.contains(x) <==> p.contains(x) && !is_ready(d, x, done));
            assert(rem.contains(x) <==> p.contains(x) || x == rem.last());
        }
    }
}

/// The waves that remain: each wave is every remaining key whose dependencies are all done,
/// in order; when keys remain and none is ready, the dependencies are cyclic (or name no job).
pub open spec fn waves_from(d: Map<Seq<char>, Seq<Seq<char>>>, rem: Seq<Seq<char>>, done: Set<Seq<char>>) -> Result<Seq<Seq<Seq<char>>>, Seq<char>>
    decreases rem.len(),
{
    if rem.len() == 0 {
        Ok(Seq::empty())
    } else {
        let w = ready_keys(d, rem, done);
        if w.len() == 0 {
            Err("cyclic job dependencies: "@ + join(rem, ", "@))
        } else {
            proof {
                lemma_partition(d, rem, done);
            }
            match waves_from(d, blocked_keys(d, rem, done), done.union(w.to_set())) {
                Ok(ws) => Ok(seq![w] + ws),
                Err(e) => Err(e),
            }
        }
    }
}

/// The schedule of a job list: its schedule keys in ascending order, released wave by wave.
pub open spec fn schedule_spec(jobs: Seq<PlannedJob>) -> Result<Seq<Seq<Seq<char>>>, Seq<char>> {
    let d = job_deps(jobs);
    waves_from(d, sorted_seq_of(d.dom()), Set::empty())
}

/// A map from keys to lists of strings, as a map to sequences of texts.
pub open spec fn deps_view(m: StrMap<Vec<String>>) -> Map<Seq<char>, Seq<Seq<char>>> {
    Map::new(|k: Seq<char>| m.lookup(k) is Some, |k: Seq<char>| views(m.lookup(k)->0@))
}

proof fn lemma_deps_view_insert(before: StrMap<Vec<String>>, after: StrMap<Vec<String>>, k: Seq<char>, v: Vec<String>)
    requires
        after.lookup(k) == Some(v),
        forall|q: Seq<char>| q != k ==> #[trigger] after.lookup(q) == before.lookup(q),
    ensures
        deps_view(after) == deps_view(before).insert(k, views(v@)),
{
    assert forall|q: Seq<char>| #[trigger] deps_view(after).contains_key(q) == deps_view(before).insert(k, views(v@)).contains_key(q) by {
        if q != k {
            assert(after.lookup(q) == before.lookup(q));
        }
    }
    assert(deps_view(after) =~= deps_view(before).insert(k, views(v@)));
}

/// The schedule keys of each job id.
fn keys_by_id(jobs: &Vec<PlannedJob>) -> (m: StrMap<Vec<String>>)
    ensures
        m.wf(),
        forall|id: Seq<char>| #[trigger] keys_for_id(jobs@, id) == (match m.lookup(id) {
            Some(v) => views(v@),
            None => Seq::<Seq<char>>::empty(),
        }),
        forall|id: Seq<char>| (#[trigger] m.lookup(id) matches Some(v) ==> v@.len() > 0),
{
    let mut m: StrMap<Vec<String>> = StrMap::new();
    let mut i: usize = 0;
    while i < jobs.len()
        invariant
            m.wf(),
            i <= jobs.len(),
            forall|id: Seq<char>| #[trigger] keys_for_id(jobs@.take(i as int), id) == (match m.lookup(id) {
                Some(v) => views(v@),
                None => Seq::<Seq<char>>::empty(),
            }),
            forall|id: Seq<char>| (#[trigger] m.lookup(id) matches Some(v) ==> v@.len() > 0),
        decreases jobs.len() - i,
    {
        let job = &jobs[i];
        let key = schedule_key(job);
        let mut list: Vec<String> = match m.get(job.id.as_str()) {
            Some(v) => copy_strings(v),
            None => Vec::new(),
        };
        let ghost old_list = views(list@);
        list.push(key);
        let ghost before = m;
        m.insert(job.id.clone(), list);
        proof {
            let pre = jobs@.take(i as int);
            let cur = jobs@.take(i + 1);
            assert(cur.drop_last() =~= pre);
            assert(cur.last() == jobs@[i as int]);
            assert(views(list@) =~= old_list.push(key@));
            assert forall|id: Seq<char>| #[trigger] keys_for_id(cur, id) == (match m.lookup(id) {
                Some(v) => views(v@),
                None => Seq::<Seq<char>>::empty(),
            }) by {
                if id != job.id@ {
                    assert(m.lookup(id) == before.lookup(id));
                    assert(keys_for_id(pre, id) == keys_for_id(cur, id));
                } else {
                    assert(keys_for_id(pre, id) == (match before.lookup(id) {
                        Some(v) => views(v@),
                        None => Seq::<Seq<char>>::empty(),
                    }));
                }
            }
            assert forall|id: Seq<char>| (#[trigger] m.lookup(id) matches Some(v) ==> v@.len() > 0) by {
                if id != job.id@ {
                    assert(m.lookup(id) == before.lookup(id));
                }
            }
        }
        i += 1;
    }
    assert(jobs@.take(jobs.len() as int) =~= jobs@);
    m
}

/// The dependencies of each schedule key.
fn dependency_map(jobs: &Vec<PlannedJob>) -> (d: StrMap<Vec<String>>)
    ensures
        d.wf(),
        deps_view(d) == job_deps(jobs@),
{
    let by_id = keys_by_id(jobs);
    let mut d: StrMap<Vec<String>> = StrMap::new();
    assert(deps_view(d) =~= dep_map(jobs@, 0));
    let mut i: usize = 0;
    while i < jobs.len()
        invariant
            d.wf(),
            by_id.wf(),
            i <= jobs.len(),
            forall|id: Seq<char>| #[trigger] keys_for_id(jobs@, id) == (match by_id.lookup(id) {
                Some(v) => views(v@),
                None => Seq::<Seq<char>>::empty(),
            }),
            forall|id: Seq<char>| (#[trigger] by_id.lookup(id) matches Some(v) ==> v@.len() > 0),
            deps_view(d) == dep_map(jobs@, i as int),
        decreases jobs.len() - i,
    {
        let job = &jobs[i];
        let ghost needs = views(job.needs@);
        let mut deps: Vec<String> = Vec::new();
        let mut n: usize = 0;
        while n < job.needs.len()
            invariant
                by_id.wf(),
                n <= job.needs.len(),
                needs == views(job.needs@),
                forall|id: Seq<char>| #[trigger] keys_for_id(jobs@, id) == (match by_id.lookup(id) {
                    Some(v) => views(v@),
                    None => Seq::<Seq<char>>::empty(),
                }),
                forall|id: Seq<char>| (#[trigger] by_id.lookup(id) matches Some(v) ==> v@.len() > 0),
                views(deps@) == dep_keys(jobs@, needs.take(n as int)),
            decreases job.needs.len() - n,
        {
            let need = &job.needs[n];
            let ghost before = views(deps@);
            assert(keys_for_id(jobs@, need@) == (match by_id.lookup(need@) {
                Some(v) => views(v@),
                None => Seq::<Seq<char>>::empty(),
            }));
            match by_id.get(need.as_str()) {
                Some(v) => {
                    let mut k: usize = 0;
                    while k < v.len()
                        invariant
                            k <= v.len(),
                            views(deps@) == before + views(v@).take(k as int),
                        decreases v.len() - k,
                    {
                        let s = v[k].clone();
                        proof {
                            assert(views(deps@.push(s)) =~= views(deps@).push(s@));
                            assert(views(v@).take(k + 1) =~= views(v@).take(k as int).push(v@[k as int]@));
                        }
                        deps.push(s);
                        k += 1;
                    }
                    assert(views(v@).take(v.len() as int) =~= views(v@));
                },
                None => {
                    let s = need.clone();
                    proof {
                        assert(views(deps@.push(s)) =~= views(deps@).push(s@));
                    }
                    deps.push(s);
                    assert(views(deps@) =~= before + seq![need@]);
                },
            }
            proof {
                assert(needs.take(n + 1).drop_last() =~= needs.take(n as int));
                assert(needs.take(n + 1).last() == need@);
            }
            n += 1;
        }
        assert(needs.take(job.needs.len() as int) =~= needs);
        let key = schedule_key(job);
        let ghost before = d;
        let ghost deps_v = deps;
        d.insert(key, deps);
        proof {
            lemma_deps_view_insert(before, d, key@, deps_v);
        }
        i += 1;
    }
    d
}

} // verus!

verus! {

proof fn lemma_push_to_set(s: Seq<Seq<char>>, x: Seq<char>)
    ensures
        s.push(x).to_set() == s.to_set().insert(x),
{
    assert forall|y: Seq<char>| #[trigger] s.push(x).to_set().contains(y) <==> s.to_set().insert(x).contains(y) by {
        if s.push(x).contains(y) {
            let j = choose|j: int| 0 <= j < s.len() + 1 && s.push(x)[j] == y;
            if j < s.len() {
                assert(s[j] == y);
            }
        }
        if s.contains(y) {
            let j = choose|j: int| 0 <= j < s.len() && s[j] == y;
            assert(s.push(x)[j] == y);
        }
        if y == x {
            assert(s.push(x)[s.len() as int] == y);
        }
    }
    assert(s.push(x).to_set() =~= s.to_set().insert(x));
}

/// Waves already released, followed by the rest of a schedule.
pub open spec fn after_waves(prefix: Seq<Seq<Seq<char>>>, r: Result<Seq<Seq<Seq<char>>>, Seq<char>>) -> Result<Seq<Seq<Seq<char>>>, Seq<char>> {
    match r {
        Ok(ws) => Ok(prefix + ws),
        Err(e) => Err(e),
    }
}

/// The texts of a list of waves.
pub open spec fn waves_view(w: Seq<Vec<String>>) -> Seq<Seq<Seq<char>>> {
    w.map_values(|v: Vec<String>| views(v@))
}

/// Whether every dependency of `key` has completed.
fn deps_ready(deps: &StrMap<Vec<String>>, key: &str, completed: &StrSet) -> (r: bool)
    requires
        deps.wf(),
        completed.wf(),
        deps_view(*deps).contains_key(key@),
    ensures
        r == is_ready(deps_view(*deps), key@, completed.members()),
{
    let ghost d = deps_view(*deps);
    let list = match deps.get(key) {
        Some(v) => v,
        None => {
            return true;
        },
    };
    assert(views(list@) == d[key@]);
    let mut i: usize = 0;
    while i < list.len()
        invariant
            completed.wf(),
            i <= list.len(),
            views(list@) == d[key@],
            d.contains_key(key@),
            d == deps_view(*deps),
            forall|j: int| 0 <= j < i ==> completed.members().contains(#[trigger] d[key@][j]),
        decreases list.len() - i,
    {
        assert(d[key@][i as int] == list@[i as int]@);
        if !completed.contains(list[i].as_str()) {
            assert(!completed.members().contains(d[key@][i as int]));
            assert(!is_ready(d, key@, completed.members()));
            return false;
        }
        i += 1;
    }
    true
}

/// The jobs in waves: each wave holds, in ascending order, every remaining schedule key whose
/// dependencies all ran in earlier waves; an error names the keys left when none is ready.
pub fn try_schedule_job_waves(jobs: &Vec<PlannedJob>) -> (r: Result<Vec<Vec<String>>, String>)
    ensures
        match r {
            Ok(ws) => schedule_spec(jobs@) == Ok::<Seq<Seq<Seq<char>>>, Seq<char>>(waves_view(ws@)),
            Err(e) => schedule_spec(jobs@) == Err::<Seq<Seq<Seq<char>>>, Seq<char>>(e@),
        },
        r matches Ok(ws) ==> sound_schedule(waves_view(ws@), job_deps(jobs@)),
        r matches Ok(ws) ==> layered_schedule(waves_view(ws@), job_deps(jobs@)),
        r is Err ==> forall|ws: Seq<Seq<Seq<char>>>| !#[trigger] sound_schedule(ws, job_deps(jobs@)),
{
    let r = schedule_waves_inner(jobs);
    proof {
        match &r {
            Ok(ws) => {
                lemma_schedule_sound(jobs@, waves_view(ws@));
                lemma_schedule_layered(jobs@, waves_view(ws@));
            },
            Err(_) => {
                assert forall|ws: Seq<Seq<Seq<char>>>| !#[trigger] sound_schedule(ws, job_deps(jobs@)) by {
                    lemma_schedule_error_means_no_schedule(jobs@, ws);
                }
            },
        }
    }
    r
}

fn schedule_waves_inner(jobs: &Vec<PlannedJob>) -> (r: Result<Vec<Vec<String>>, String>)
    ensures
        match r {
            Ok(ws) => schedule_spec(jobs@) == Ok::<Seq<Seq<Seq<char>>>, Seq<char>>(waves_view(ws@)),
            Err(e) => schedule_spec(jobs@) == Err::<Seq<Seq<Seq<char>>>, Seq<char>>(e@),
        },
{
    let deps = dependency_map(jobs);
    let ghost d = deps_view(deps);
    let mut rem: Vec<String> = Vec::new();
    let mut i: usize = 0;
    while i < deps.len()
        invariant
            deps.wf(),
            i <= deps.keys().len(),
            views(rem@) == deps.keys().take(i as int),
        decreases deps.keys().len() - i,
    {
        let k = deps.key_at(i).clone();
        proof {
            assert(views(rem@.push(k)) =~= views(rem@).push(k@));
            assert(deps.keys().take(i + 1) =~= deps.keys().take(i as int).push(deps.keys()[i as int]));
        }
        rem.push(k);
        i += 1;
    }
    proof {
        assert(deps.keys().take(deps.keys().len() as int) =~= deps.keys());
        assert(deps.keys().to_set() =~= d.dom()) by {
            assert forall|k: Seq<char>| deps.keys().to_set().contains(k) <==> d.dom().contains(k) by {
                assert(deps.has_key(k) == deps.keys().contains(k));
            }
        }
        lemma_sorted_seq_of(deps.keys());
    }
    let mut completed = StrSet::new();
    let mut waves: Vec<Vec<String>> = Vec::new();
    assert(after_waves(waves_view(waves@), schedule_spec(jobs@)) == schedule_spec(jobs@)) by {
        match schedule_spec(jobs@) {
            Ok(ws) => {
                assert(waves_view(waves@) + ws =~= ws);
            },
            Err(e) => {},
        }
    }
    while rem.len() > 0
        invariant
            deps.wf(),
            completed.wf(),
            d == deps_view(deps),
            forall|k: Seq<char>| #[trigger] views(rem@).contains(k) ==> d.contains_key(k),
            schedule_spec(jobs@) == after_waves(waves_view(waves@), waves_from(d, views(rem@), completed.members())),
        decreases rem.len(),
    {
        let ghost remv = views(rem@);
        let ghost done = completed.members();
        let mut wave: Vec<String> = Vec::new();
        let mut blocked: Vec<String> = Vec::new();
        let mut j: usize = 0;
        assert(remv.take(0) =~= Seq::<Seq<char>>::empty());
        while j < rem.len()
            invariant
                deps.wf(),
                completed.wf(),
                d == deps_view(deps),
                done == completed.members(),
                remv == views(rem@),
                forall|k: Seq<char>| #[trigger] remv.contains(k) ==> d.contains_key(k),
                j <= rem.len(),
                views(wave@) == ready_keys(d, remv.take(j as int), done),
                views(blocked@) == blocked_keys(d, remv.take(j as int), done),
            decreases rem.len() - j,
        {
            let key = rem[j].clone();
            assert(remv[j as int] == key@);
            assert(remv.contains(key@));
            let ready = deps_ready(&deps, key.as_str(), &completed);
            proof {
                assert(remv.take(j + 1).drop_last() =~= remv.take(j as int));
                assert(remv.take(j + 1).last() == key@);
            }
            if ready {
                proof {
                    assert(views(wave@.push(key)) =~= views(wave@).push(key@));
                }
                wave.push(key);
            } else {
                proof {
                    assert(views(blocked@.push(key)) =~= views(blocked@).push(key@));
                }
                blocked.push(key);
            }
            j += 1;
        }
        assert(remv.take(rem.len() as int) =~= remv);
        if wave.len() == 0 {
            let listed = join_strings(&rem, ", ");
            return Err(cat("cyclic job dependencies: ", listed.as_str()));
        }
        let ghost wv = views(wave@);
        let mut t: usize = 0;
        assert(wv.take(0).to_set() =~= Set::<Seq<char>>::empty());
        assert(done.union(wv.take(0).to_set()) =~= done);
        while t < wave.len()
            invariant
                completed.wf(),
                t <= wave.len(),
                wv == views(wave@),
                completed.members() == done.union(wv.take(t as int).to_set()),
            decreases wave.len() - t,
        {
            completed.insert(wave[t].clone());
            proof {
                assert(wv.take(t + 1) =~= wv.take(t as int).push(wave@[t as int]@));
                lemma_push_to_set(wv.take(t as int), wave@[t as int]@);
                assert(done.union(wv.take(t + 1).to_set()) =~= done.union(wv.take(t as int).to_set()).insert(wave@[t as int]@));
            }
            t += 1;
        }
        assert(wv.take(wave.len() as int) =~= wv);
        proof {
            lemma_partition(d, remv, done);
            let bl = blocked_keys(d, remv, done);
            assert forall|k: Seq<char>| #[trigger] bl.contains(k) implies d.contains_key(k) by {
                assert(remv.contains(k));
            }
            assert(waves_view(waves@.push(wave)) =~= waves_view(waves@).push(wv));
            match waves_from(d, bl, done.union(wv.to_set())) {
                Ok(ws) => {
                    assert(waves_view(waves@).push(wv) + ws =~= waves_view(waves@) + (seq![wv] + ws));
                },
                Err(e) => {},
            }
        }
        waves.push(wave);
        rem = blocked;
    }
    proof {
        assert(waves_view(waves@) + Seq::<Seq<Seq<char>>>::empty() =~= waves_view(waves@));
    }
    Ok(waves)
}

/// The waves of an acyclic job list.
pub fn schedule_job_waves(jobs: &Vec<PlannedJob>) -> (r: Vec<Vec<String>>)
    requires
        schedule_spec(jobs@) is Ok,
    ensures
        schedule_spec(jobs@) == Ok::<Seq<Seq<Seq<char>>>, Seq<char>>(waves_view(r@)),
{
    match try_schedule_job_waves(jobs) {
        Ok(ws) => ws,
        Err(_) => {
            assert(false);
            Vec::new()
        },
    }
}

} // verus!

verus! {

// ---------------------------------------------------------------------------
// What a schedule guarantees
// ---------------------------------------------------------------------------

proof fn lemma_partition_no_duplicates(d: Map<Seq<char>, Seq<Seq<char>>>, rem: Seq<Seq<char>>, done: Set<Seq<char>>)
    requires
        rem.no_duplicates(),
    ensures
        ready_keys(d, rem, done).no_duplicates(),
        blocked_keys(d, rem, done).no_duplicates(),
    decreases rem.len(),
{
    if rem.len() > 0 {
        let p = rem.drop_last();
        assert(p.no_duplicates());
        lemma_partition_no_duplicates(d, p, done);
        lemma_partition(d, p, done);
        assert(!p.contains(rem.last())) by {
            if p.contains(rem.last()) {
                let j = choose|j: int| 0 <= j < p.len() && p[j] == rem.last();
                assert(rem[j] == rem[rem.len() - 1]);
            }
        }
        let r0 = ready_keys(d, p, done);
        let b0 = blocked_keys(d, p, done);
        assert(!r0.contains(rem.last()));
        assert(!b0.contains(rem.last()));
        assert(r0.push(rem.last()).no_duplicates()) by {
            assert forall|a: int, b: int| 0 <= a < b < r0.len() + 1 implies r0.push(rem.last())[a] != r0.push(rem.last())[b] by {
                if b == r0.len() {
                    assert(r0.contains(r0[a]));
                }
            }
        }
        assert(b0.push(rem.last()).no_duplicates()) by {
            assert forall|a: int, b: int| 0 <= a < b < b0.len() + 1 implies b0.push(rem.last())[a] != b0.push(rem.last())[b] by {
                if b == b0.len() {
                    assert(b0.contains(b0[a]));
                }
            }
        }
    }
}

/// The waves from a state: non-empty, each key of `rem` in exactly one wave, and each key's
/// dependencies either done before or in an earlier wave.
proof fn lemma_waves_from_sound(d: Map<Seq<char>, Seq<Seq<char>>>, rem: Seq<Seq<char>>, done: Set<Seq<char>>, ws: Seq<Seq<Seq<char>>>)
    requires
        rem.no_duplicates(),
        forall|k: Seq<char>| #[trigger] rem.contains(k) ==> !done.contains(k),
        waves_from(d, rem, done) == Ok::<Seq<Seq<Seq<char>>>, Seq<char>>(ws),
    ensures
        forall|i: int| 0 <= i < ws.len() ==> (#[trigger] ws[i]).len() > 0 && ws[i].no_duplicates(),
        forall|k: Seq<char>| #[trigger] rem.contains(k) <==> exists|i: int| 0 <= i < ws.len() && (#[trigger] ws[i]).contains(k),
        forall|i: int, j: int, k: Seq<char>| 0 <= i < j < ws.len() && #[trigger] ws[i].contains(k) ==> !#[trigger] ws[j].contains(k),
        forall|i: int, k: Seq<char>, x: Seq<char>| 0 <= i < ws.len() && #[trigger] ws[i].contains(k) && #[trigger] d[k].contains(x)
            ==> done.contains(x) || exists|j: int| 0 <= j < i && (#[trigger] ws[j]).contains(x),
    decreases rem.len(),
{
    if rem.len() > 0 {
        let w = ready_keys(d, rem, done);
        let rest = blocked_keys(d, rem, done);
        let done2 = done.union(w.to_set());
        lemma_partition(d, rem, done);
        lemma_partition_no_duplicates(d, rem, done);
        assert forall|k: Seq<char>| #[trigger] rest.contains(k) implies !done2.contains(k) by {
            assert(rem.contains(k));
            assert(!is_ready(d, k, done));
            assert(!w.contains(k));
        }
        let ws2 = waves_from(d, rest, done2)->Ok_0;
        lemma_waves_from_sound(d, rest, done2, ws2);
        assert(ws =~= seq![w] + ws2);
        assert forall|i: int| 0 <= i < ws.len() implies (#[trigger] ws[i]).len() > 0 && ws[i].no_duplicates() by {
            if i > 0 {
                assert(ws[i] == ws2[i - 1]);
            }
        }
        assert forall|k: Seq<char>| #[trigger] rem.contains(k) <==> exists|i: int| 0 <= i < ws.len() && (#[trigger] ws[i]).contains(k) by {
            if rem.contains(k) {
                if w.contains(k) {
                    assert(ws[0].contains(k));
                } else {
                    assert(rest.contains(k));
                    let i = choose|i: int| 0 <= i < ws2.len() && (#[trigger] ws2[i]).contains(k);
                    assert(ws[i + 1] == ws2[i]);
                }
            }
            if exists|i: int| 0 <= i < ws.len() && (#[trigger] ws[i]).contains(k) {
                let i = choose|i: int| 0 <= i < ws.len() && (#[trigger] ws[i]).contains(k);
                if i > 0 {
                    assert(ws[i] == ws2[i - 1]);
                    assert(rest.contains(k));
                }
            }
        }
        assert forall|i: int, j: int, k: Seq<char>| 0 <= i < j < ws.len() && #[trigger] ws[i].contains(k) implies !#[trigger] ws[j].contains(k) by {
            assert(ws[j] == ws2[j - 1]);
            if i == 0 {
                if ws2[j - 1].contains(k) {
                    assert(rest.contains(k));
                }
            } else {
                assert(ws[i] == ws2[i - 1]);
            }
        }
        assert forall|i: int, k: Seq<char>, x: Seq<char>| 0 <= i < ws.len() && #[trigger] ws[i].contains(k) && #[trigger] d[k].contains(x)
            implies done.contains(x) || exists|j: int| 0 <= j < i && (#[trigger] ws[j]).contains(x) by {
            if i == 0 {
                assert(is_ready(d, k, done));
                let q = choose|q: int| 0 <= q < d[k].len() && d[k][q] == x;
                assert(done.contains(d[k][q]));
            } else {
                assert(ws[i] == ws2[i - 1]);
                if !done2.contains(x) {
                    let j = choose|j: int| 0 <= j < i - 1 && (#[trigger] ws2[j]).contains(x);
                    assert(ws[j + 1] == ws2[j]);
                } else if !done.contains(x) {
                    assert(w.contains(x));
                    assert(ws[0].contains(x));
                }
            }
        }
    }
}

/// The least element of a finite non-empty set of strings.
proof fn lemma_least_exists(s: Set<Seq<char>>)
    requires
        s.finite(),
        s.len() > 0,
    ensures
        exists|m: Seq<char>| s.contains(m) && forall|y: Seq<char>| #[trigger] s.contains(y) ==> y == m || seq_lt(m, y),
    decreases s.len(),
{
    let x = s.choose();
    let r = s.remove(x);
    if r.len() == 0 {
        assert forall|y: Seq<char>| #[trigger] s.contains(y) implies y == x || seq_lt(x, y) by {
            if y != x {
                assert(r.contains(y));
            }
        }
    } else {
        lemma_least_exists(r);
        let m = choose|m: Seq<char>| r.contains(m) && forall|y: Seq<char>| #[trigger] r.contains(y) ==> y == m || seq_lt(m, y);
        lemma_seq_lt_trichotomy(x, m);
        if seq_lt(x, m) {
            assert forall|y: Seq<char>| #[trigger] s.contains(y) implies y == x || seq_lt(x, y) by {
                if y != x {
                    assert(r.contains(y));
                    if y != m {
                        lemma_seq_lt_transitive(x, m, y);
                    }
                }
            }
        } else {
            assert forall|y: Seq<char>| #[trigger] s.contains(y) implies y == m || seq_lt(m, y) by {
                if y != x {
                    assert(r.contains(y));
                }
            }
        }
    }
}

/// Every finite set of strings has an ascending enumeration.
proof fn lemma_sorted_exists(s: Set<Seq<char>>)
    requires
        s.finite(),
    ensures
        sorted_keys(sorted_seq_of(s)),
        sorted_seq_of(s).to_set() == s,
    decreases s.len(),
{
    if s.len() == 0 {
        let q = Seq::<Seq<char>>::empty();
        assert(q.to_set() =~= s);
        assert(sorted_keys(q));
    } else {
        lemma_least_exists(s);
        let m = choose|m: Seq<char>| s.contains(m) && forall|y: Seq<char>| #[trigger] s.contains(y) ==> y == m || seq_lt(m, y);
        let r = s.remove(m);
        lemma_sorted_exists(r);
        let q0 = sorted_seq_of(r);
        let q = seq![m] + q0;
        assert forall|i: int, j: int| 0 <= i < j < q.len() implies seq_lt(#[trigger] q[i], #[trigger] q[j]) by {
            if i == 0 {
                assert(q0.to_set().contains(q0[j - 1]));
                assert(r.contains(q[j]));
            } else {
                assert(q[i] == q0[i - 1] && q[j] == q0[j - 1]);
            }
        }
        assert forall|y: Seq<char>| #[trigger] q.to_set().contains(y) <==> s.contains(y) by {
            if s.contains(y) && y != m {
                assert(q0.to_set().contains(y));
                let k = choose|k: int| 0 <= k < q0.len() && q0[k] == y;
                assert(q[k + 1] == y);
            }
            if q.to_set().contains(y) {
                let k = choose|k: int| 0 <= k < q.len() && q[k] == y;
                if k > 0 {
                    assert(q0[k - 1] == y);
                    assert(q0.to_set().contains(y));
                }
            }
            if y == m {
                assert(q[0] == y);
            }
        }
        assert(q.to_set() =~= s);
        lemma_sorted_seq_of(q);
    }
}

proof fn lemma_dep_map_finite(jobs: Seq<PlannedJob>, n: int)
    ensures
        dep_map(jobs, n).dom().finite(),
    decreases n,
{
    if n > 0 {
        lemma_dep_map_finite(jobs, n - 1);
    }
}

/// Waves that schedule the keys of `d`: no wave is empty or repeats a key, every key of `d` is
/// in some wave and no key in two, and every dependency of a key is in an earlier wave.
pub open spec fn sound_schedule(ws: Seq<Seq<Seq<char>>>, d: Map<Seq<char>, Seq<Seq<char>>>) -> bool {
    &&& forall|i: int| 0 <= i < ws.len() ==> (#[trigger] ws[i]).len() > 0 && ws[i].no_duplicates()
    &&& forall|k: Seq<char>| #[trigger] d.contains_key(k) <==> exists|i: int| 0 <= i < ws.len() && (#[trigger] ws[i]).contains(k)
    &&& forall|i: int, j: int, k: Seq<char>| 0 <= i < j < ws.len() && #[trigger] ws[i].contains(k) ==> !#[trigger] ws[j].contains(k)
    &&& forall|i: int, k: Seq<char>, x: Seq<char>| 0 <= i < ws.len() && #[trigger] ws[i].contains(k) && #[trigger] d[k].contains(x)
        ==> exists|j: int| 0 <= j < i && (#[trigger] ws[j]).contains(x)
}

/// A successful schedule is sound: every wave is non-empty, every schedule key of the jobs is
/// in exactly one wave (and the waves hold nothing else), and every dependency of a key is a
/// key of an earlier wave.
pub proof fn lemma_schedule_sound(jobs: Seq<PlannedJob>, ws: Seq<Seq<Seq<char>>>)
    requires
        schedule_spec(jobs) == Ok::<Seq<Seq<Seq<char>>>, Seq<char>>(ws),
    ensures
        sound_schedule(ws, job_deps(jobs)),
{
    let d = job_deps(jobs);
    lemma_dep_map_finite(jobs, jobs.len() as int);
    lemma_sorted_exists(d.dom());
    let rem = sorted_seq_of(d.dom());
    assert(rem.no_duplicates()) by {
        assert forall|a: int, b: int| 0 <= a < b < rem.len() implies rem[a] != rem[b] by {
            assert(seq_lt(rem[a], rem[b]));
            crate::strmap::lemma_seq_lt_irreflexive(rem[a]);
        }
    }
    assert(waves_from(d, rem, Set::empty()) == Ok::<Seq<Seq<Seq<char>>>, Seq<char>>(ws));
    lemma_waves_from_sound(d, rem, Set::empty(), ws);
    assert forall|k: Seq<char>| #[trigger] d.contains_key(k) <==> exists|i: int| 0 <= i < ws.len() && (#[trigger] ws[i]).contains(k) by {
        assert(rem.to_set().contains(k) == rem.contains(k));
        assert(d.dom().contains(k) == d.contains_key(k));
    }
    assert forall|i: int, k: Seq<char>, x: Seq<char>| 0 <= i < ws.len() && #[trigger] ws[i].contains(k) && #[trigger] d[k].contains(x)
        implies exists|j: int| 0 <= j < i && (#[trigger] ws[j]).contains(x) by {
        assert(!Set::<Seq<char>>::empty().contains(x));
    }
    assert(sound_schedule(ws, d));
    assert(forall|i: int| 0 <= i < ws.len() ==> (#[trigger] ws[i]).len() > 0 && ws[i].no_duplicates());
    assert(forall|i: int, j: int, k: Seq<char>| 0 <= i < j < ws.len() && #[trigger] ws[i].contains(k) ==> !#[trigger] ws[j].contains(k));
}

} // verus!

verus! {

/// Waves laid out by depth: each wave ascending, every key of the first wave without
/// dependencies, and every key of a later wave with a dependency in the wave just before it.
/// With `sound_schedule` this puts each key one wave after its deepest dependency.
pub open spec fn layered_schedule(ws: Seq<Seq<Seq<char>>>, d: Map<Seq<char>, Seq<Seq<char>>>) -> bool {
    &&& forall|i: int| 0 <= i < ws.len() ==> sorted_keys(#[trigger] ws[i])
    &&& forall|k: Seq<char>| ws.len() > 0 && #[trigger] ws[0].contains(k) ==> d[k].len() == 0
    &&& forall|i: int, k: Seq<char>| 0 < i < ws.len() && #[trigger] ws[i].contains(k)
        ==> exists|q: int| 0 <= q < d[k].len() && ws[i - 1].contains(#[trigger] d[k][q])
}

proof fn lemma_partition_sorted(d: Map<Seq<char>, Seq<Seq<char>>>, rem: Seq<Seq<char>>, done: Set<Seq<char>>)
    requires
        sorted_keys(rem),
    ensures
        sorted_keys(ready_keys(d, rem, done)),
        sorted_keys(blocked_keys(d, rem, done)),
    decreases rem.len(),
{
    if rem.len() > 0 {
        let p = rem.drop_last();
        assert(sorted_keys(p)) by {
            assert forall|i: int, j: int| 0 <= i < j < p.len() implies seq_lt(#[trigger] p[i], #[trigger] p[j]) by {
                assert(p[i] == rem[i] && p[j] == rem[j]);
            }
        }
        lemma_partition_sorted(d, p, done);
        lemma_partition(d, p, done);
        assert forall|x: Seq<char>| p.contains(x) implies seq_lt(x, rem.last()) by {
            let j = choose|j: int| 0 <= j < p.len() && p[j] == x;
            assert(rem[j] == x);
        }
        let r0 = ready_keys(d, p, done);
        let b0 = blocked_keys(d, p, done);
        assert forall|i: int, j: int| 0 <= i < j < r0.len() + 1 implies seq_lt(#[trigger] r0.push(rem.last())[i], #[trigger] r0.push(rem.last())[j]) by {
            if j == r0.len() {
                assert(r0.contains(r0[i]));
            }
        }
        assert forall|i: int, j: int| 0 <= i < j < b0.len() + 1 implies seq_lt(#[trigger] b0.push(rem.last())[i], #[trigger] b0.push(rem.last())[j]) by {
            if j == b0.len() {
                assert(b0.contains(b0[i]));
            }
        }
    }
}

proof fn lemma_waves_from_layered(d: Map<Seq<char>, Seq<Seq<char>>>, rem: Seq<Seq<char>>, done: Set<Seq<char>>, ws: Seq<Seq<Seq<char>>>)
    requires
        sorted_keys(rem),
        waves_from(d, rem, done) == Ok::<Seq<Seq<Seq<char>>>, Seq<char>>(ws),
    ensures
        forall|i: int| 0 <= i < ws.len() ==> sorted_keys(#[trigger] ws[i]),
        forall|k: Seq<char>| ws.len() > 0 && #[trigger] ws[0].contains(k) ==> is_ready(d, k, done),
        forall|i: int, k: Seq<char>| 0 < i < ws.len() && #[trigger] ws[i].contains(k)
            ==> exists|q: int| 0 <= q < d[k].len() && ws[i - 1].contains(#[trigger] d[k][q]),
    decreases rem.len(),
{
    if rem.len() > 0 {
        let w = ready_keys(d, rem, done);
        let rest = blocked_keys(d, rem, done);
        let done2 = done.union(w.to_set());
        lemma_partition(d, rem, done);
        lemma_partition_sorted(d, rem, done);
        let ws2 = waves_from(d, rest, done2)->Ok_0;
        assert(waves_from(d, rest, done2) is Ok);
        assert(ws == seq![w] + ws2);
        lemma_waves_from_layered(d, rest, done2, ws2);
        assert forall|i: int| 0 <= i < ws.len() implies sorted_keys(#[trigger] ws[i]) by {
            if i > 0 {
                assert(ws[i] == ws2[i - 1]);
            }
        }
        assert forall|k: Seq<char>| ws.len() > 0 && #[trigger] ws[0].contains(k) implies is_ready(d, k, done) by {
            assert(ws[0] == w);
        }
        assert forall|i: int, k: Seq<char>| 0 < i < ws.len() && #[trigger] ws[i].contains(k)
            implies exists|q: int| 0 <= q < d[k].len() && ws[i - 1].contains(#[trigger] d[k][q]) by {
            assert(ws[i] == ws2[i - 1]);
            if i == 1 {
                assert(ws2[0].contains(k));
                assert(is_ready(d, k, done2));
                lemma_partition(d, rest, done2);
                assert(ws2[0] == ready_keys(d, rest, done2));
                assert(rest.contains(k));
                assert(!is_ready(d, k, done));
                let q = choose|q: int| 0 <= q < d[k].len() && !done.contains(#[trigger] d[k][q]);
                assert(done2.contains(d[k][q]));
                assert(w.to_set().contains(d[k][q]));
                assert(ws[0] == w);
            } else {
                assert(ws2[i - 1].contains(k));
                let q = choose|q: int| 0 <= q < d[k].len() && ws2[i - 2].contains(#[trigger] d[k][q]);
                assert(ws[i - 1] == ws2[i - 2]);
            }
        }
    }
}

/// A successful schedule is laid out by depth: each wave ascending, the first wave holding the
/// jobs without dependencies, each later job one wave after a dependency of the wave before;
/// together with soundness, each job sits exactly one wave after its deepest dependency.
pub proof fn lemma_schedule_layered(jobs: Seq<PlannedJob>, ws: Seq<Seq<Seq<char>>>)
    requires
        schedule_spec(jobs) == Ok::<Seq<Seq<Seq<char>>>, Seq<char>>(ws),
    ensures
        layered_schedule(ws, job_deps(jobs)),
{
    let d = job_deps(jobs);
    lemma_dep_map_finite(jobs, jobs.len() as int);
    lemma_sorted_exists(d.dom());
    let rem = sorted_seq_of(d.dom());
    assert(waves_from(d, rem, Set::empty()) == Ok::<Seq<Seq<Seq<char>>>, Seq<char>>(ws));
    lemma_waves_from_layered(d, rem, Set::empty(), ws);
    assert forall|k: Seq<char>| ws.len() > 0 && #[trigger] ws[0].contains(k) implies d[k].len() == 0 by {
        assert(is_ready(d, k, Set::empty()));
        if d[k].len() > 0 {
            assert(Set::<Seq<char>>::empty().contains(d[k][0]));
        }
    }
}

/// The first wave that holds a member of `s`, when one of the first `n` does.
proof fn lemma_first_wave_with(ws: Seq<Seq<Seq<char>>>, s: Set<Seq<char>>, n: int)
    requires
        0 <= n <= ws.len(),
        exists|i: int, k: Seq<char>| 0 <= i < n && s.contains(k) && #[trigger] ws[i].contains(k),
    ensures
        exists|i: int, k: Seq<char>| 0 <= i < ws.len() && s.contains(k) && #[trigger] ws[i].contains(k)
            && forall|i2: int, k2: Seq<char>| 0 <= i2 < i && s.contains(k2) ==> !#[trigger] ws[i2].contains(k2),
    decreases n,
{
    if exists|i: int, k: Seq<char>| 0 <= i < n - 1 && s.contains(k) && #[trigger] ws[i].contains(k) {
        lemma_first_wave_with(ws, s, n - 1);
    } else {
        let (i, k) = choose|i: int, k: Seq<char>| 0 <= i < n && s.contains(k) && #[trigger] ws[i].contains(k);
        assert(i == n - 1);
        assert forall|i2: int, k2: Seq<char>| 0 <= i2 < i && s.contains(k2) implies !#[trigger] ws[i2].contains(k2) by {}
    }
}

/// From a state whose remaining and done keys together are the keys of `d`, a failing
/// schedule rules out every sound one.
proof fn lemma_waves_from_error(d: Map<Seq<char>, Seq<Seq<char>>>, rem: Seq<Seq<char>>, done: Set<Seq<char>>, ws: Seq<Seq<Seq<char>>>)
    requires
        forall|k: Seq<char>| #[trigger] d.contains_key(k) <==> rem.contains(k) || done.contains(k),
        forall|k: Seq<char>| #[trigger] rem.contains(k) ==> !done.contains(k),
        waves_from(d, rem, done) is Err,
    ensures
        !sound_schedule(ws, d),
    decreases rem.len(),
{
    if sound_schedule(ws, d) {
        let w = ready_keys(d, rem, done);
        lemma_partition(d, rem, done);
        if w.len() == 0 {
            let s = rem.to_set();
            let k0 = rem[0];
            assert(d.contains_key(k0));
            let i0 = choose|i: int| 0 <= i < ws.len() && (#[trigger] ws[i]).contains(k0);
            assert(s.contains(k0));
            lemma_first_wave_with(ws, s, ws.len() as int);
            let (i, k) = choose|i: int, k: Seq<char>| 0 <= i < ws.len() && s.contains(k) && #[trigger] ws[i].contains(k)
                && forall|i2: int, k2: Seq<char>| 0 <= i2 < i && s.contains(k2) ==> !#[trigger] ws[i2].contains(k2);
            assert(rem.contains(k));
            assert(!w.contains(k));
            assert(!is_ready(d, k, done));
            let q = choose|q: int| 0 <= q < d[k].len() && !done.contains(#[trigger] d[k][q]);
            let x = d[k][q];
            assert(d[k].contains(x));
            let j = choose|j: int| 0 <= j < i && (#[trigger] ws[j]).contains(x);
            assert(d.contains_key(x));
            assert(rem.contains(x));
            assert(s.contains(x));
        } else {
            let rest = blocked_keys(d, rem, done);
            let done2 = done.union(w.to_set());
            assert forall|k: Seq<char>| #[trigger] d.contains_key(k) <==> rest.contains(k) || done2.contains(k) by {
                if rem.contains(k) {
                    if is_ready(d, k, done) {
                        assert(w.contains(k));
                    }
                }
                if w.to_set().contains(k) {
                    assert(w.contains(k));
                }
            }
            assert forall|k: Seq<char>| #[trigger] rest.contains(k) implies !done2.contains(k) by {
                assert(rem.contains(k));
                if w.to_set().contains(k) {
                    assert(w.contains(k));
                }
            }
            lemma_waves_from_error(d, rest, done2, ws);
        }
    }
}

/// When scheduling fails, the jobs have no sound schedule at all: some dependencies are
/// cyclic or name a key that no job has.
pub proof fn lemma_schedule_error_means_no_schedule(jobs: Seq<PlannedJob>, ws: Seq<Seq<Seq<char>>>)
    requires
        schedule_spec(jobs) is Err,
    ensures
        !sound_schedule(ws, job_deps(jobs)),
{
    let d = job_deps(jobs);
    lemma_dep_map_finite(jobs, jobs.len() as int);
    lemma_sorted_exists(d.dom());
    let rem = sorted_seq_of(d.dom());
    assert forall|k: Seq<char>| #[trigger] d.contains_key(k) <==> rem.contains(k) || Set::<Seq<char>>::empty().contains(k) by {
        assert(rem.to_set().contains(k) == rem.contains(k));
        assert(d.dom().contains(k) == d.contains_key(k));
    }
    lemma_waves_from_error(d, rem, Set::empty(), ws);
}

} // verus!

verus! {

// ---------------------------------------------------------------------------
// Outputs
// ---------------------------------------------------------------------------

/// Where `p` first occurs in `s` (meaningful when it occurs).
pub open spec fn first_at(s: Seq<char>, p: Seq<char>) -> int {
    choose|i: int| first_occurrence(s, p, i)
}

/// Where `c` first occurs in `s` (meaningful when it occurs).
pub open spec fn first_char_at(s: Seq<char>, c: char) -> int {
    choose|i: int| first_index_of(s, c, i)
}

/// `v` without one pair of surrounding double quotes, else without one pair of single
/// quotes, else unchanged.
pub open spec fn strip_echo_quotes(v: Seq<char>) -> Seq<char> {
    if v.len() >= 2 && v[0] == '"' && v.last() == '"' {
        v.subrange(1, v.len() - 1)
    } else if v.len() >= 2 && v[0] == '\'' && v.last() == '\'' {
        v.subrange(1, v.len() - 1)
    } else {
        v
    }
}

/// The `key=value` that a line like `echo "key=value" >> $GITHUB_OUTPUT` writes: the trimmed
/// line must mention `GITHUB_OUTPUT`; the part before its first `>>`, trimmed, must start with
/// `echo`; an `-e` flag and one pair of quotes are dropped; the text splits at its first `=`
/// into a trimmed non-empty key and the value.
pub open spec fn echo_output(line: Seq<char>) -> Option<(Seq<char>, Seq<char>)> {
    let t = trim(line);
    if !contains_seq(t, "GITHUB_OUTPUT"@) || !contains_seq(t, ">>"@) {
        None
    } else {
        let left = trim(t.take(first_at(t, ">>"@)));
        if !is_prefix("echo"@, left) {
            None
        } else {
            let v1 = trim(left.skip(4));
            let v2 = if is_prefix("-e"@, v1) { trim(v1.skip(2)) } else { v1 };
            let v3 = trim(strip_echo_quotes(v2));
            if !v3.contains('=') {
                None
            } else {
                let eq = first_char_at(v3, '=');
                let key = trim(v3.take(eq));
                if key.len() == 0 {
                    None
                } else {
                    Some((key, v3.skip(eq + 1)))
                }
            }
        }
    }
}

/// The output that a shell line writes to `$GITHUB_OUTPUT` with `echo`, if it is one.
pub fn parse_github_output_echo(line: &str) -> (r: Option<(String, String)>)
    ensures
        match r {
            Some(p) => echo_output(line@) == Some((p.0@, p.1@)),
            None => echo_output(line@) is None,
        },
{
    proof {
        reveal_strlit("echo");
        reveal_strlit("-e");
        reveal_strlit(">>");
    }
    let trimmed = trim_str(line);
    if !contains(trimmed.as_str(), "GITHUB_OUTPUT") {
        return None;
    }
    let (left, _) = match split_once_str(trimmed.as_str(), ">>") {
        Some(p) => p,
        None => {
            return None;
        },
    };
    proof {
        let i = choose|i: int| first_occurrence(trimmed@, ">>"@, i) && left@ == trimmed@.take(i);
        lemma_first_occurrence_unique(trimmed@, ">>"@, i);
        assert(first_at(trimmed@, ">>"@) == i);
    }
    let left_t = trim_str(left.as_str());
    let after_echo = match strip_prefix(left_t.as_str(), "echo") {
        Some(v) => v,
        None => {
            return None;
        },
    };
    let v1 = trim_str(after_echo.as_str());
    let v2 = match strip_prefix(v1.as_str(), "-e") {
        Some(rest) => trim_str(rest.as_str()),
        None => v1,
    };
    let c = chars_of(v2.as_str());
    let n = c.len();
    let unquoted = if n >= 2 && c[0] == '"' && c[n - 1] == '"' {
        slice_string(c.as_slice(), 1, n - 1)
    } else if n >= 2 && c[0] == '\'' && c[n - 1] == '\'' {
        slice_string(c.as_slice(), 1, n - 1)
    } else {
        v2
    };
    let v3 = trim_str(unquoted.as_str());
    let (key, value) = match split_once_char(v3.as_str(), '=') {
        Some(p) => p,
        None => {
            return None;
        },
    };
    proof {
        let i = choose|i: int| first_index_of(v3@, '=', i) && key@ == v3@.take(i) && value@ == v3@.skip(i + 1);
        crate::text::lemma_first_index_unique(v3@, '=', i);
        assert(first_char_at(v3@, '=') == i);
    }
    let key_t = trim_str(key.as_str());
    if key_t.as_str().is_empty() {
        return None;
    }
    Some((key_t, value))
}

/// Every line of the `run` scripts of the steps, step by step.
pub open spec fn run_lines(steps: Seq<PlannedStep>) -> Seq<Seq<char>>
    decreases steps.len(),
{
    if steps.len() == 0 {
        Seq::empty()
    } else {
        run_lines(steps.drop_last()) + match steps.last().run {
            Some(r) => lines_of(r@),
            None => Seq::empty(),
        }
    }
}

/// The outputs that lines write, a later line replacing an earlier one's key.
pub open spec fn echoed_outputs(ls: Seq<Seq<char>>) -> Map<Seq<char>, Seq<char>>
    decreases ls.len(),
{
    if ls.len() == 0 {
        Map::empty()
    } else {
        match echo_output(ls.last()) {
            Some(kv) => echoed_outputs(ls.drop_last()).insert(kv.0, kv.1),
            None => echoed_outputs(ls.drop_last()),
        }
    }
}

/// The step outputs that a job's scripts write with plain `echo` lines.
pub fn extract_static_step_outputs(job: &PlannedJob) -> (r: StrMap<String>)
    ensures
        r.wf(),
        text_map(r) == echoed_outputs(run_lines(job.steps@)),
{
    let mut outputs: StrMap<String> = StrMap::new();
    assert(text_map(outputs) =~= echoed_outputs(Seq::empty()));
    let mut i: usize = 0;
    while i < job.steps.len()
        invariant
            outputs.wf(),
            i <= job.steps.len(),
            text_map(outputs) == echoed_outputs(run_lines(job.steps@.take(i as int))),
        decreases job.steps.len() - i,
    {
        let ghost before_steps = run_lines(job.steps@.take(i as int));
        proof {
            assert(job.steps@.take(i + 1).drop_last() =~= job.steps@.take(i as int));
            assert(job.steps@.take(i + 1).last() == job.steps@[i as int]);
        }
        match &job.steps[i].run {
            Some(run) => {
                let ls = lines(run.as_str());
                let ghost lv = views(ls@);
                let mut j: usize = 0;
                assert(before_steps + lv.take(0) =~= before_steps);
                while j < ls.len()
                    invariant
                        outputs.wf(),
                        j <= ls.len(),
                        lv == views(ls@),
                        text_map(outputs) == echoed_outputs(before_steps + lv.take(j as int)),
                    decreases ls.len() - j,
                {
                    proof {
                        assert((before_steps + lv.take(j + 1)).drop_last() =~= before_steps + lv.take(j as int));
                        assert((before_steps + lv.take(j + 1)).last() == ls@[j as int]@);
                    }
                    match parse_github_output_echo(ls[j].as_str()) {
                        Some((k, v)) => {
                            let ghost before = outputs;
                            let ghost kv = k@;
                            let ghost vv = v@;
                            outputs.insert(k, v);
                            proof {
                                lemma_text_map_insert(before, outputs, kv, vv);
                            }
                        },
                        None => {},
                    }
                    j += 1;
                }
                assert(lv.take(ls.len() as int) =~= lv);
            },
            None => {
                assert(run_lines(job.steps@.take(i + 1)) =~= before_steps);
            },
        }
        i += 1;
    }
    assert(job.steps@.take(job.steps.len() as int) =~= job.steps@);
    outputs
}

/// The value of `steps.<id>.outputs.<name>`, the only expression an output template resolves
/// here (the step id is not checked); anything else is empty.
pub open spec fn step_output_expr(expr: Seq<char>, outs: Map<Seq<char>, Seq<char>>) -> Seq<char> {
    let parts = split_char(expr, '.');
    if parts.len() == 4 && parts[0] == "steps"@ && parts[2] == "outputs"@ {
        if outs.contains_key(parts[3]) {
            outs[parts[3]]
        } else {
            Seq::empty()
        }
    } else {
        Seq::empty()
    }
}

/// Resolves one `${{ steps.<id>.outputs.<name> }}` expression.
pub fn resolve_step_output_expr(expr: &str, step_outputs: &StrMap<String>) -> (r: String)
    requires
        step_outputs.wf(),
    ensures
        r@ == step_output_expr(expr@, text_map(*step_outputs)),
{
    let parts = split_on_char(expr, '.');
    if parts.len() == 4 && str_eq(parts[0].as_str(), "steps") && str_eq(parts[2].as_str(), "outputs") {
        assert(views(parts@)[0] == parts@[0]@ && views(parts@)[2] == parts@[2]@ && views(parts@)[3] == parts@[3]@);
        match step_outputs.get(parts[3].as_str()) {
            Some(v) => v.clone(),
            None => String::new(),
        }
    } else {
        proof {
            if parts.len() == 4 {
                assert(views(parts@)[0] == parts@[0]@ && views(parts@)[2] == parts@[2]@);
            }
        }
        String::new()
    }
}

/// An output template with each `${{ ... }}` replaced by its step output; from an opening
/// `${{` without a closing `}}` the text is kept as it is.
pub open spec fn output_template(rem: Seq<char>, outs: Map<Seq<char>, Seq<char>>) -> Seq<char>
    decreases rem.len(),
{
    if !contains_seq(rem, "${{"@) {
        rem
    } else {
        proof {
            reveal_strlit("${{");
            lemma_first_occurrence_exists(rem, "${{"@);
        }
        let start = first_at(rem, "${{"@);
        let after = rem.skip(start + 3);
        if !contains_seq(after, "}}"@) {
            rem
        } else {
            proof {
                reveal_strlit("}}");
                lemma_first_occurrence_exists(after, "}}"@);
            }
            let end = first_at(after, "}}"@);
            rem.take(start) + step_output_expr(trim(after.take(end)), outs) + output_template(after.skip(end + 2), outs)
        }
    }
}

/// Resolves the step-output expressions in an output template.
pub fn resolve_step_output_template(template: &str, step_outputs: &StrMap<String>) -> (r: String)
    requires
        step_outputs.wf(),
    ensures
        r@ == output_template(template@, text_map(*step_outputs)),
{
    proof {
        reveal_strlit("${{");
        reveal_strlit("}}");
    }
    let open = chars_of("${{");
    let close = chars_of("}}");
    let mut remaining = chars_of(template);
    let mut out = String::new();
    let ghost outs = text_map(*step_outputs);
    loop
        invariant
            step_outputs.wf(),
            outs == text_map(*step_outputs),
            open@ == "${{"@,
            close@ == "}}"@,
            open@.len() == 3,
            close@.len() == 2,
            out@ + output_template(remaining@, outs) == output_template(template@, outs),
        ensures
            !contains_seq(remaining@, "${{"@),
            out@ + output_template(remaining@, outs) == output_template(template@, outs),
        decreases remaining@.len(),
    {
        let start = match find_chars(remaining.as_slice(), open.as_slice()) {
            Some(s) => s,
            None => {
                break;
            },
        };
        proof {
            lemma_first_occurrence_unique(remaining@, open@, start as int);
            assert(first_at(remaining@, "${{"@) == start);
        }
        let n = remaining.len();
        let after = slice_vec(remaining.as_slice(), start + 3, n);
        assert(after@ =~= remaining@.skip(start + 3));
        let end = match find_chars(after.as_slice(), close.as_slice()) {
            Some(e) => e,
            None => {
                let tail = slice_string(remaining.as_slice(), start, n);
                let head = slice_string(remaining.as_slice(), 0, start);
                assert(!contains_seq(after@, "}}"@));
                assert(head@ + tail@ =~= remaining@);
                assert(output_template(remaining@, outs) == remaining@);
                let ghost old_out = out@;
                out.append(head.as_str());
                out.append(tail.as_str());
                assert(out@ =~= old_out + remaining@);
                return out;
            },
        };
        proof {
            lemma_first_occurrence_unique(after@, close@, end as int);
            assert(first_at(after@, "}}"@) == end);
        }
        let head = slice_string(remaining.as_slice(), 0, start);
        let inner = slice_string(after.as_slice(), 0, end);
        let expr = trim_str(inner.as_str());
        let value = resolve_step_output_expr(expr.as_str(), step_outputs);
        let m = after.len();
        let rest = slice_vec(after.as_slice(), end + 2, m);
        proof {
            assert(head@ =~= remaining@.take(start as int));
            assert(inner@ =~= after@.take(end as int));
            assert(rest@ =~= after@.skip(end + 2));
            assert(output_template(remaining@, outs) == head@ + value@ + output_template(rest@, outs));
        }
        let ghost old_out = out@;
        out.append(head.as_str());
        out.append(value.as_str());
        proof {
            assert(out@ + output_template(rest@, outs) =~= old_out + output_template(remaining@, outs));
        }
        remaining = rest;
    }
    let tail = from_chars(remaining.as_slice());
    out.append(tail.as_str());
    out
}

/// Each declared job output with its template resolved.
pub fn resolve_job_outputs(output_defs: &StrMap<String>, step_outputs: &StrMap<String>) -> (r: StrMap<String>)
    requires
        output_defs.wf(),
        step_outputs.wf(),
    ensures
        r.wf(),
        text_map(r).dom() == text_map(*output_defs).dom(),
        forall|k: Seq<char>| #[trigger] text_map(r).contains_key(k) ==> text_map(r)[k] == output_template(
            text_map(*output_defs)[k],
            text_map(*step_outputs),
        ),
{
    let mut r: StrMap<String> = StrMap::new();
    let mut i: usize = 0;
    assert(text_map(r) =~= crate::strmap::prefix_text_map(*output_defs, 0));
    while i < output_defs.len()
        invariant
            output_defs.wf(),
            step_outputs.wf(),
            r.wf(),
            i <= output_defs.keys().len(),
            text_map(r).dom() == crate::strmap::prefix_text_map(*output_defs, i as int).dom(),
            forall|k: Seq<char>| #[trigger] text_map(r).contains_key(k) ==> text_map(r)[k] == output_template(
                crate::strmap::prefix_text_map(*output_defs, i as int)[k],
                text_map(*step_outputs),
            ),
        decreases output_defs.keys().len() - i,
    {
        let name = output_defs.key_at(i);
        let template = output_defs.value_at(i);
        let value = resolve_step_output_template(template.as_str(), step_outputs);
        let ghost before = r;
        let ghost vv = value@;
        r.insert(name.clone(), value);
        proof {
            lemma_text_map_insert(before, r, name@, vv);
            let p1 = crate::strmap::prefix_text_map(*output_defs, i + 1);
            assert(p1 == crate::strmap::prefix_text_map(*output_defs, i as int).insert(name@, template@));
            assert(text_map(r).dom() =~= p1.dom());
        }
        i += 1;
    }
    proof {
        crate::strmap::lemma_prefix_text_map_full(*output_defs);
    }
    r
}

/// The condition of a job `if:`, trimmed and without a surrounding `${{ }}`.
pub open spec fn normalized_if(condition: Seq<char>) -> Seq<char> {
    let t = trim(condition);
    if is_prefix("${{"@, t) && is_suffix("}}"@, t.skip(3)) {
        trim(t.skip(3).take(t.len() - 5))
    } else {
        t
    }
}

/// A job condition without its `${{ }}` wrapper.
pub fn normalize_job_if(condition: &str) -> (r: String)
    ensures
        r@ == normalized_if(condition@),
{
    proof {
        reveal_strlit("${{");
        reveal_strlit("}}");
    }
    let trimmed = trim_str(condition);
    match strip_prefix(trimmed.as_str(), "${{") {
        Some(rest) => match strip_suffix(rest.as_str(), "}}") {
            Some(inner) => {
                assert(inner@ =~= trimmed@.skip(3).take(trimmed@.len() - 5));
                trim_str(inner.as_str())
            },
            None => trimmed,
        },
        None => trimmed,
    }
}

} // verus!

verus! {

// ---------------------------------------------------------------------------
// What needed jobs report
// ---------------------------------------------------------------------------

impl PlannedJob {
    /// The job's maps are well formed.
    pub open spec fn wf(&self) -> bool {
        &&& self.env.wf()
        &&& self.inputs.wf()
        &&& self.outputs.wf()
        &&& self.workflow_call_output_defs.wf()
        &&& (self.matrix_context matches Some(m) ==> m.wf())
    }
}

/// Leg outputs merged in order, a later leg's key replacing an earlier one's.
pub open spec fn merged_outputs(ks: Seq<Seq<char>>, outs: Map<Seq<char>, Map<Seq<char>, Seq<char>>>) -> Map<Seq<char>, Seq<char>>
    decreases ks.len(),
{
    if ks.len() == 0 {
        Map::empty()
    } else if outs.contains_key(ks.last()) {
        merged_outputs(ks.drop_last(), outs).union_prefer_right(outs[ks.last()])
    } else {
        merged_outputs(ks.drop_last(), outs)
    }
}

/// The outputs of a needed job, given the schedule keys of its legs: the legs' outputs merged,
/// or, without legs, what is recorded under the job's own id.
pub open spec fn outputs_from_keys(need: Seq<char>, ks: Seq<Seq<char>>, outs: Map<Seq<char>, Map<Seq<char>, Seq<char>>>) -> Map<Seq<char>, Seq<char>> {
    if ks.len() > 0 {
        merged_outputs(ks, outs)
    } else if outs.contains_key(need) {
        outs[need]
    } else {
        Map::empty()
    }
}

/// The outputs of a needed job among `jobs`.
pub open spec fn need_outputs_spec(need: Seq<char>, jobs: Seq<PlannedJob>, outs: Map<Seq<char>, Map<Seq<char>, Seq<char>>>) -> Map<Seq<char>, Seq<char>> {
    outputs_from_keys(need, keys_for_id(jobs, need), outs)
}

/// The result of a needed job, given the schedule keys of its legs.
pub open spec fn result_from_keys(need: Seq<char>, ks: Seq<Seq<char>>, results: StrMap<JobResultStatus>) -> JobResultStatus {
    let legs = ks.map_values(|k: Seq<char>| recorded(results, k));
    if legs.len() == 0 {
        recorded(results, need)
    } else {
        aggregate_spec(legs)
    }
}

fn outputs_for_keys(need: &str, keys: &Vec<String>, completed_outputs: &StrMap<StrMap<String>>) -> (r: StrMap<String>)
    requires
        nested_wf(*completed_outputs),
    ensures
        r.wf(),
        text_map(r) == outputs_from_keys(need@, views(keys@), nested_text_map(*completed_outputs)),
{
    let ghost outs = nested_text_map(*completed_outputs);
    let ghost ks = views(keys@);
    if keys.len() == 0 {
        return match completed_outputs.get(need) {
            Some(m) => {
                proof {
                    let j = completed_outputs.index_of(need@);
                    completed_outputs.lemma_index_of(j);
                }
                m.duplicate()
            },
            None => {
                let e: StrMap<String> = StrMap::new();
                assert(text_map(e) =~= Map::<Seq<char>, Seq<char>>::empty());
                e
            },
        };
    }
    let mut outputs: StrMap<String> = StrMap::new();
    assert(text_map(outputs) =~= merged_outputs(ks.take(0), outs));
    let mut i: usize = 0;
    while i < keys.len()
        invariant
            nested_wf(*completed_outputs),
            outs == nested_text_map(*completed_outputs),
            ks == views(keys@),
            outputs.wf(),
            i <= keys.len(),
            text_map(outputs) == merged_outputs(ks.take(i as int), outs),
        decreases keys.len() - i,
    {
        proof {
            assert(ks.take(i + 1).drop_last() =~= ks.take(i as int));
            assert(ks.take(i + 1).last() == keys@[i as int]@);
        }
        match completed_outputs.get(keys[i].as_str()) {
            Some(leg) => {
                proof {
                    let j = completed_outputs.index_of(keys@[i as int]@);
                    completed_outputs.lemma_index_of(j);
                }
                outputs.extend_from(leg);
            },
            None => {},
        }
        i += 1;
    }
    assert(ks.take(keys.len() as int) =~= ks);
    outputs
}

fn result_for_keys(need: &str, keys: &Vec<String>, completed_results: &StrMap<JobResultStatus>) -> (r: JobResultStatus)
    requires
        completed_results.wf(),
    ensures
        r == result_from_keys(need@, views(keys@), *completed_results),
{
    let ghost ks = views(keys@);
    let mut legs: Vec<JobResultStatus> = Vec::new();
    let mut i: usize = 0;
    while i < keys.len()
        invariant
            completed_results.wf(),
            i <= keys.len(),
            ks == views(keys@),
            legs@ == ks.take(i as int).map_values(|k: Seq<char>| recorded(*completed_results, k)),
        decreases keys.len() - i,
    {
        let s = recorded_result(completed_results, keys[i].as_str());
        legs.push(s);
        i += 1;
        assert(legs@ =~= ks.take(i as int).map_values(|k: Seq<char>| recorded(*completed_results, k)));
    }
    assert(ks.take(keys.len() as int) =~= ks);
    if legs.len() == 0 {
        recorded_result(completed_results, need)
    } else {
        aggregate_matrix_status(legs.as_slice())
    }
}

/// The context of one need is what `needs.<need>` reports: the aggregated result and the
/// merged outputs.
pub open spec fn need_context_ok(nc: NeedContext, need: Seq<char>, jobs: Seq<PlannedJob>, results: StrMap<JobResultStatus>, outs: StrMap<StrMap<String>>) -> bool {
    &&& nc.result@ == github_result(result_from_keys(need, keys_for_id(jobs, need), results))
    &&& nc.outputs.wf()
    &&& text_map(nc.outputs) == need_outputs_spec(need, jobs, nested_text_map(outs))
}

/// The schedule keys of one job, when it has the id.
fn own_keys(job: &PlannedJob, id: &str) -> (r: Vec<String>)
    ensures
        views(r@) == keys_for_id(seq![*job], id@),
{
    let mut r: Vec<String> = Vec::new();
    assert(seq![*job].drop_last() =~= Seq::<PlannedJob>::empty());
    assert(seq![*job].last() == *job);
    assert(keys_for_id(Seq::<PlannedJob>::empty(), id@) == Seq::<Seq<char>>::empty());
    if str_eq(job.id.as_str(), id) {
        let k = schedule_key(job);
        r.push(k);
        assert(views(r@) =~= seq![k@]);
    } else {
        assert(views(r@) =~= Seq::<Seq<char>>::empty());
    }
    r
}

fn needs_context_from(job: &PlannedJob, all_jobs: Option<&Vec<PlannedJob>>, completed_results: &StrMap<JobResultStatus>, completed_outputs: &StrMap<StrMap<String>>) -> (r: StrMap<NeedContext>)
    requires
        completed_results.wf(),
        nested_wf(*completed_outputs),
    ensures
        r.wf(),
        forall|k: Seq<char>| #[trigger] r.lookup(k) is Some <==> views(job.needs@).contains(k),
        forall|k: Seq<char>| (#[trigger] r.lookup(k) matches Some(nc) ==> need_context_ok(nc, k,
            match all_jobs {
                Some(v) => v@,
                None => seq![*job],
            }, *completed_results, *completed_outputs)),
{
    let ghost jobs = match all_jobs {
        Some(v) => v@,
        None => seq![*job],
    };
    let mut r: StrMap<NeedContext> = StrMap::new();
    let mut i: usize = 0;
    while i < job.needs.len()
        invariant
            completed_results.wf(),
            nested_wf(*completed_outputs),
            jobs == (match all_jobs {
                Some(v) => v@,
                None => seq![*job],
            }),
            r.wf(),
            i <= job.needs.len(),
            forall|k: Seq<char>| #[trigger] r.lookup(k) is Some <==> views(job.needs@).take(i as int).contains(k),
            forall|k: Seq<char>| (#[trigger] r.lookup(k) matches Some(nc) ==> need_context_ok(nc, k, jobs, *completed_results, *completed_outputs)),
        decreases job.needs.len() - i,
    {
        let need = &job.needs[i];
        let keys = match all_jobs {
            Some(v) => keys_with_id(need.as_str(), v),
            None => own_keys(job, need.as_str()),
        };
        let status = result_for_keys(need.as_str(), &keys, completed_results);
        let outputs = outputs_for_keys(need.as_str(), &keys, completed_outputs);
        let nc = NeedContext { result: owned(status.as_github_result()), outputs };
        let ghost ncv = nc;
        let ghost before = r;
        r.insert(need.clone(), nc);
        proof {
            let ns0 = views(job.needs@).take(i as int);
            let ns = views(job.needs@).take(i + 1);
            assert(ns =~= ns0.push(need@));
            assert(need_context_ok(ncv, need@, jobs, *completed_results, *completed_outputs));
            assert forall|k: Seq<char>| #[trigger] r.lookup(k) is Some <==> ns.contains(k) by {
                if k == need@ {
                    assert(ns[i as int] == need@);
                } else {
                    assert(r.lookup(k) == before.lookup(k));
                    if ns.contains(k) {
                        let j = choose|j: int| 0 <= j < ns.len() && #[trigger] ns[j] == k;
                        assert(ns0[j] == k);
                    }
                    if ns0.contains(k) {
                        let j = choose|j: int| 0 <= j < ns0.len() && #[trigger] ns0[j] == k;
                        assert(ns[j] == k);
                    }
                }
            }
            assert forall|k: Seq<char>| (#[trigger] r.lookup(k) matches Some(nc2) ==> need_context_ok(nc2, k, jobs, *completed_results, *completed_outputs)) by {
                if k != need@ {
                    assert(r.lookup(k) == before.lookup(k));
                }
            }
        }
        i += 1;
    }
    assert(views(job.needs@).take(job.needs.len() as int) =~= views(job.needs@));
    r
}

/// The `needs` context of a job, matrix legs among `all_jobs` aggregated per logical job.
pub fn needs_context_for_job_with_jobs(job: &PlannedJob, all_jobs: &Vec<PlannedJob>, completed_results: &StrMap<JobResultStatus>, completed_outputs: &StrMap<StrMap<String>>) -> (r: StrMap<NeedContext>)
    requires
        completed_results.wf(),
        nested_wf(*completed_outputs),
    ensures
        r.wf(),
        forall|k: Seq<char>| #[trigger] r.lookup(k) is Some <==> views(job.needs@).contains(k),
        forall|k: Seq<char>| (#[trigger] r.lookup(k) matches Some(nc) ==> need_context_ok(nc, k, all_jobs@, *completed_results, *completed_outputs)),
{
    needs_context_from(job, Some(all_jobs), completed_results, completed_outputs)
}

/// The `needs` context of a job that is the only job considered.
pub fn needs_context_for_job(job: &PlannedJob, completed_results: &StrMap<JobResultStatus>, completed_outputs: &StrMap<StrMap<String>>) -> (r: StrMap<NeedContext>)
    requires
        completed_results.wf(),
        nested_wf(*completed_outputs),
    ensures
        r.wf(),
        forall|k: Seq<char>| #[trigger] r.lookup(k) is Some <==> views(job.needs@).contains(k),
        forall|k: Seq<char>| (#[trigger] r.lookup(k) matches Some(nc) ==> need_context_ok(nc, k, seq![*job], *completed_results, *completed_outputs)),
{
    needs_context_from(job, None, completed_results, completed_outputs)
}

} // verus!

verus! {

/// The `needs` map an expression sees: each need's outputs with its result under `__result`.
pub open spec fn needs_map_spec(needs_context: StrMap<NeedContext>) -> Map<Seq<char>, Map<Seq<char>, Seq<char>>> {
    Map::new(
        |k: Seq<char>| needs_context.lookup(k) is Some,
        |k: Seq<char>| text_map(needs_context.lookup(k)->0.outputs).insert("__result"@, needs_context.lookup(k)->0.result@),
    )
}

/// Every need's outputs are well formed.
pub open spec fn need_outputs_wf(needs_context: StrMap<NeedContext>) -> bool {
    needs_context.wf() && forall|i: int| 0 <= i < needs_context.values().len() ==> (#[trigger] needs_context.values()[i]).outputs.wf()
}

/// The expression context of a job: its matrix values, needs, env and inputs, and a macOS
/// ARM64 runner for a macOS target (else the default Linux X64 one).
pub fn expression_context_for_job(job: &PlannedJob, needs_context: &StrMap<NeedContext>, repo_root: &str) -> (r: ExpressionContext)
    requires
        job.wf(),
        need_outputs_wf(*needs_context),
    ensures
        r.wf(),
        r.repo_path matches Some(p) && p@ == repo_root@,
        text_map(r.matrix) == (match job.matrix_context {
            Some(m) => text_map(m),
            None => Map::<Seq<char>, Seq<char>>::empty(),
        }),
        nested_text_map(r.needs) == needs_map_spec(*needs_context),
        text_map(r.env) == text_map(job.env),
        text_map(r.inputs) == text_map(job.inputs),
        text_map(r.secrets) == Map::<Seq<char>, Seq<char>>::empty(),
        text_map(r.vars) == Map::<Seq<char>, Seq<char>>::empty(),
        job.target is MacOs ==> r.runner.os@ == "macOS"@ && r.runner.arch@ == "ARM64"@,
        !(job.target is MacOs) ==> r.runner.os@ == "Linux"@ && r.runner.arch@ == "X64"@,
{
    let mut needs: StrMap<StrMap<String>> = StrMap::new();
    let mut i: usize = 0;
    assert(nested_text_map(needs) =~= Map::<Seq<char>, Map<Seq<char>, Seq<char>>>::empty());
    while i < needs_context.len()
        invariant
            need_outputs_wf(*needs_context),
            nested_wf(needs),
            i <= needs_context.keys().len(),
            forall|k: Seq<char>| #[trigger] nested_text_map(needs).contains_key(k) <==> exists|j: int| 0 <= j < i && needs_context.keys()[j] == k,
            forall|k: Seq<char>| #[trigger] nested_text_map(needs).contains_key(k) ==> nested_text_map(needs)[k] == needs_map_spec(*needs_context)[k],
        decreases needs_context.keys().len() - i,
    {
        let id = needs_context.key_at(i);
        let need = needs_context.value_at(i);
        proof {
            needs_context.lemma_index_of(i as int);
        }
        let mut values = need.outputs.duplicate();
        let ghost b = values;
        values.insert(owned("__result"), need.result.clone());
        proof {
            lemma_text_map_insert(b, values, "__result"@, need.result@);
        }
        let ghost before = needs;
        let ghost vv = values;
        needs.insert(id.clone(), values);
        proof {
            assert(nested_wf(needs)) by {
                assert forall|j: int| 0 <= j < needs.values().len() implies (#[trigger] needs.values()[j]).wf() by {
                    let k = needs.keys()[j];
                    needs.lemma_index_of(j);
                    if k != id@ {
                        assert(needs.lookup(k) == before.lookup(k));
                        let j0 = before.index_of(k);
                        before.lemma_index_of(j0);
                    }
                }
            }
            assert forall|k: Seq<char>| #[trigger] nested_text_map(needs).contains_key(k) <==> exists|j: int| 0 <= j < i + 1 && needs_context.keys()[j] == k by {
                if k != id@ {
                    assert(needs.lookup(k) == before.lookup(k));
                    assert(nested_text_map(needs).contains_key(k) == nested_text_map(before).contains_key(k));
                    if exists|j: int| 0 <= j < i + 1 && needs_context.keys()[j] == k {
                        let j = choose|j: int| 0 <= j < i + 1 && needs_context.keys()[j] == k;
                        assert(j != i);
                    }
                }
            }
            assert forall|k: Seq<char>| #[trigger] nested_text_map(needs).contains_key(k) implies nested_text_map(needs)[k] == needs_map_spec(*needs_context)[k] by {
                if k != id@ {
                    assert(needs.lookup(k) == before.lookup(k));
                    assert(nested_text_map(before).contains_key(k));
                }
            }
        }
        i += 1;
    }
    proof {
        assert forall|k: Seq<char>| #[trigger] nested_text_map(needs).contains_key(k) == needs_map_spec(*needs_context).contains_key(k) by {
            if needs_context.has_key(k) {
                let j = needs_context.index_of(k);
                needs_context.lemma_index_of(j);
            }
        }
        assert(nested_text_map(needs) =~= needs_map_spec(*needs_context));
    }
    let runner = match &job.target {
        PlannedJobTarget::MacOs { .. } => RunnerContext { os: owned("macOS"), arch: owned("ARM64") },
        _ => RunnerContext::default(),
    };
    let matrix = match &job.matrix_context {
        Some(m) => m.duplicate(),
        None => {
            let e: StrMap<String> = StrMap::new();
            assert(text_map(e) =~= Map::<Seq<char>, Seq<char>>::empty());
            e
        },
    };
    let secrets: StrMap<String> = StrMap::new();
    let vars: StrMap<String> = StrMap::new();
    assert(text_map(secrets) =~= Map::<Seq<char>, Seq<char>>::empty());
    assert(text_map(vars) =~= Map::<Seq<char>, Seq<char>>::empty());
    ExpressionContext {
        repo_path: Some(owned(repo_root)),
        secrets,
        matrix,
        needs,
        inputs: job.inputs.duplicate(),
        vars,
        runner,
        env: job.env.duplicate(),
    }
}

// ---------------------------------------------------------------------------
// Whether a job runs
// ---------------------------------------------------------------------------

/// Every needed job succeeded.
pub open spec fn all_succeeded(results: StrMap<JobResultStatus>) -> bool {
    forall|i: int| 0 <= i < results.values().len() ==> results.values()[i] == JobResultStatus::Success
}

/// Whether every recorded result is a success.
pub fn needs_all_succeeded(needs_results: &StrMap<JobResultStatus>) -> (r: bool)
    ensures
        r == all_succeeded(*needs_results),
{
    let mut i: usize = 0;
    while i < needs_results.len()
        invariant
            i <= needs_results.values().len(),
            forall|j: int| 0 <= j < i ==> needs_results.values()[j] == JobResultStatus::Success,
        decreases needs_results.values().len() - i,
    {
        if *needs_results.value_at(i) != JobResultStatus::Success {
            return false;
        }
        i += 1;
    }
    true
}

/// The decision once a job's needs have finished: without an `if:`, the job runs only when
/// every need succeeded; with one, a status function (`success()`, `failure()`, `always()`,
/// `cancelled()`) lets the condition alone decide, and otherwise the needs must also all have
/// succeeded. `condition_allows` is what the condition evaluated to.
pub open spec fn run_decision(default_success: bool, condition: Option<Seq<char>>, status_function_present: bool, condition_allows: bool) -> Option<Seq<char>> {
    match condition {
        None => if default_success { None } else { Some("one or more needed jobs did not succeed"@) },
        Some(c) => if (if status_function_present { condition_allows } else { default_success && condition_allows }) {
            None
        } else {
            Some("job condition evaluated to false: "@ + c)
        },
    }
}

/// Needs gate a job: without an `if:` condition it runs exactly when its needs all succeeded
/// and is otherwise skipped because of them; a condition that calls no status function lets
/// it run only when its needs all succeeded too.
pub proof fn lemma_needs_gate_runs(default_success: bool, condition: Option<Seq<char>>, status_function_present: bool,
    condition_allows: bool)
    ensures
        condition is None ==> (run_decision(default_success, condition, status_function_present, condition_allows) is None
            <==> default_success),
        condition is None && !default_success ==> run_decision(default_success, condition, status_function_present,
            condition_allows) == Some("one or more needed jobs did not succeed"@),
        !status_function_present && run_decision(default_success, condition, status_function_present, condition_allows)
            is None ==> default_success,
{
}

/// Whether a job runs, given whether its needs all succeeded, its normalized `if:` condition,
/// whether that condition calls a status function, and what it evaluated to.
pub fn decide_from_condition(default_success: bool, condition: Option<&str>, status_function_present: bool, condition_allows: bool) -> (r: JobRunDecision)
    ensures
        match r {
            JobRunDecision::Run => run_decision(default_success, match condition {
                Some(c) => Some(c@),
                None => None,
            }, status_function_present, condition_allows) is None,
            JobRunDecision::Skip { reason } => run_decision(default_success, match condition {
                Some(c) => Some(c@),
                None => None,
            }, status_function_present, condition_allows) == Some(reason@),
        },
{
    match condition {
        None => if default_success {
            JobRunDecision::Run
        } else {
            JobRunDecision::Skip { reason: owned("one or more needed jobs did not succeed") }
        },
        Some(c) => {
            let should_run = if status_function_present {
                condition_allows
            } else {
                default_success && condition_allows
            };
            if should_run {
                JobRunDecision::Run
            } else {
                JobRunDecision::Skip { reason: cat("job condition evaluated to false: ", c) }
            }
        },
    }
}

/// The results of the needs as the words a condition compares (`success`, `failure`, ...).
pub fn needs_result_words(needs_results: &StrMap<JobResultStatus>) -> (r: StrMap<String>)
    requires
        needs_results.wf(),
    ensures
        r.wf(),
        text_map(r) == Map::new(
            |k: Seq<char>| needs_results.lookup(k) is Some,
            |k: Seq<char>| github_result(needs_results.lookup(k)->0),
        ),
{
    let mut r: StrMap<String> = StrMap::new();
    let mut i: usize = 0;
    let ghost target = Map::new(
        |k: Seq<char>| needs_results.lookup(k) is Some,
        |k: Seq<char>| github_result(needs_results.lookup(k)->0),
    );
    while i < needs_results.len()
        invariant
            needs_results.wf(),
            r.wf(),
            i <= needs_results.keys().len(),
            target == Map::new(
                |k: Seq<char>| needs_results.lookup(k) is Some,
                |k: Seq<char>| github_result(needs_results.lookup(k)->0),
            ),
            forall|k: Seq<char>| #[trigger] text_map(r).contains_key(k) <==> exists|j: int| 0 <= j < i && needs_results.keys()[j] == k,
            forall|k: Seq<char>| #[trigger] text_map(r).contains_key(k) ==> text_map(r)[k] == target[k],
        decreases needs_results.keys().len() - i,
    {
        let id = needs_results.key_at(i);
        let status = *needs_results.value_at(i);
        proof {
            needs_results.lemma_index_of(i as int);
        }
        let word = owned(status.as_github_result());
        let ghost before = r;
        let ghost wv = word@;
        r.insert(id.clone(), word);
        proof {
            lemma_text_map_insert(before, r, id@, wv);
            assert forall|k: Seq<char>| #[trigger] text_map(r).contains_key(k) <==> exists|j: int| 0 <= j < i + 1 && needs_results.keys()[j] == k by {
                if k != id@ && exists|j: int| 0 <= j < i + 1 && needs_results.keys()[j] == k {
                    let j = choose|j: int| 0 <= j < i + 1 && needs_results.keys()[j] == k;
                    assert(j != i);
                }
            }
        }
        i += 1;
    }
    proof {
        assert forall|k: Seq<char>| #[trigger] text_map(r).contains_key(k) == target.contains_key(k) by {
            if needs_results.has_key(k) {
                let j = needs_results.index_of(k);
                needs_results.lemma_index_of(j);
            }
        }
        assert(text_map(r) =~= target);
    }
    r
}

} // verus!

verus! {

/// The `needs` context a job condition sees: each need with its result word under `__result`.
pub fn needs_result_contexts(needs_results: &StrMap<JobResultStatus>) -> (r: StrMap<StrMap<String>>)
    requires
        needs_results.wf(),
    ensures
        nested_wf(r),
        nested_text_map(r) == Map::new(
            |k: Seq<char>| needs_results.lookup(k) is Some,
            |k: Seq<char>| Map::<Seq<char>, Seq<char>>::empty().insert("__result"@, github_result(needs_results.lookup(k)->0)),
        ),
{
    let mut r: StrMap<StrMap<String>> = StrMap::new();
    let mut i: usize = 0;
    let ghost target = Map::new(
        |k: Seq<char>| needs_results.lookup(k) is Some,
        |k: Seq<char>| Map::<Seq<char>, Seq<char>>::empty().insert("__result"@, github_result(needs_results.lookup(k)->0)),
    );
    while i < needs_results.len()
        invariant
            needs_results.wf(),
            nested_wf(r),
            i <= needs_results.keys().len(),
            target == Map::new(
                |k: Seq<char>| needs_results.lookup(k) is Some,
                |k: Seq<char>| Map::<Seq<char>, Seq<char>>::empty().insert("__result"@, github_result(needs_results.lookup(k)->0)),
            ),
            forall|k: Seq<char>| #[trigger] nested_text_map(r).contains_key(k) <==> exists|j: int| 0 <= j < i && needs_results.keys()[j] == k,
            forall|k: Seq<char>| #[trigger] nested_text_map(r).contains_key(k) ==> nested_text_map(r)[k] == target[k],
        decreases needs_results.keys().len() - i,
    {
        let id = needs_results.key_at(i);
        let status = *needs_results.value_at(i);
        proof {
            needs_results.lemma_index_of(i as int);
        }
        let mut inner: StrMap<String> = StrMap::new();
        let ghost e = inner;
        assert(text_map(e) =~= Map::<Seq<char>, Seq<char>>::empty());
        inner.insert(owned("__result"), owned(status.as_github_result()));
        proof {
            lemma_text_map_insert(e, inner, "__result"@, github_result(status));
        }
        let ghost before = r;
        r.insert(id.clone(), inner);
        proof {
            assert(nested_wf(r)) by {
                assert forall|j: int| 0 <= j < r.values().len() implies (#[trigger] r.values()[j]).wf() by {
                    let k = r.keys()[j];
                    r.lemma_index_of(j);
                    if k != id@ {
                        assert(r.lookup(k) == before.lookup(k));
                        let j0 = before.index_of(k);
                        before.lemma_index_of(j0);
                    }
                }
            }
            assert forall|k: Seq<char>| #[trigger] nested_text_map(r).contains_key(k) <==> exists|j: int| 0 <= j < i + 1 && needs_results.keys()[j] == k by {
                if k != id@ {
                    assert(r.lookup(k) == before.lookup(k));
                    assert(nested_text_map(r).contains_key(k) == nested_text_map(before).contains_key(k));
                    if exists|j: int| 0 <= j < i + 1 && needs_results.keys()[j] == k {
                        let j = choose|j: int| 0 <= j < i + 1 && needs_results.keys()[j] == k;
                        assert(j != i);
                    }
                }
            }
            assert forall|k: Seq<char>| #[trigger] nested_text_map(r).contains_key(k) implies nested_text_map(r)[k] == target[k] by {
                if k != id@ {
                    assert(r.lookup(k) == before.lookup(k));
                    assert(nested_text_map(before).contains_key(k));
                }
            }
        }
        i += 1;
    }
    proof {
        assert forall|k: Seq<char>| #[trigger] nested_text_map(r).contains_key(k) == target.contains_key(k) by {
            if needs_results.has_key(k) {
                let j = needs_results.index_of(k);
                needs_results.lemma_index_of(j);
            }
        }
        assert(nested_text_map(r) =~= target);
    }
    r
}

} // verus!

verus! {

/// Whether a job condition calls a status function.
pub fn contains_status_check_function(condition: &str) -> (r: bool)
    ensures
        r == crate::expr::status_check(condition@),
{
    crate::expr::uses_status_check_function(condition)
}

/// The aggregated result of each need of a job.
pub open spec fn need_statuses(job: PlannedJob, all_jobs: Seq<PlannedJob>, completed: StrMap<JobResultStatus>) -> Map<Seq<char>, JobResultStatus> {
    Map::new(|k: Seq<char>| views(job.needs@).contains(k), |k: Seq<char>| need_result_spec(k, all_jobs, completed))
}

/// Every result is a success.
pub open spec fn every_success(m: Map<Seq<char>, JobResultStatus>) -> bool {
    forall|k: Seq<char>| #[trigger] m.contains_key(k) ==> m[k] == JobResultStatus::Success
}

/// The contexts a job's condition is evaluated in, given its needs' results: the default
/// context with `needs.<id>.result` set to each result, and `success()` / `failure()` telling
/// whether all needs succeeded / any failed.
pub open spec fn condition_context(c: ExpressionContext, results: Map<Seq<char>, JobResultStatus>) -> bool {
    let words = Map::new(|k: Seq<char>| results.contains_key(k), |k: Seq<char>| github_result(results[k]));
    &&& c.wf()
    &&& c.repo_path is None
    &&& text_map(c.secrets) == Map::<Seq<char>, Seq<char>>::empty()
    &&& text_map(c.matrix) == Map::<Seq<char>, Seq<char>>::empty()
    &&& text_map(c.inputs) == Map::<Seq<char>, Seq<char>>::empty()
    &&& text_map(c.vars) == Map::<Seq<char>, Seq<char>>::empty()
    &&& c.runner.os@ == "Linux"@
    &&& c.runner.arch@ == "X64"@
    &&& nested_text_map(c.needs) == Map::new(
        |k: Seq<char>| results.contains_key(k),
        |k: Seq<char>| Map::<Seq<char>, Seq<char>>::empty().insert("__result"@, github_result(results[k])),
    )
    &&& text_map(c.env) == Map::<Seq<char>, Seq<char>>::empty()
        .insert("__all_success"@, bool_text(all_success(words)))
        .insert("__any_failure"@, bool_text(any_failure(words)))
}

/// A decision as the reason it skips, if it does.
pub open spec fn decision_view(d: JobRunDecision) -> Option<Seq<char>> {
    match d {
        JobRunDecision::Run => None,
        JobRunDecision::Skip { reason } => Some(reason@),
    }
}

/// Whether a job runs, judged against all planned jobs (matrix legs of a need aggregated): its
/// needs must all have succeeded unless its `if:` condition calls a status function, and the
/// condition must hold; or the fact the condition's evaluation still needs.
pub fn decide_job_run_with_jobs(job: &PlannedJob, all_jobs: &Vec<PlannedJob>, completed_results: &StrMap<JobResultStatus>, facts: &EvalFacts) -> (r: Result<JobRunDecision, EvalQuery>)
    requires
        completed_results.wf(),
    ensures
        match job.if_condition {
            None => r matches Ok(d) && decision_view(d) == run_decision(
                every_success(need_statuses(*job, all_jobs@, *completed_results)), None, false, true),
            Some(cond) => exists|c: ExpressionContext| #![trigger condition_context(c, need_statuses(*job, all_jobs@, *completed_results))]
                condition_context(c, need_statuses(*job, all_jobs@, *completed_results)) && match r {
                    Ok(d) => expr_value(normalized_if(cond@), c, *facts) matches Ok(v) && decision_view(d) == run_decision(
                        every_success(need_statuses(*job, all_jobs@, *completed_results)),
                        Some(normalized_if(cond@)),
                        crate::expr::status_check(normalized_if(cond@)),
                        truthy(v),
                    ),
                    Err(q) => expr_value(normalized_if(cond@), c, *facts) == Err::<Seq<char>, QueryView>(query_view(q)),
                },
        },
{
    let needs_results = aggregated_needs_results(job, all_jobs, completed_results);
    let default_success = needs_all_succeeded(&needs_results);
    let ghost statuses = need_statuses(*job, all_jobs@, *completed_results);
    proof {
        assert(status_map(needs_results) =~= statuses);
        assert(default_success == every_success(statuses)) by {
            if default_success {
                assert forall|k: Seq<char>| #[trigger] statuses.contains_key(k) implies statuses[k] == JobResultStatus::Success by {
                    assert(status_map(needs_results).contains_key(k));
                    let j = needs_results.index_of(k);
                    assert(needs_results.values()[j] == JobResultStatus::Success);
                }
            } else {
                let i = choose|i: int| 0 <= i < needs_results.values().len() && needs_results.values()[i] != JobResultStatus::Success;
                needs_results.lemma_index_of(i);
                let k = needs_results.keys()[i];
                assert(status_map(needs_results).contains_key(k));
            }
        }
    }
    match &job.if_condition {
        None => Ok(decide_from_condition(default_success, None, false, true)),
        Some(cond) => {
            let condition = normalize_job_if(cond.as_str());
            let status = contains_status_check_function(condition.as_str());
            let words = needs_result_words(&needs_results);
            let contexts = needs_result_contexts(&needs_results);
            let ghost contexts_v = contexts;
            let ghost word_map = Map::new(|k: Seq<char>| statuses.contains_key(k), |k: Seq<char>| github_result(statuses[k]));
            proof {
                assert(text_map(words) =~= word_map);
            }
            let outcome = evaluate_job_if(condition.as_str(), &words, contexts, facts);
            proof {
                let c = choose|c: ExpressionContext| #![trigger job_if_context_ok(c, words, contexts_v)]
                    job_if_context_ok(c, words, contexts_v) && match outcome {
                        Ok(b) => expr_value(condition@, c, *facts) matches Ok(v) && b == truthy(v),
                        Err(q) => expr_value(condition@, c, *facts) == Err::<Seq<char>, QueryView>(query_view(q)),
                    };
                assert(nested_text_map(c.needs) =~= Map::new(
                    |k: Seq<char>| statuses.contains_key(k),
                    |k: Seq<char>| Map::<Seq<char>, Seq<char>>::empty().insert("__result"@, github_result(statuses[k])),
                ));
                assert(condition_context(c, statuses));
            }
            match outcome {
                Ok(allows) => Ok(decide_from_condition(default_success, Some(condition.as_str()), status, allows)),
                Err(q) => Err(q),
            }
        },
    }
}

} // verus!
