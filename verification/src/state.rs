//! The run-result file written after a run.
use crate::strmap::StrSet;
use crate::json::{lemma_normalized_entries_drop, input_entries_view, input_items_view, lemma_input_entries_view, lemma_input_items_view,
    lemma_value_items_view, normalized_entries, out_of, value_entries_view, value_items_view, JIn, Json, JsonInput,
    JsonValue};
use crate::text::{is_prefix, join_path, path_join, starts_with, str_eq};
use vstd::prelude::*;

verus! {

/// The version of the run-result format.
pub const RUN_RESULT_SCHEMA_VERSION: u8 = 1;

/// One step in the run-result file.
#[derive(Debug, Clone, PartialEq, Eq)]
pub struct RunResultStepEntry {
    pub name: String,
    pub status: StepResultStatus,
    pub log_path: Option<String>,
}

/// How a step ended.
#[derive(Debug, Clone, Copy, PartialEq, Eq, Structural)]
pub enum StepResultStatus {
    Passed,
    Failed,
    Skipped,
}

/// One job in the run-result file.
#[derive(Debug, Clone, PartialEq, Eq)]
pub struct RunResultJobEntry {
    pub name: String,
    pub workflow: String,
    pub status: JobResultStatus,
    pub duration_ms: u64,
    pub failing_step: Option<String>,
    pub debug_log_path: Option<String>,
    pub steps: Option<Vec<RunResultStepEntry>>,
}

/// Whether a job, or the run, passed.
#[derive(Debug, Clone, Copy, PartialEq, Eq, Structural)]
pub enum JobResultStatus {
    Passed,
    Failed,
}

/// The run-result file.
#[derive(Debug, Clone, PartialEq, Eq)]
pub struct RunResultFile {
    pub schema_version: u8,
    pub repo: String,
    pub branch: String,
    pub worktree_path: String,
    pub head_sha: String,
    pub started_at: String,
    pub finished_at: String,
    pub status: JobResultStatus,
    pub jobs: Vec<RunResultJobEntry>,
}

/// What a finished run reports.
#[derive(Debug, Clone, PartialEq, Eq)]
pub struct RunResultInput {
    pub repo: String,
    pub branch: String,
    pub worktree_path: String,
    pub head_sha: String,
    pub started_at: String,
    pub finished_at: String,
    pub results: Vec<JobResultInput>,
}

/// What a finished job reports.
#[derive(Debug, Clone, PartialEq, Eq)]
pub struct JobResultInput {
    pub name: String,
    pub workflow: String,
    pub succeeded: bool,
    pub duration_ms: u64,
    pub failing_step: Option<String>,
    pub debug_log_path: Option<String>,
    pub steps: Vec<StepResultInput>,
}

/// What a finished step reports.
#[derive(Debug, Clone, PartialEq, Eq)]
pub struct StepResultInput {
    pub name: String,
    pub status: StepResultStatus,
    pub log_path: Option<String>,
}

/// A path is kept only when it exists.
pub open spec fn kept_path(p: Option<String>, existing: Set<Seq<char>>) -> Option<Seq<char>> {
    match p {
        Some(s) => if existing.contains(s@) { Some(s@) } else { None },
        None => None,
    }
}

/// An optional string as optional text.
pub open spec fn opt_text(p: Option<String>) -> Option<Seq<char>> {
    match p {
        Some(s) => Some(s@),
        None => None,
    }
}

/// A path made absolute against the working directory.
pub open spec fn absolute_spec(path: Seq<char>, cwd: Seq<char>) -> Seq<char> {
    if is_prefix("/"@, path) {
        path
    } else {
        path_join(cwd, path)
    }
}

fn kept(p: &Option<String>, existing_paths: &StrSet) -> (r: Option<String>)
    requires
        existing_paths.wf(),
    ensures
        opt_text(r) == kept_path(*p, existing_paths.members()),
{
    match p {
        Some(s) => if existing_paths.contains(s.as_str()) {
            Some(s.clone())
        } else {
            None
        },
        None => None,
    }
}

/// The step entry of a step result.
pub open spec fn step_entry_ok(e: RunResultStepEntry, s: StepResultInput, existing: Set<Seq<char>>) -> bool {
    e.name@ == s.name@ && e.status == s.status && opt_text(e.log_path) == kept_path(s.log_path, existing)
}

/// The job entry of a job result: passed when it succeeded, its steps listed only when there
/// are any, and its log paths kept only when they exist.
pub open spec fn job_entry_ok(e: RunResultJobEntry, j: JobResultInput, existing: Set<Seq<char>>) -> bool {
    &&& e.name@ == j.name@
    &&& e.workflow@ == j.workflow@
    &&& e.status == (if j.succeeded { JobResultStatus::Passed } else { JobResultStatus::Failed })
    &&& e.duration_ms == j.duration_ms
    &&& opt_text(e.failing_step) == opt_text(j.failing_step)
    &&& opt_text(e.debug_log_path) == kept_path(j.debug_log_path, existing)
    &&& match e.steps {
        None => j.steps@.len() == 0,
        Some(steps) => j.steps@.len() > 0 && steps@.len() == j.steps@.len() && forall|i: int|
            0 <= i < steps@.len() ==> step_entry_ok(#[trigger] steps@[i], j.steps@[i], existing),
    }
}

fn job_entry(result: &JobResultInput, existing_paths: &StrSet) -> (e: RunResultJobEntry)
    requires
        existing_paths.wf(),
    ensures
        job_entry_ok(e, *result, existing_paths.members()),
{
    let steps = if result.steps.len() == 0 {
        None
    } else {
        let mut entries: Vec<RunResultStepEntry> = Vec::new();
        let mut i: usize = 0;
        while i < result.steps.len()
            invariant
                existing_paths.wf(),
                i <= result.steps.len(),
                entries@.len() == i,
                forall|k: int| 0 <= k < i ==> step_entry_ok(#[trigger] entries@[k], result.steps@[k], existing_paths.members()),
            decreases result.steps.len() - i,
        {
            let step = &result.steps[i];
            entries.push(RunResultStepEntry {
                name: step.name.clone(),
                status: step.status,
                log_path: kept(&step.log_path, existing_paths),
            });
            i += 1;
        }
        Some(entries)
    };
    RunResultJobEntry {
        name: result.name.clone(),
        workflow: result.workflow.clone(),
        status: if result.succeeded { JobResultStatus::Passed } else { JobResultStatus::Failed },
        duration_ms: result.duration_ms,
        failing_step: match &result.failing_step {
            Some(s) => Some(s.clone()),
            None => None,
        },
        debug_log_path: kept(&result.debug_log_path, existing_paths),
        steps,
    }
}

/// The run-result file of a run: every job entry as its result gives it, the run passed only
/// when every job succeeded, and the worktree path made absolute against `cwd`. Which log
/// paths exist on disk is given by `existing_paths`.
pub fn build_run_result_json(input: &RunResultInput, existing_paths: &StrSet, cwd: &str) -> (r: RunResultFile)
    requires
        existing_paths.wf(),
    ensures
        r.schema_version == RUN_RESULT_SCHEMA_VERSION,
        r.repo@ == input.repo@,
        r.branch@ == input.branch@,
        r.worktree_path@ == absolute_spec(input.worktree_path@, cwd@),
        r.head_sha@ == input.head_sha@,
        r.started_at@ == input.started_at@,
        r.finished_at@ == input.finished_at@,
        r.status == (if forall|i: int| 0 <= i < input.results@.len() ==> (#[trigger] input.results@[i]).succeeded {
            JobResultStatus::Passed
        } else {
            JobResultStatus::Failed
        }),
        r.jobs@.len() == input.results@.len(),
        forall|i: int| 0 <= i < r.jobs@.len() ==> job_entry_ok(#[trigger] r.jobs@[i], input.results@[i], existing_paths.members()),
{
    let mut jobs: Vec<RunResultJobEntry> = Vec::new();
    let mut all_ok = true;
    let mut i: usize = 0;
    while i < input.results.len()
        invariant
            existing_paths.wf(),
            i <= input.results.len(),
            jobs@.len() == i,
            all_ok == forall|k: int| 0 <= k < i ==> (#[trigger] input.results@[k]).succeeded,
            forall|k: int| 0 <= k < i ==> job_entry_ok(#[trigger] jobs@[k], input.results@[k], existing_paths.members()),
        decreases input.results.len() - i,
    {
        let result = &input.results[i];
        jobs.push(job_entry(result, existing_paths));
        if !result.succeeded {
            all_ok = false;
        }
        i += 1;
    }
    proof {
        reveal_strlit("/");
    }
    let worktree_path = if starts_with(input.worktree_path.as_str(), "/") {
        input.worktree_path.clone()
    } else {
        join_path(cwd, input.worktree_path.as_str())
    };
    RunResultFile {
        schema_version: RUN_RESULT_SCHEMA_VERSION,
        repo: input.repo.clone(),
        branch: input.branch.clone(),
        worktree_path,
        head_sha: input.head_sha.clone(),
        started_at: input.started_at.clone(),
        finished_at: input.finished_at.clone(),
        status: if all_ok { JobResultStatus::Passed } else { JobResultStatus::Failed },
        jobs,
    }
}

/// A key the run result's top level leaves out when normalized.
pub open spec fn run_dropped_key(k: Seq<char>) -> bool {
    k == "worktreePath"@ || k == "startedAt"@ || k == "finishedAt"@ || k == "headSha"@
}

/// A key a job of the run result leaves out when normalized.
pub open spec fn job_dropped_key(k: Seq<char>) -> bool {
    k == "durationMs"@ || k == "debugLogPath"@
}

/// A step of the run result without its log path, when it is an object.
pub open spec fn step_normalized(v: JIn) -> Json {
    match v {
        JIn::Object(es, _) => Json::Object(normalized_entries(es, |k: Seq<char>| k == "logPath"@, |k: Seq<char>, x: JIn| out_of(x))),
        _ => out_of(v),
    }
}

/// The steps of a job with their log paths dropped, when they are an array.
pub open spec fn steps_normalized(v: JIn) -> Json {
    match v {
        JIn::Array(items, _) => Json::Array(items.map_values(|x: JIn| step_normalized(x))),
        _ => out_of(v),
    }
}

/// A job of the run result without its duration and debug log path, its steps normalized,
/// when it is an object.
pub open spec fn job_normalized(v: JIn) -> Json {
    match v {
        JIn::Object(es, _) => Json::Object(normalized_entries(es, |k: Seq<char>| job_dropped_key(k),
            |k: Seq<char>, x: JIn| if k == "steps"@ { steps_normalized(x) } else { out_of(x) })),
        _ => out_of(v),
    }
}

/// The jobs of the run result normalized, when they are an array.
pub open spec fn jobs_normalized(v: JIn) -> Json {
    match v {
        JIn::Array(items, _) => Json::Array(items.map_values(|x: JIn| job_normalized(x))),
        _ => out_of(v),
    }
}

/// The run result without the fields that change from run to run.
pub open spec fn run_result_normalized(v: JIn) -> Json {
    match v {
        JIn::Object(es, _) => Json::Object(normalized_entries(es, |k: Seq<char>| run_dropped_key(k),
            |k: Seq<char>, x: JIn| if k == "jobs"@ { jobs_normalized(x) } else { out_of(x) })),
        _ => out_of(v),
    }
}

fn is_run_dropped_key(k: &str) -> (r: bool)
    ensures
        r == run_dropped_key(k@),
{
    str_eq(k, "worktreePath") || str_eq(k, "startedAt") || str_eq(k, "finishedAt") || str_eq(k, "headSha")
}

fn is_job_dropped_key(k: &str) -> (r: bool)
    ensures
        r == job_dropped_key(k@),
{
    str_eq(k, "durationMs") || str_eq(k, "debugLogPath")
}

fn normalize_step(v: &JsonInput) -> (r: JsonValue)
    ensures
        r@ == step_normalized(v@),
{
    match v {
        JsonInput::Object(entries, _) => {
            proof { lemma_input_entries_view(entries@); }
            let ghost es = input_entries_view(entries@);
            let mut out: Vec<(String, JsonValue)> = Vec::new();
            let mut i: usize = 0;
            assert(es.take(0) =~= Seq::<(Seq<char>, JIn)>::empty());
            assert(value_entries_view(out@) =~= Seq::<(Seq<char>, Json)>::empty());
            while i < entries.len()
                invariant
                    i <= entries.len(),
                    es == input_entries_view(entries@),
                    es.len() == entries.len(),
                    forall|j: int| 0 <= j < entries.len() ==> #[trigger] es[j] == (entries[j].0@, entries[j].1@),
                    value_entries_view(out@) == normalized_entries(es.take(i as int), |k: Seq<char>| k == "logPath"@, |k: Seq<char>, x: JIn| out_of(x)),
                decreases entries.len() - i,
            {
                assert(es.take(i + 1).drop_last() =~= es.take(i as int));
                assert(es.take(i + 1).last() == es[i as int]);
                if !str_eq(entries[i].0.as_str(), "logPath") {
                    let x = entries[i].1.to_output();
                    let ghost before = out@;
                    out.push((entries[i].0.clone(), x));
                    proof {
                        assert(out@.drop_last() =~= before);
                        assert(value_entries_view(out@) == value_entries_view(before).push((entries[i as int].0@, out_of(entries[i as int].1@))));
                    }
                }
                i += 1;
            }
            assert(es.take(entries.len() as int) =~= es);
            JsonValue::Object(out)
        },
        _ => v.to_output(),
    }
}

fn normalize_steps(v: &JsonInput) -> (r: JsonValue)
    ensures
        r@ == steps_normalized(v@),
{
    match v {
        JsonInput::Array(items, _) => {
            proof { lemma_input_items_view(items@); }
            let mut out: Vec<JsonValue> = Vec::new();
            let mut i: usize = 0;
            while i < items.len()
                invariant
                    i <= items.len(),
                    out.len() == i,
                    forall|j: int| 0 <= j < i ==> #[trigger] out[j]@ == step_normalized(items[j]@),
                decreases items.len() - i,
            {
                out.push(normalize_step(&items[i]));
                i += 1;
            }
            proof {
                lemma_value_items_view(out@);
                lemma_input_items_view(items@);
                assert(value_items_view(out@) =~= input_items_view(items@).map_values(|x: JIn| step_normalized(x)));
            }
            JsonValue::Array(out)
        },
        _ => v.to_output(),
    }
}

fn normalize_job(v: &JsonInput) -> (r: JsonValue)
    ensures
        r@ == job_normalized(v@),
{
    match v {
        JsonInput::Object(entries, _) => {
            proof { lemma_input_entries_view(entries@); }
            let ghost es = input_entries_view(entries@);
            let mut out: Vec<(String, JsonValue)> = Vec::new();
            let mut i: usize = 0;
            assert(es.take(0) =~= Seq::<(Seq<char>, JIn)>::empty());
            assert(value_entries_view(out@) =~= Seq::<(Seq<char>, Json)>::empty());
            while i < entries.len()
                invariant
                    i <= entries.len(),
                    es == input_entries_view(entries@),
                    es.len() == entries.len(),
                    forall|j: int| 0 <= j < entries.len() ==> #[trigger] es[j] == (entries[j].0@, entries[j].1@),
                    value_entries_view(out@) == normalized_entries(es.take(i as int), |k: Seq<char>| job_dropped_key(k),
                        |k: Seq<char>, x: JIn| if k == "steps"@ { steps_normalized(x) } else { out_of(x) }),
                decreases entries.len() - i,
            {
                assert(es.take(i + 1).drop_last() =~= es.take(i as int));
                assert(es.take(i + 1).last() == es[i as int]);
                if !is_job_dropped_key(entries[i].0.as_str()) {
                    let x = if str_eq(entries[i].0.as_str(), "steps") {
                        normalize_steps(&entries[i].1)
                    } else {
                        entries[i].1.to_output()
                    };
                    let ghost before = out@;
                    out.push((entries[i].0.clone(), x));
                    proof {
                        assert(out@.drop_last() =~= before);
                        assert(value_entries_view(out@) == value_entries_view(before).push((entries[i as int].0@, x@)));
                    }
                }
                i += 1;
            }
            assert(es.take(entries.len() as int) =~= es);
            JsonValue::Object(out)
        },
        _ => v.to_output(),
    }
}

fn normalize_jobs(v: &JsonInput) -> (r: JsonValue)
    ensures
        r@ == jobs_normalized(v@),
{
    match v {
        JsonInput::Array(items, _) => {
            proof { lemma_input_items_view(items@); }
            let mut out: Vec<JsonValue> = Vec::new();
            let mut i: usize = 0;
            while i < items.len()
                invariant
                    i <= items.len(),
                    out.len() == i,
                    forall|j: int| 0 <= j < i ==> #[trigger] out[j]@ == job_normalized(items[j]@),
                decreases items.len() - i,
            {
                out.push(normalize_job(&items[i]));
                i += 1;
            }
            proof {
                lemma_value_items_view(out@);
                lemma_input_items_view(items@);
                assert(value_items_view(out@) =~= input_items_view(items@).map_values(|x: JIn| job_normalized(x)));
            }
            JsonValue::Array(out)
        },
        _ => v.to_output(),
    }
}

/// The run result without the fields that change from run to run: `worktreePath`,
/// `startedAt`, `finishedAt` and `headSha` at the top, each job's `durationMs` and
/// `debugLogPath`, and each step's `logPath`.
pub fn normalize_run_result(value: &JsonInput) -> (r: JsonValue)
    ensures
        r@ == run_result_normalized(value@),
{
    match value {
        JsonInput::Object(entries, _) => {
            proof { lemma_input_entries_view(entries@); }
            let ghost es = input_entries_view(entries@);
            let mut out: Vec<(String, JsonValue)> = Vec::new();
            let mut i: usize = 0;
            assert(es.take(0) =~= Seq::<(Seq<char>, JIn)>::empty());
            assert(value_entries_view(out@) =~= Seq::<(Seq<char>, Json)>::empty());
            while i < entries.len()
                invariant
                    i <= entries.len(),
                    es == input_entries_view(entries@),
                    es.len() == entries.len(),
                    forall|j: int| 0 <= j < entries.len() ==> #[trigger] es[j] == (entries[j].0@, entries[j].1@),
                    value_entries_view(out@) == normalized_entries(es.take(i as int), |k: Seq<char>| run_dropped_key(k),
                        |k: Seq<char>, x: JIn| if k == "jobs"@ { jobs_normalized(x) } else { out_of(x) }),
                decreases entries.len() - i,
            {
                assert(es.take(i + 1).drop_last() =~= es.take(i as int));
                assert(es.take(i + 1).last() == es[i as int]);
                if !is_run_dropped_key(entries[i].0.as_str()) {
                    let x = if str_eq(entries[i].0.as_str(), "jobs") {
                        normalize_jobs(&entries[i].1)
                    } else {
                        entries[i].1.to_output()
                    };
                    let ghost before = out@;
                    out.push((entries[i].0.clone(), x));
                    proof {
                        assert(out@.drop_last() =~= before);
                        assert(value_entries_view(out@) == value_entries_view(before).push((entries[i as int].0@, x@)));
                    }
                }
                i += 1;
            }
            assert(es.take(entries.len() as int) =~= es);
            JsonValue::Object(out)
        },
        _ => value.to_output(),
    }
}

/// The normalized run result of an object keeps none of the fields that change from run to run
/// at its top level.
pub proof fn lemma_normalized_run_result_drops_volatile_fields(v: JIn)
    ensures
        v is Object ==> (run_result_normalized(v) matches Json::Object(es) && forall|t: int| 0 <= t < es.len()
            ==> !run_dropped_key(#[trigger] es[t].0)),
{
    if let JIn::Object(es, _) = v {
        lemma_normalized_entries_drop(es, |k: Seq<char>| run_dropped_key(k),
            |k: Seq<char>, x: JIn| if k == "jobs"@ { jobs_normalized(x) } else { out_of(x) });
    }
}

} // verus!
