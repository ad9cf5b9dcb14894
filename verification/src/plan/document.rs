//! Planning a workflow document: its jobs expanded into legs, each with its steps, services,
//! container and environment, scheduled in waves.
use crate::matrix::{contexts_wf, expand_workflow_jobs, expanded_spec, expanded_view, expanded_views, ExpandedWorkflowJob};
use crate::plan::{
    format_runs_on, job_deps, runs_on_text, schedule_spec, sound_schedule, try_schedule_job_waves, waves_view,
    PlannedJob, PlannedJobContainer, PlannedJobTarget, PlannedService, PlannedStep, WorkflowRunPlan,
};
use crate::strmap::{text_map, StrMap};
use crate::text::{
    ascii_lower, cat, contains, contains_seq, copy_strings, decimal, lines, lines_of, str_eq, to_ascii_lower, trim,
    trim_str, usize_to_string, views,
};
use crate::workflow::{WorkflowContainer, WorkflowDocument, WorkflowJob, WorkflowService, WorkflowStep};
use crate::yaml::{get, opt_view, Yaml, YamlValue};
use vstd::prelude::*;

verus! {

// ---------------------------------------------------------------------------
// Environment, container and services
// ---------------------------------------------------------------------------

/// A job's environment: the workflow's, with the job's own values replacing it.
pub fn merged_job_env(workflow: &WorkflowDocument, job: &WorkflowJob) -> (r: StrMap<String>)
    requires
        workflow.env.wf(),
        job.env.wf(),
    ensures
        r.wf(),
        text_map(r) == text_map(workflow.env).union_prefer_right(text_map(job.env)),
{
    let mut env = workflow.env.duplicate();
    env.extend_from(&job.env);
    env
}

/// The planned container copies the job's container.
pub open spec fn planned_container_of(p: PlannedJobContainer, c: WorkflowContainer) -> bool {
    &&& p.image@ == c.image@
    &&& p.env.wf()
    &&& text_map(p.env) == text_map(c.env)
    &&& p.ports@ == c.ports@
    &&& p.volumes@ == c.volumes@
    &&& opt_view(p.options) == opt_view(c.options)
}

fn copy_opt(o: &Option<String>) -> (r: Option<String>)
    ensures
        opt_view(r) == opt_view(*o),
{
    match o {
        Some(s) => Some(s.clone()),
        None => None,
    }
}

/// The container a job runs in, when it has one.
pub fn planned_container(job: &WorkflowJob) -> (r: Option<PlannedJobContainer>)
    requires
        job.container matches Some(c) ==> c.env.wf(),
    ensures
        match job.container {
            Some(c) => r matches Some(p) && planned_container_of(p, c),
            None => r is None,
        },
{
    match &job.container {
        Some(container) => Some(PlannedJobContainer {
            image: container.image.clone(),
            env: container.env.duplicate(),
            ports: copy_strings(&container.ports),
            volumes: copy_strings(&container.volumes),
            options: copy_opt(&container.options),
        }),
        None => None,
    }
}

/// A map's entries as `KEY=value` lines, in key order.
pub open spec fn env_lines(m: StrMap<String>) -> Seq<Seq<char>> {
    Seq::new(m.keys().len(), |i: int| m.keys()[i] + "="@ + m.values()[i]@)
}

fn env_lines_of(m: &StrMap<String>) -> (r: Vec<String>)
    ensures
        views(r@) == env_lines(*m),
{
    let mut r: Vec<String> = Vec::new();
    let n = m.len();
    let mut i: usize = 0;
    while i < n
        invariant
            n == m.keys().len(),
            m.values().len() == n,
            i <= n,
            r@.len() == i,
            forall|j: int| 0 <= j < i ==> (#[trigger] r@[j])@ == m.keys()[j] + "="@ + m.values()[j]@,
        decreases n - i,
    {
        let mut line = cat(m.key_at(i).as_str(), "=");
        line.append(m.value_at(i).as_str());
        proof { reveal_strlit("="); }
        r.push(line);
        i += 1;
    }
    assert(views(r@) =~= env_lines(*m));
    r
}

/// The planned service copies a job service, its environment as `KEY=value` lines.
pub open spec fn planned_service_of(p: PlannedService, s: WorkflowService) -> bool {
    &&& p.id@ == s.id@
    &&& p.image@ == s.image@
    &&& views(p.env@) == env_lines(s.env)
    &&& p.ports.wf()
    &&& text_map(p.ports) == text_map(s.ports)
    &&& opt_view(p.options) == opt_view(s.options)
    &&& p.health_cmd is None
}

/// The services of a job, in service-id order.
pub fn planned_services(job: &WorkflowJob) -> (r: Vec<PlannedService>)
    requires
        job.wf(),
    ensures
        r@.len() == job.services.values().len(),
        forall|i: int| 0 <= i < r@.len() ==> planned_service_of(#[trigger] r@[i], job.services.values()[i]),
{
    let mut r: Vec<PlannedService> = Vec::new();
    let n = job.services.len();
    let mut i: usize = 0;
    while i < n
        invariant
            job.wf(),
            n == job.services.values().len(),
            i <= n,
            r@.len() == i,
            forall|j: int| 0 <= j < i ==> planned_service_of(#[trigger] r@[j], job.services.values()[j]),
        decreases n - i,
    {
        let service = job.services.value_at(i);
        assert(service.ports.wf());
        r.push(PlannedService {
            id: service.id.clone(),
            image: service.image.clone(),
            env: env_lines_of(&service.env),
            ports: service.ports.duplicate(),
            options: copy_opt(&service.options),
            health_cmd: None,
        });
        i += 1;
    }
    r
}

// ---------------------------------------------------------------------------
// Steps
// ---------------------------------------------------------------------------

/// The first name a step offers: its name, id or `uses`, else the first line of its script.
pub open spec fn step_name_candidate(s: WorkflowStep) -> Option<Seq<char>> {
    if s.name is Some {
        opt_view(s.name)
    } else if s.id is Some {
        opt_view(s.id)
    } else if s.uses is Some {
        opt_view(s.uses)
    } else {
        match s.run {
            Some(r) => if lines_of(r@).len() > 0 { Some(lines_of(r@)[0]) } else { None },
            None => None,
        }
    }
}

/// A step's display name: the first name it offers unless that is blank, else `Step <n>`
/// counting from one.
pub open spec fn step_name_spec(s: WorkflowStep, index: nat) -> Seq<char> {
    match step_name_candidate(s) {
        Some(c) => if trim(c).len() > 0 { c } else { "Step "@ + decimal(index + 1) },
        None => "Step "@ + decimal(index + 1),
    }
}

/// The display name of the step at `index` (counting from zero).
pub fn planned_step_name(step: &WorkflowStep, index: usize) -> (r: String)
    requires
        index < usize::MAX,
    ensures
        r@ == step_name_spec(*step, index as nat),
{
    let candidate: Option<String> = if step.name.is_some() {
        copy_opt(&step.name)
    } else if step.id.is_some() {
        copy_opt(&step.id)
    } else if step.uses.is_some() {
        copy_opt(&step.uses)
    } else {
        match &step.run {
            Some(run) => {
                let ls = lines(run.as_str());
                if ls.len() > 0 {
                    assert(ls@[0]@ == lines_of(run@)[0]);
                    Some(ls[0].clone())
                } else {
                    None
                }
            },
            None => None,
        }
    };
    if let Some(c) = candidate {
        let t = trim_str(c.as_str());
        if t.as_str().unicode_len() > 0 {
            return c;
        }
    }
    let n = usize_to_string(index + 1);
    cat("Step ", n.as_str())
}

/// The `defaults.run.<key>` of a workflow or job node, when it is a non-empty string.
pub open spec fn run_default(v: Yaml, key: Seq<char>) -> Option<Seq<char>> {
    match get(v, "defaults"@) {
        Some(d) => match get(d, "run"@) {
            Some(r) => match get(r, key) {
                Some(Yaml::Str(s)) => if s.len() > 0 { Some(s) } else { None },
                _ => None,
            },
            None => None,
        },
        None => None,
    }
}

/// The value under the string key `key` of a mapping node.
pub fn mapping_value<'a>(source: &'a YamlValue, key: &str) -> (r: Option<&'a YamlValue>)
    ensures
        match r {
            Some(v) => get(source@, key@) == Some(v@),
            None => get(source@, key@) is None,
        },
{
    source.get(key)
}

/// The `defaults.run.<key>` of a workflow or job node.
pub fn run_default_from_value(source: &YamlValue, key: &str) -> (r: Option<String>)
    ensures
        opt_view(r) == run_default(source@, key@),
{
    let defaults = match mapping_value(source, "defaults") {
        Some(d) => d,
        None => return None,
    };
    let run = match mapping_value(defaults, "run") {
        Some(r) => r,
        None => return None,
    };
    match mapping_value(run, key) {
        Some(YamlValue::Str(s)) => if s.as_str().unicode_len() > 0 { Some(s.clone()) } else { None },
        _ => None,
    }
}

/// The step's own `shell` or `working-directory`, for those two keys.
pub open spec fn step_run_value(s: WorkflowStep, key: Seq<char>) -> Option<Seq<char>> {
    if key == "shell"@ {
        opt_view(s.shell)
    } else if key == "working-directory"@ {
        opt_view(s.working_directory)
    } else {
        None
    }
}

/// A step setting as it applies: the step's own, else the job's run default, else the
/// workflow's.
pub open spec fn effective_default(doc: WorkflowDocument, job: WorkflowJob, s: WorkflowStep, key: Seq<char>) -> Option<Seq<char>> {
    match step_run_value(s, key) {
        Some(v) => Some(v),
        None => match run_default(job.raw@, key) {
            Some(v) => Some(v),
            None => run_default(doc.raw@, key),
        },
    }
}

/// A step's `shell` or `working-directory` is its own value when it sets one; otherwise the
/// job's `defaults.run` value wins over the workflow's, which applies only when the job has
/// none; with none of the three there is none.
pub proof fn lemma_step_job_workflow_precedence(doc: WorkflowDocument, job: WorkflowJob, s: WorkflowStep, key: Seq<char>)
    ensures
        key == "shell"@ && s.shell is Some ==> effective_default(doc, job, s, key) == Some(s.shell->0@),
        key == "working-directory"@ && s.working_directory is Some
            ==> effective_default(doc, job, s, key) == Some(s.working_directory->0@),
        step_run_value(s, key) is None && run_default(job.raw@, key) is Some
            ==> effective_default(doc, job, s, key) == Some(run_default(job.raw@, key)->0),
        step_run_value(s, key) is None && run_default(job.raw@, key) is None
            ==> effective_default(doc, job, s, key) == run_default(doc.raw@, key),
        key == "shell"@ && s.shell is None && run_default(job.raw@, key) is Some
            ==> effective_default(doc, job, s, key) == run_default(job.raw@, key),
{
    reveal_strlit("shell");
    reveal_strlit("working-directory");
    assert("shell"@.len() != "working-directory"@.len());
}

/// The `shell` or `working-directory` a step runs with.
pub fn effective_run_default(workflow: &WorkflowDocument, job: &WorkflowJob, step: &WorkflowStep, key: &str) -> (r: Option<String>)
    ensures
        opt_view(r) == effective_default(*workflow, *job, *step, key@),
{
    proof {
        reveal_strlit("shell");
        reveal_strlit("working-directory");
    }
    let step_value = if str_eq(key, "shell") {
        copy_opt(&step.shell)
    } else if str_eq(key, "working-directory") {
        copy_opt(&step.working_directory)
    } else {
        None
    };
    if step_value.is_some() {
        return step_value;
    }
    let from_job = run_default_from_value(&job.raw, key);
    if from_job.is_some() {
        return from_job;
    }
    run_default_from_value(&workflow.raw, key)
}

/// The planned step at `index` of a job, with the job's environment under its own.
pub open spec fn planned_step_of(p: PlannedStep, s: WorkflowStep, index: nat, doc: WorkflowDocument, job: WorkflowJob, job_env: Map<Seq<char>, Seq<char>>) -> bool {
    &&& opt_view(p.id) == opt_view(s.id)
    &&& p.name@ == step_name_spec(s, index)
    &&& p.index == index + 1
    &&& opt_view(p.run) == opt_view(s.run)
    &&& opt_view(p.uses) == opt_view(s.uses)
    &&& opt_view(p.if_condition) == opt_view(s.if_condition)
    &&& opt_view(p.shell) == effective_default(doc, job, s, "shell"@)
    &&& opt_view(p.working_directory) == effective_default(doc, job, s, "working-directory"@)
    &&& p.env.wf()
    &&& text_map(p.env) == job_env.union_prefer_right(text_map(s.env))
    &&& p.with.wf()
    &&& text_map(p.with) == text_map(s.with)
}

/// The steps of a job, in order.
pub fn planned_steps(workflow: &WorkflowDocument, job: &WorkflowJob, job_env: &StrMap<String>) -> (r: Vec<PlannedStep>)
    requires
        job.wf(),
        job_env.wf(),
    ensures
        r@.len() == job.steps@.len(),
        forall|i: int| 0 <= i < r@.len() ==> planned_step_of(#[trigger] r@[i], job.steps@[i], i as nat, *workflow, *job, text_map(*job_env)),
{
    let mut r: Vec<PlannedStep> = Vec::new();
    let mut i: usize = 0;
    while i < job.steps.len()
        invariant
            job.wf(),
            job_env.wf(),
            i <= job.steps@.len(),
            r@.len() == i,
            forall|j: int| 0 <= j < i ==> planned_step_of(#[trigger] r@[j], job.steps@[j], j as nat, *workflow, *job, text_map(*job_env)),
        decreases job.steps.len() - i,
    {
        let step = &job.steps[i];
        assert(step.env.wf() && step.with.wf());
        let mut env = job_env.duplicate();
        env.extend_from(&step.env);
        r.push(PlannedStep {
            id: copy_opt(&step.id),
            name: planned_step_name(step, i),
            index: i + 1,
            run: copy_opt(&step.run),
            uses: copy_opt(&step.uses),
            if_condition: copy_opt(&step.if_condition),
            shell: effective_run_default(workflow, job, step, "shell"),
            working_directory: effective_run_default(workflow, job, step, "working-directory"),
            env,
            with: step.with.duplicate(),
        });
        i += 1;
    }
    r
}

// ---------------------------------------------------------------------------
// Targets
// ---------------------------------------------------------------------------

/// Where a job runs: a reusable-workflow call, a macOS runner when its `runs-on` mentions
/// macos in any case, a Linux runner otherwise, and unknown without `runs-on`.
pub open spec fn target_of(t: PlannedJobTarget, job: WorkflowJob) -> bool {
    match job.uses {
        Some(u) => t matches PlannedJobTarget::ReusableWorkflow { uses } && uses@ == u@,
        None => match job.runs_on {
            None => t is Unknown,
            Some(ro) => {
                let text = runs_on_text(ro);
                if contains_seq(ascii_lower(text), "macos"@) {
                    t matches PlannedJobTarget::MacOs { runs_on } && runs_on@ == text
                } else {
                    t matches PlannedJobTarget::Linux { runs_on } && runs_on@ == text
                }
            },
        },
    }
}

/// The target a job runs on.
pub fn planned_job_target(job: &WorkflowJob) -> (r: PlannedJobTarget)
    ensures
        target_of(r, *job),
{
    if let Some(uses) = &job.uses {
        return PlannedJobTarget::ReusableWorkflow { uses: uses.clone() };
    }
    let runs_on = match &job.runs_on {
        Some(ro) => format_runs_on(ro),
        None => return PlannedJobTarget::Unknown,
    };
    let lower = to_ascii_lower(runs_on.as_str());
    if contains(lower.as_str(), "macos") {
        PlannedJobTarget::MacOs { runs_on }
    } else {
        PlannedJobTarget::Linux { runs_on }
    }
}


// ---------------------------------------------------------------------------
// The plan of a workflow
// ---------------------------------------------------------------------------

/// An expanded leg: job id, runner name and matrix context.
pub type LegView = (Seq<char>, Seq<char>, Option<Map<Seq<char>, Seq<char>>>);

/// The expanded legs whose job id names a job of the document, each with that job, in order.
pub open spec fn plan_sources(doc: WorkflowDocument, legs: Seq<LegView>) -> Seq<(WorkflowJob, LegView)>
    decreases legs.len(),
{
    if legs.len() == 0 {
        Seq::empty()
    } else {
        let prev = plan_sources(doc, legs.drop_last());
        match doc.jobs.lookup(legs.last().0) {
            Some(job) => prev.push((job, legs.last())),
            None => prev,
        }
    }
}

/// The planned job of one leg of a document's job.
pub open spec fn planned_job_of(p: PlannedJob, job: WorkflowJob, doc: WorkflowDocument, leg: LegView) -> bool {
    let env = text_map(doc.env).union_prefer_right(text_map(job.env));
    &&& p.wf()
    &&& p.id@ == job.id@
    &&& p.source_job_id@ == job.id@
    &&& p.display_name@ == (match job.name {
        Some(n) => n@,
        None => job.id@,
    })
    &&& p.runner_name@ == leg.1
    &&& target_of(p.target, job)
    &&& p.needs@ == job.needs@
    &&& opt_view(p.if_condition) == opt_view(job.if_condition)
    &&& text_map(p.env) == env
    &&& text_map(p.inputs) == Map::<Seq<char>, Seq<char>>::empty()
    &&& text_map(p.outputs) == text_map(job.outputs)
    &&& text_map(p.workflow_call_output_defs) == Map::<Seq<char>, Seq<char>>::empty()
    &&& p.caller_job_id is None
    &&& p.services@.len() == job.services.values().len()
    &&& (forall|i: int| 0 <= i < p.services@.len() ==> planned_service_of(#[trigger] p.services@[i], job.services.values()[i]))
    &&& match job.container {
        Some(c) => p.container matches Some(pc) && planned_container_of(pc, c),
        None => p.container is None,
    }
    &&& p.steps@.len() == job.steps@.len()
    &&& (forall|i: int| 0 <= i < p.steps@.len() ==> planned_step_of(#[trigger] p.steps@[i], job.steps@[i], i as nat, doc, job, env))
    &&& p.step_count == job.steps@.len()
    &&& match leg.2 {
        Some(m) => p.matrix_context matches Some(c) && text_map(c) == m,
        None => p.matrix_context is None,
    }
}

/// The planned jobs of a document: one per expanded leg whose job id names one of its jobs.
pub open spec fn planned_jobs_of(js: Seq<PlannedJob>, doc: WorkflowDocument, no_matrix: bool, base: nat) -> bool {
    let src = plan_sources(doc, expanded_spec(doc.jobs.values(), no_matrix, base));
    &&& js.len() == src.len()
    &&& forall|i: int| 0 <= i < js.len() ==> planned_job_of(#[trigger] js[i], src[i].0, doc, src[i].1)
}

/// The messages of a document's diagnostics.
pub open spec fn diag_messages(doc: WorkflowDocument) -> Seq<Seq<char>> {
    doc.diagnostics@.map_values(|d: crate::workflow::WorkflowDiagnostic| d.message@)
}

fn planned_job_for(workflow: &WorkflowDocument, job: &WorkflowJob, expanded: &ExpandedWorkflowJob) -> (r: PlannedJob)
    requires
        workflow.wf(),
        job.wf(),
        expanded.matrix_context matches Some(c) ==> c.wf(),
    ensures
        planned_job_of(r, *job, *workflow, expanded_view(*expanded)),
{
    let env = merged_job_env(workflow, job);
    let steps = planned_steps(workflow, job, &env);
    let matrix_context = match &expanded.matrix_context {
        Some(c) => Some(c.duplicate()),
        None => None,
    };
    let inputs: StrMap<String> = StrMap::new();
    let defs: StrMap<String> = StrMap::new();
    assert(text_map(inputs) =~= Map::<Seq<char>, Seq<char>>::empty());
    assert(text_map(defs) =~= Map::<Seq<char>, Seq<char>>::empty());
    let display_name = match &job.name {
        Some(n) => n.clone(),
        None => job.id.clone(),
    };
    PlannedJob {
        id: job.id.clone(),
        source_job_id: job.id.clone(),
        display_name,
        runner_name: expanded.runner_name.clone(),
        target: planned_job_target(job),
        needs: copy_strings(&job.needs),
        if_condition: copy_opt(&job.if_condition),
        outputs: job.outputs.duplicate(),
        workflow_call_output_defs: defs,
        caller_job_id: None,
        services: planned_services(job),
        container: planned_container(job),
        steps,
        step_count: job.steps.len(),
        env,
        inputs,
        matrix_context,
    }
}

fn diagnostic_messages(workflow: &WorkflowDocument) -> (r: Vec<String>)
    ensures
        views(r@) == diag_messages(*workflow),
{
    let mut r: Vec<String> = Vec::new();
    let ghost all = diag_messages(*workflow);
    let mut d: usize = 0;
    assert(views(r@) =~= all.take(0));
    while d < workflow.diagnostics.len()
        invariant
            all == diag_messages(*workflow),
            all.len() == workflow.diagnostics@.len(),
            d <= workflow.diagnostics@.len(),
            views(r@) == all.take(d as int),
        decreases workflow.diagnostics.len() - d,
    {
        let ghost prev = views(r@);
        r.push(workflow.diagnostics[d].message.clone());
        assert(views(r@) =~= prev.push(workflow.diagnostics@[d as int].message@));
        assert(all.take(d + 1) =~= all.take(d as int).push(all[d as int]));
        d += 1;
    }
    assert(all.take(workflow.diagnostics@.len() as int) =~= all);
    r
}

fn plan_jobs(workflow: &WorkflowDocument, expanded: &Vec<ExpandedWorkflowJob>) -> (r: Vec<PlannedJob>)
    requires
        workflow.wf(),
        contexts_wf(expanded@),
    ensures
        r@.len() == plan_sources(*workflow, expanded_views(expanded@)).len(),
        forall|j: int| 0 <= j < r@.len() ==> planned_job_of(#[trigger] r@[j], plan_sources(*workflow, expanded_views(expanded@))[j].0, *workflow, plan_sources(*workflow, expanded_views(expanded@))[j].1),
{
    let ghost legs = expanded_views(expanded@);
    let mut jobs: Vec<PlannedJob> = Vec::new();
    let mut i: usize = 0;
    while i < expanded.len()
        invariant
            workflow.wf(),
            i <= expanded@.len(),
            legs == expanded_views(expanded@),
            contexts_wf(expanded@),
            jobs@.len() == plan_sources(*workflow, legs.take(i as int)).len(),
            forall|j: int| 0 <= j < jobs@.len() ==> planned_job_of(#[trigger] jobs@[j], plan_sources(*workflow, legs.take(i as int))[j].0, *workflow, plan_sources(*workflow, legs.take(i as int))[j].1),
        decreases expanded.len() - i,
    {
        let ghost pre = legs.take(i as int);
        let ghost cur = legs.take(i + 1);
        assert(cur.drop_last() =~= pre);
        assert(cur.last() == expanded_view(expanded@[i as int]));
        match workflow.jobs.get(expanded[i].job_id.as_str()) {
            Some(job) => {
                proof {
                    let k = expanded@[i as int].job_id@;
                    let ix = workflow.jobs.index_of(k);
                    assert(workflow.jobs.values()[ix] == *job);
                }
                let planned = planned_job_for(workflow, job, &expanded[i]);
                jobs.push(planned);
            },
            None => {},
        }
        i += 1;
    }
    assert(legs.take(expanded@.len() as int) =~= legs);
    jobs
}

/// Plans a workflow: its jobs expanded into legs (or collapsed to one leg each with
/// `no_matrix`), named for run `base_run_num`, and scheduled in waves; an error names the jobs
/// whose `needs` can never be met.
pub fn try_plan_workflow_document(workflow: &WorkflowDocument, base_run_num: u32, no_matrix: bool) -> (r: Result<WorkflowRunPlan, String>)
    requires
        workflow.wf(),
    ensures
        match r {
            Ok(plan) => {
                &&& plan.workflow_path@ == workflow.path@
                &&& views(plan.diagnostics@) == diag_messages(*workflow)
                &&& planned_jobs_of(plan.jobs@, *workflow, no_matrix, base_run_num as nat)
                &&& schedule_spec(plan.jobs@) == Ok::<Seq<Seq<Seq<char>>>, Seq<char>>(waves_view(plan.schedule@))
                &&& sound_schedule(waves_view(plan.schedule@), job_deps(plan.jobs@))
            },
            Err(m) => exists|js: Seq<PlannedJob>| planned_jobs_of(js, *workflow, no_matrix, base_run_num as nat)
                && schedule_spec(js) == Err::<Seq<Seq<Seq<char>>>, Seq<char>>(m@)
                && forall|ws: Seq<Seq<Seq<char>>>| !#[trigger] sound_schedule(ws, job_deps(js)),
        },
{
    let diagnostics = diagnostic_messages(workflow);
    let expanded = expand_workflow_jobs(workflow, no_matrix, base_run_num);
    let jobs = plan_jobs(workflow, &expanded);
    assert(planned_jobs_of(jobs@, *workflow, no_matrix, base_run_num as nat));
    let schedule = match try_schedule_job_waves(&jobs) {
        Ok(s) => s,
        Err(m) => return Err(m),
    };
    Ok(WorkflowRunPlan { workflow_path: workflow.path.clone(), diagnostics, jobs, schedule })
}

/// Plans a workflow whose jobs can all be scheduled.
pub fn plan_workflow_document(workflow: &WorkflowDocument, base_run_num: u32, no_matrix: bool) -> (plan: WorkflowRunPlan)
    requires
        workflow.wf(),
        forall|js: Seq<PlannedJob>| planned_jobs_of(js, *workflow, no_matrix, base_run_num as nat)
            ==> (#[trigger] schedule_spec(js)) is Ok,
    ensures
        plan.workflow_path@ == workflow.path@,
        views(plan.diagnostics@) == diag_messages(*workflow),
        planned_jobs_of(plan.jobs@, *workflow, no_matrix, base_run_num as nat),
        schedule_spec(plan.jobs@) == Ok::<Seq<Seq<Seq<char>>>, Seq<char>>(waves_view(plan.schedule@)),
        sound_schedule(waves_view(plan.schedule@), job_deps(plan.jobs@)),
{
    match try_plan_workflow_document(workflow, base_run_num, no_matrix) {
        Ok(plan) => plan,
        Err(_) => vstd::pervasive::unreached(),
    }
}

} // verus!
