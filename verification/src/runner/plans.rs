//! How a planned job becomes a runner container plan and a job seeded into the DTU server.
use crate::plan::{NeedContext, PlannedJob, PlannedStep, RunPlan, WorkflowRunPlan};
use crate::runner::runtime::{service_spec_from, ServiceSpec};
use crate::runner::types::{dtu_job_container_from, DtuJobSeed, DtuJobStep, JobExecutionPlan};
use crate::strmap::{StrMap, text_map};
use crate::text::{cat3, split_char, split_on_char, str_eq, views, decimal};
use vstd::prelude::*;

verus! {

/// The last component of a path split at `/`, skipping empty and `.` components.
pub open spec fn last_component(cs: Seq<Seq<char>>) -> Option<Seq<char>>
    decreases cs.len(),
{
    if cs.len() == 0 {
        None
    } else if cs.last().len() == 0 || cs.last() == seq!['.'] {
        last_component(cs.drop_last())
    } else {
        Some(cs.last())
    }
}

/// A path's file name as `Path::file_name` gives it: its last component, none for `..`.
pub open spec fn path_file_name(p: Seq<char>) -> Option<Seq<char>> {
    match last_component(split_char(p, '/')) {
        Some(c) => if c == seq!['.', '.'] { None } else { Some(c) },
        None => None,
    }
}

/// The position of the last `.` in a name, when it is not the first character.
pub open spec fn stem_dot(name: Seq<char>) -> Option<int> {
    if exists|d: int| 0 < d < name.len() && name[d] == '.' {
        Some(choose|d: int| 0 < d < name.len() && name[d] == '.' && forall|j: int| d < j < name.len() ==> name[j] != '.')
    } else {
        None
    }
}

/// A path's file stem as `Path::file_stem` gives it: the file name before its last `.`, unless
/// that `.` is the name's first character.
pub open spec fn path_file_stem(p: Seq<char>) -> Option<Seq<char>> {
    match path_file_name(p) {
        Some(n) => match stem_dot(n) {
            Some(d) => Some(n.take(d)),
            None => Some(n),
        },
        None => None,
    }
}

/// A path's file name.
pub fn file_name_of(p: &str) -> (r: Option<String>)
    ensures
        match r {
            Some(n) => path_file_name(p@) == Some(n@),
            None => path_file_name(p@) is None,
        },
{
    let parts = split_on_char(p, '/');
    let ghost cs = views(parts@);
    let mut i = parts.len();
    assert(cs.take(i as int) =~= cs);
    while i > 0
        invariant
            i <= parts.len(),
            cs == views(parts@),
            cs == split_char(p@, '/'),
            last_component(cs) == last_component(cs.take(i as int)),
        decreases i,
    {
        let ghost t = cs.take(i as int);
        assert(t.last() == parts@[i - 1]@);
        assert(t.drop_last() =~= cs.take(i - 1));
        let c = &parts[i - 1];
        let skip = str_eq(c.as_str(), "") || str_eq(c.as_str(), ".");
        proof {
            reveal_strlit("");
            reveal_strlit(".");
            assert(""@ =~= Seq::<char>::empty());
            assert("."@ =~= seq!['.']);
            if c@.len() == 0 {
                assert(c@ =~= ""@);
            }
        }
        if !skip {
            proof { reveal_strlit(".."); assert(".."@ =~= seq!['.', '.']); }
            if str_eq(c.as_str(), "..") {
                return None;
            }
            return Some(c.clone());
        }
        i -= 1;
    }
    assert(cs.take(0) =~= Seq::<Seq<char>>::empty());
    None
}

/// A path's file stem.
pub fn file_stem_of(p: &str) -> (r: Option<String>)
    ensures
        match r {
            Some(n) => path_file_stem(p@) == Some(n@),
            None => path_file_stem(p@) is None,
        },
{
    let name = match file_name_of(p) {
        Some(n) => n,
        None => return None,
    };
    let cs = crate::text::chars_of(name.as_str());
    let mut d = cs.len();
    while d > 0 && cs[d - 1] != '.'
        invariant
            d <= cs.len(),
            cs@ == name@,
            forall|j: int| d <= j < cs.len() ==> cs@[j] != '.',
        decreases d,
    {
        d -= 1;
    }
    if d >= 2 {
        let k = d - 1;
        proof {
            let w = choose|x: int| 0 < x < name@.len() && name@[x] == '.' && forall|j: int| x < j < name@.len() ==> name@[j] != '.';
            assert(0 < k < name@.len() && name@[k as int] == '.');
            if w != k {
                if w < k {
                    assert(name@[k as int] != '.');
                } else {
                    assert(cs@[w] != '.');
                }
            }
        }
        Some(crate::text::slice_string(cs.as_slice(), 0, k))
    } else {
        proof {
            if exists|x: int| 0 < x < name@.len() && name@[x] == '.' {
                let x = choose|x: int| 0 < x < name@.len() && name@[x] == '.';
                assert(cs@[x] != '.');
            }
        }
        Some(name)
    }
}

/// How a planned job's runner container is started: named after the runner (and, unless the
/// job may pause, the process id), with the job's services and otherwise empty settings.
pub fn runner_execution_plan_for_job(workflow: &WorkflowRunPlan, job: &PlannedJob, image: &str, log_dir: &str,
    signals_dir: &str, pause_on_failure: bool, process_id: u32) -> (r: JobExecutionPlan)
    requires
        forall|i: int| 0 <= i < job.services@.len() ==> (#[trigger] job.services@[i]).ports.wf(),
    ensures
        r.workflow@ == match path_file_name(workflow.workflow_path@) {
            Some(n) => n,
            None => "workflow.yml"@,
        },
        r.job_id@ == job.id@,
        r.runner_name@ == job.runner_name@,
        r.container_name@ == if pause_on_failure { job.runner_name@ } else { job.runner_name@ + "-"@ + decimal(process_id as nat) },
        r.image@ == image@,
        r.env@.len() == 0 && r.binds@.len() == 0 && r.extra_hosts@.len() == 0 && r.command@.len() == 0,
        r.log_dir@ == log_dir@,
        r.signals_dir@ == signals_dir@,
        r.services@.len() == job.services@.len(),
        forall|i: int| 0 <= i < r.services@.len() ==> service_of(#[trigger] r.services@[i], job.services@[i]),
        r.pause_on_failure == pause_on_failure,
{
    let workflow_name = match file_name_of(workflow.workflow_path.as_str()) {
        Some(n) => n,
        None => "workflow.yml".to_owned(),
    };
    let container_name = if pause_on_failure {
        job.runner_name.clone()
    } else {
        let pid = crate::text::u64_to_string(process_id as u64);
        cat3(job.runner_name.as_str(), "-", pid.as_str())
    };
    JobExecutionPlan {
        workflow: workflow_name,
        job_id: job.id.clone(),
        runner_name: job.runner_name.clone(),
        container_name,
        image: image.to_owned(),
        env: Vec::new(),
        binds: Vec::new(),
        extra_hosts: Vec::new(),
        command: Vec::new(),
        log_dir: log_dir.to_owned(),
        signals_dir: signals_dir.to_owned(),
        services: service_specs(&job.services),
        pause_on_failure,
    }
}

/// A service spec made from a planned service.
pub open spec fn service_of(s: ServiceSpec, p: crate::plan::PlannedService) -> bool {
    &&& s.id@ == p.id@
    &&& s.image@ == p.image@
    &&& s.env@ == p.env@
    &&& s.ports.wf()
    &&& text_map(s.ports) == text_map(p.ports)
    &&& s.options == p.options
    &&& s.health_cmd == p.health_cmd
}

fn service_specs(services: &Vec<crate::plan::PlannedService>) -> (r: Vec<ServiceSpec>)
    requires
        forall|i: int| 0 <= i < services@.len() ==> (#[trigger] services@[i]).ports.wf(),
    ensures
        r@.len() == services@.len(),
        forall|i: int| 0 <= i < r@.len() ==> service_of(#[trigger] r@[i], services@[i]),
{
    let mut r: Vec<ServiceSpec> = Vec::new();
    let mut i: usize = 0;
    while i < services.len()
        invariant
            i <= services.len(),
            r@.len() == i,
            forall|j: int| 0 <= j < services@.len() ==> (#[trigger] services@[j]).ports.wf(),
            forall|j: int| 0 <= j < i ==> service_of(#[trigger] r@[j], services@[j]),
        decreases services.len() - i,
    {
        r.push(service_spec_from(&services[i]));
        i += 1;
    }
    r
}

/// What the expression evaluator made of one step: its name, its script and its environment,
/// each with `${{ }}` expressions expanded.
#[derive(Debug, Clone, PartialEq, Eq)]
pub struct ExpandedStep {
    pub name: String,
    pub run: Option<String>,
    pub env: StrMap<String>,
}

/// The seeded form of a planned step, given its expansion.
pub open spec fn seeded_step(s: DtuJobStep, p: PlannedStep, e: ExpandedStep) -> bool {
    &&& s.name@ == e.name@
    &&& s.context_name == p.id
    &&& s.run == e.run
    &&& s.uses == p.uses
    &&& s.condition == p.if_condition
    &&& s.shell == p.shell
    &&& s.working_directory == p.working_directory
    &&& s.env.wf() && text_map(s.env) == text_map(e.env)
    &&& s.with.wf() && text_map(s.with) == text_map(p.with)
}

/// The maps of a planned job that a seed copies are well formed.
pub open spec fn seedable(job: PlannedJob) -> bool {
    &&& job.wf()
    &&& forall|i: int| 0 <= i < job.services@.len() ==> (#[trigger] job.services@[i]).ports.wf()
    &&& (job.container matches Some(c) ==> c.env.wf())
    &&& forall|i: int| 0 <= i < job.steps@.len() ==> (#[trigger] job.steps@[i]).with.wf()
}

/// The job seeded into the DTU server for a planned job, given each step's expansion: its id
/// is the workflow's file stem and the runner name, its head SHA the effective SHA's ref when
/// it has one, and the rest is copied from the plan.
pub fn dtu_job_seed_from_expanded(run_plan: &RunPlan, workflow: &WorkflowRunPlan, job: &PlannedJob, github_repo: &str,
    needs_context: StrMap<NeedContext>, expanded: Vec<ExpandedStep>) -> (r: DtuJobSeed)
    requires
        seedable(*job),
        expanded@.len() == job.steps@.len(),
        forall|i: int| 0 <= i < expanded@.len() ==> (#[trigger] expanded@[i]).env.wf(),
    ensures
        r.workflow_name@ == match path_file_stem(workflow.workflow_path@) {
            Some(n) => n,
            None => "workflow"@,
        },
        r.id@ == r.workflow_name@ + "-"@ + job.runner_name@,
        r.runner_name@ == job.runner_name@,
        r.name@ == job.display_name@,
        r.repo_root@ == run_plan.repo_root@,
        r.github_repo@ == github_repo@,
        r.head_sha@ == match run_plan.effective_sha.sha_ref {
            Some(s) => s@,
            None => run_plan.effective_sha.head_sha@,
        },
        r.real_head_sha@ == run_plan.effective_sha.head_sha@,
        r.runner_work_dir is None && r.runner_os is None && r.runner_arch is None,
        r.env.wf() && text_map(r.env) == text_map(job.env),
        r.outputs.wf() && text_map(r.outputs) == text_map(job.outputs),
        r.needs_context == needs_context,
        match job.container {
            Some(c) => r.container matches Some(d) && d.image@ == c.image@ && d.env.wf() && text_map(d.env) == text_map(c.env)
                && d.ports@ == c.ports@ && d.volumes@ == c.volumes@ && d.options == c.options,
            None => r.container is None,
        },
        r.services@.len() == job.services@.len(),
        forall|i: int| 0 <= i < r.services@.len() ==> service_of(#[trigger] r.services@[i], job.services@[i]),
        match job.matrix_context {
            Some(m) => r.matrix_context matches Some(n) && n.wf() && text_map(n) == text_map(m),
            None => r.matrix_context is None,
        },
        r.steps@.len() == job.steps@.len(),
        forall|i: int| 0 <= i < r.steps@.len() ==> seeded_step(#[trigger] r.steps@[i], job.steps@[i], expanded@[i]),
{
    let workflow_name = match file_stem_of(workflow.workflow_path.as_str()) {
        Some(n) => n,
        None => "workflow".to_owned(),
    };
    let id = cat3(workflow_name.as_str(), "-", job.runner_name.as_str());
    let head_sha = match &run_plan.effective_sha.sha_ref {
        Some(s) => s.clone(),
        None => run_plan.effective_sha.head_sha.clone(),
    };
    let mut steps: Vec<DtuJobStep> = Vec::new();
    let mut i: usize = 0;
    while i < job.steps.len()
        invariant
            i <= job.steps.len(),
            seedable(*job),
            expanded@.len() == job.steps@.len(),
            forall|j: int| 0 <= j < expanded@.len() ==> (#[trigger] expanded@[j]).env.wf(),
            steps@.len() == i,
            forall|j: int| 0 <= j < i ==> seeded_step(#[trigger] steps@[j], job.steps@[j], expanded@[j]),
        decreases job.steps.len() - i,
    {
        let p = &job.steps[i];
        let e = &expanded[i];
        assert(p.with.wf());
        steps.push(DtuJobStep {
            name: e.name.clone(),
            context_name: p.id.clone(),
            run: e.run.clone(),
            uses: p.uses.clone(),
            condition: p.if_condition.clone(),
            shell: p.shell.clone(),
            working_directory: p.working_directory.clone(),
            env: e.env.duplicate(),
            with: p.with.duplicate(),
        });
        i += 1;
    }
    DtuJobSeed {
        id,
        runner_name: job.runner_name.clone(),
        name: job.display_name.clone(),
        workflow_name,
        repo_root: run_plan.repo_root.clone(),
        github_repo: github_repo.to_owned(),
        head_sha,
        real_head_sha: run_plan.effective_sha.head_sha.clone(),
        runner_work_dir: None,
        runner_os: None,
        runner_arch: None,
        env: job.env.duplicate(),
        outputs: job.outputs.duplicate(),
        needs_context,
        container: match &job.container {
            Some(c) => Some(dtu_job_container_from(c)),
            None => None,
        },
        services: service_specs(&job.services),
        matrix_context: match &job.matrix_context {
            Some(m) => Some(m.duplicate()),
            None => None,
        },
        steps,
    }
}

} // verus!
