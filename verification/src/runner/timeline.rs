//! Reading a job's timeline: its steps, how they ended, where their logs are, and whether the
//! job itself failed.
use crate::dtu::logs::{sanitize_step_log_name, sanitized_name};
use crate::json::{in_get, in_str, input_items_view, lemma_input_items_view, opt_in_str, JIn, JsonInput};
use crate::runner::runtime::{JobResult, StepResult, StepStatus};
use crate::strmap::StrSet;
use crate::text::{ascii_lower, bounded, cat, decimal, join_path, path_join, str_eq, to_ascii_lower, unsigned_literal};
use crate::yaml::opt_view;
use vstd::prelude::*;

verus! {

/// A record's kind: its `type`, or without that key its `Type`, when a string.
pub open spec fn record_type(r: JIn) -> Option<Seq<char>> {
    match in_get(r, "type"@) {
        Some(x) => in_str(x),
        None => opt_in_str(in_get(r, "Type"@)),
    }
}

/// A record's result: its `result`, `Result` or `state`, the first present, when a string.
pub open spec fn record_result(r: JIn) -> Option<Seq<char>> {
    match in_get(r, "result"@) {
        Some(x) => in_str(x),
        None => match in_get(r, "Result"@) {
            Some(x) => in_str(x),
            None => opt_in_str(in_get(r, "state"@)),
        },
    }
}

/// A record's name: its `name`, or without that key its `Name`, when a string.
pub open spec fn record_name(r: JIn) -> Option<Seq<char>> {
    match in_get(r, "name"@) {
        Some(x) => in_str(x),
        None => opt_in_str(in_get(r, "Name"@)),
    }
}

/// A result word that means failure.
pub open spec fn failed_word(w: Seq<char>) -> bool {
    ascii_lower(w) == "failed"@ || ascii_lower(w) == "failure"@
}

fn record_type_of(r: &JsonInput) -> (t: Option<&str>)
    ensures
        match t {
            Some(s) => record_type(r@) == Some(s@),
            None => record_type(r@) is None,
        },
{
    match r.get("type") {
        Some(x) => x.as_str(),
        None => match r.get("Type") {
            Some(y) => y.as_str(),
            None => None,
        },
    }
}

fn record_result_of(r: &JsonInput) -> (t: Option<&str>)
    ensures
        match t {
            Some(s) => record_result(r@) == Some(s@),
            None => record_result(r@) is None,
        },
{
    match r.get("result") {
        Some(x) => x.as_str(),
        None => match r.get("Result") {
            Some(y) => y.as_str(),
            None => match r.get("state") {
                Some(z) => z.as_str(),
                None => None,
            },
        },
    }
}

fn is_failed_word(w: &str) -> (b: bool)
    ensures
        b == failed_word(w@),
{
    let lower = to_ascii_lower(w);
    str_eq(lower.as_str(), "failed") || str_eq(lower.as_str(), "failure")
}

/// The timeline records: the members of the array, or none.
pub open spec fn timeline_records(records: JIn) -> Seq<JIn> {
    match records {
        JIn::Array(items, _) => items,
        _ => Seq::empty(),
    }
}

/// The timeline says the job failed: a `Job` record with a failed result.
pub open spec fn job_failed_spec(records: JIn) -> bool {
    exists|i: int| 0 <= i < timeline_records(records).len() && {
        let r = #[trigger] timeline_records(records)[i];
        record_type(r) == Some("Job"@) && (record_result(r) matches Some(w) && failed_word(w))
    }
}

/// Whether the timeline records a failed job.
pub fn parse_timeline_job_failed(records: &JsonInput) -> (b: bool)
    ensures
        b == job_failed_spec(records@),
{
    let items = match records {
        JsonInput::Array(items, _) => items,
        _ => return false,
    };
    proof { lemma_input_items_view(items@); }
    let mut i: usize = 0;
    while i < items.len()
        invariant
            i <= items.len(),
            timeline_records(records@) == input_items_view(items@),
            input_items_view(items@).len() == items.len(),
            forall|j: int| 0 <= j < items.len() ==> #[trigger] input_items_view(items@)[j] == items[j]@,
            forall|j: int| 0 <= j < i ==> !({
                let r = #[trigger] timeline_records(records@)[j];
                record_type(r) == Some("Job"@) && (record_result(r) matches Some(w) && failed_word(w))
            }),
        decreases items.len() - i,
    {
        let r = &items[i];
        let is_job = match record_type_of(r) {
            Some(t) => str_eq(t, "Job"),
            None => false,
        };
        if is_job {
            if let Some(w) = record_result_of(r) {
                if is_failed_word(w) {
                    assert(timeline_records(records@)[i as int] == r@);
                    return true;
                }
            }
        }
        i += 1;
    }
    false
}

/// A number written by serde as a 64-bit unsigned integer.
pub open spec fn number_u64(v: JIn) -> Option<nat> {
    match v {
        JIn::Number(t) => if t.len() > 0 && t[0] != '+' { bounded(unsigned_literal(t), u64::MAX as nat) } else { None },
        _ => None,
    }
}

/// The id of a record's log: a string, or an unsigned number in decimal.
pub open spec fn log_id(r: JIn) -> Option<Seq<char>> {
    match in_get(r, "log"@) {
        Some(l) => match in_get(l, "id"@) {
            Some(id) => match in_str(id) {
                Some(s) => Some(s),
                None => match number_u64(id) {
                    Some(n) => Some(decimal(n)),
                    None => None,
                },
            },
            None => None,
        },
        None => None,
    }
}

/// The names a step's log file may have: its sanitized name, its record id, its log id.
pub open spec fn log_candidates(r: JIn, name: Seq<char>) -> Seq<Seq<char>> {
    let a = seq![sanitized_name(name)];
    let b = match opt_in_str(in_get(r, "id"@)) {
        Some(id) => a.push(id),
        None => a,
    };
    match log_id(r) {
        Some(l) => b.push(l),
        None => b,
    }
}

pub(crate) fn number_u64_of(v: &JsonInput) -> (r: Option<u64>)
    ensures
        match r {
            Some(n) => number_u64(v@) == Some(n as nat),
            None => number_u64(v@) is None,
        },
{
    match v {
        JsonInput::Number(t) => {
            let chars = crate::text::chars_of(t.as_str());
            if chars.len() > 0 && chars[0] != '+' {
                crate::text::parse_u64(t.as_str())
            } else {
                None
            }
        },
        _ => None,
    }
}

/// The names a step's log file may have.
pub fn step_log_candidates(record: &JsonInput, name: &str) -> (r: Vec<String>)
    ensures
        crate::text::views(r@) == log_candidates(record@, name@),
{
    let mut r: Vec<String> = Vec::new();
    r.push(sanitize_step_log_name(name));
    assert(crate::text::views(r@) =~= seq![sanitized_name(name@)]);
    if let Some(idv) = record.get("id") {
        if let Some(id) = idv.as_str() {
            let ghost before = crate::text::views(r@);
            r.push(id.to_owned());
            assert(crate::text::views(r@) =~= before.push(id@));
        }
    }
    let ghost b = crate::text::views(r@);
    let lid: Option<String> = match record.get("log") {
        Some(l) => match l.get("id") {
            Some(id) => match id.as_str() {
                Some(s) => Some(s.to_owned()),
                None => match number_u64_of(id) {
                    Some(n) => Some(crate::text::u64_to_string(n)),
                    None => None,
                },
            },
            None => None,
        },
        None => None,
    };
    assert(opt_view(lid) == log_id(record@));
    if let Some(l) = lid {
        r.push(l);
        assert(crate::text::views(r@) =~= b.push(r@.last()@));
    }
    r
}

/// How a step ended, from its result word (`succeeded` when it has none).
pub open spec fn step_status_of(result: Option<Seq<char>>) -> StepStatus {
    let w = ascii_lower(match result {
        Some(w) => w,
        None => "succeeded"@,
    });
    if w == "failed"@ || w == "failure"@ {
        StepStatus::Failed
    } else if w == "skipped"@ {
        StepStatus::Skipped
    } else {
        StepStatus::Passed
    }
}

/// The path of a log file name under the steps directory.
pub open spec fn log_file(steps_dir: Seq<char>, candidate: Seq<char>) -> Seq<char> {
    path_join(steps_dir, candidate + ".log"@)
}

/// The first candidate log file that exists.
pub open spec fn first_existing(steps_dir: Seq<char>, cands: Seq<Seq<char>>, existing: Set<Seq<char>>) -> Option<Seq<char>>
    decreases cands.len(),
{
    if cands.len() == 0 {
        None
    } else if existing.contains(log_file(steps_dir, cands[0])) {
        Some(log_file(steps_dir, cands[0]))
    } else {
        first_existing(steps_dir, cands.drop_first(), existing)
    }
}

/// The `Task` records of a timeline that have a name, in order.
pub open spec fn task_records(rs: Seq<JIn>) -> Seq<JIn>
    decreases rs.len(),
{
    if rs.len() == 0 {
        Seq::empty()
    } else if record_type(rs.last()) == Some("Task"@) && record_name(rs.last()) is Some {
        task_records(rs.drop_last()).push(rs.last())
    } else {
        task_records(rs.drop_last())
    }
}

/// The step a `Task` record describes.
pub open spec fn step_of_record(s: StepResult, r: JIn, steps_dir: Option<Seq<char>>, existing: Set<Seq<char>>) -> bool {
    let name = record_name(r)->Some_0;
    &&& s.name@ == name
    &&& s.status == step_status_of(record_result(r))
    &&& opt_view(s.log_path) == match steps_dir {
        Some(d) => first_existing(d, log_candidates(r, name), existing),
        None => None,
    }
}

/// The log files one named `Task` record may have under the steps directory, in order.
pub open spec fn record_log_files(r: JIn, steps_dir: Seq<char>) -> Seq<Seq<char>> {
    log_candidates(r, record_name(r)->Some_0).map_values(|c: Seq<char>| log_file(steps_dir, c))
}

/// Every log file the given `Task` records may have, record after record.
pub open spec fn log_files_of(ts: Seq<JIn>, steps_dir: Seq<char>) -> Seq<Seq<char>>
    decreases ts.len(),
{
    if ts.len() == 0 {
        Seq::empty()
    } else {
        log_files_of(ts.drop_last(), steps_dir) + record_log_files(ts.last(), steps_dir)
    }
}

fn record_name_of(r: &JsonInput) -> (t: Option<&str>)
    ensures
        match t {
            Some(s) => record_name(r@) == Some(s@),
            None => record_name(r@) is None,
        },
{
    match r.get("name") {
        Some(x) => x.as_str(),
        None => match r.get("Name") {
            Some(y) => y.as_str(),
            None => None,
        },
    }
}

fn status_from(result: Option<&str>) -> (s: StepStatus)
    ensures
        s == step_status_of(match result {
            Some(w) => Some(w@),
            None => None,
        }),
{
    proof {
        reveal_strlit("succeeded");
    }
    let w = to_ascii_lower(match result {
        Some(w) => w,
        None => "succeeded",
    });
    if str_eq(w.as_str(), "failed") || str_eq(w.as_str(), "failure") {
        StepStatus::Failed
    } else if str_eq(w.as_str(), "skipped") {
        StepStatus::Skipped
    } else {
        StepStatus::Passed
    }
}

fn first_existing_of(steps_dir: &str, cands: &Vec<String>, existing: &StrSet) -> (r: Option<String>)
    requires
        existing.wf(),
    ensures
        opt_view(r) == first_existing(steps_dir@, crate::text::views(cands@), existing.members()),
{
    let ghost cs = crate::text::views(cands@);
    let mut i: usize = 0;
    assert(cs.skip(0) =~= cs);
    while i < cands.len()
        invariant
            existing.wf(),
            i <= cands@.len(),
            cs == crate::text::views(cands@),
            first_existing(steps_dir@, cs, existing.members()) == first_existing(steps_dir@, cs.skip(i as int), existing.members()),
        decreases cands.len() - i,
    {
        assert(cs.skip(i as int)[0] == cands@[i as int]@);
        let file = cat(cands[i].as_str(), ".log");
        let path = join_path(steps_dir, file.as_str());
        if existing.contains(path.as_str()) {
            return Some(path);
        }
        assert(cs.skip(i as int).drop_first() =~= cs.skip(i + 1));
        i += 1;
    }
    None
}

/// The steps of a timeline: one per named `Task` record, in order, with how it ended and the
/// first of its candidate log files under `steps_dir` that is among `existing`.
pub fn parse_timeline_steps(records: &JsonInput, steps_dir: Option<&str>, existing: &StrSet) -> (r: Vec<StepResult>)
    requires
        existing.wf(),
    ensures
        r@.len() == task_records(timeline_records(records@)).len(),
        forall|i: int| 0 <= i < r@.len() ==> step_of_record(#[trigger] r@[i], task_records(timeline_records(records@))[i],
            match steps_dir {
                Some(d) => Some(d@),
                None => None,
            }, existing.members()),
{
    let mut r: Vec<StepResult> = Vec::new();
    let items = match records {
        JsonInput::Array(items, _) => items,
        _ => return r,
    };
    proof { lemma_input_items_view(items@); }
    let ghost rs = input_items_view(items@);
    let ghost sd = match steps_dir {
        Some(d) => Some(d@),
        None => None,
    };
    let mut i: usize = 0;
    while i < items.len()
        invariant
            existing.wf(),
            i <= items.len(),
            rs == input_items_view(items@),
            rs == timeline_records(records@),
            rs.len() == items.len(),
            forall|j: int| 0 <= j < items.len() ==> #[trigger] rs[j] == items[j]@,
            sd == match steps_dir {
                Some(d) => Some(d@),
                None => None::<Seq<char>>,
            },
            r@.len() == task_records(rs.take(i as int)).len(),
            forall|j: int| 0 <= j < r@.len() ==> step_of_record(#[trigger] r@[j], task_records(rs.take(i as int))[j], sd, existing.members()),
        decreases items.len() - i,
    {
        assert(rs.take(i + 1).drop_last() =~= rs.take(i as int));
        assert(rs.take(i + 1).last() == items@[i as int]@);
        let record = &items[i];
        let is_task = match record_type_of(record) {
            Some(t) => str_eq(t, "Task"),
            None => false,
        };
        if is_task {
            if let Some(name) = record_name_of(record) {
                let status = status_from(record_result_of(record));
                let log_path = match steps_dir {
                    Some(d) => {
                        let cands = step_log_candidates(record, name);
                        first_existing_of(d, &cands, existing)
                    },
                    None => None,
                };
                r.push(StepResult { name: name.to_owned(), status, log_path });
            }
        }
        i += 1;
    }
    assert(rs.take(items.len() as int) =~= rs);
    r
}


/// Every log file the steps of a timeline may have under `steps_dir`: the files whose
/// existence decides each step's log path.
pub fn timeline_log_files(records: &JsonInput, steps_dir: &str) -> (r: Vec<String>)
    ensures
        crate::text::views(r@) == log_files_of(task_records(timeline_records(records@)), steps_dir@),
{
    let mut r: Vec<String> = Vec::new();
    let items = match records {
        JsonInput::Array(items, _) => items,
        _ => {
            assert(crate::text::views(r@) =~= Seq::<Seq<char>>::empty());
            return r;
        },
    };
    proof { lemma_input_items_view(items@); }
    let ghost rs = input_items_view(items@);
    assert(crate::text::views(r@) =~= Seq::<Seq<char>>::empty());
    assert(rs.take(0) =~= Seq::<JIn>::empty());
    let mut i: usize = 0;
    while i < items.len()
        invariant
            i <= items.len(),
            rs == input_items_view(items@),
            rs == timeline_records(records@),
            rs.len() == items.len(),
            forall|j: int| 0 <= j < items.len() ==> #[trigger] rs[j] == items[j]@,
            crate::text::views(r@) == log_files_of(task_records(rs.take(i as int)), steps_dir@),
        decreases items.len() - i,
    {
        assert(rs.take(i + 1).drop_last() =~= rs.take(i as int));
        assert(rs.take(i + 1).last() == items@[i as int]@);
        let record = &items[i];
        let is_task = match record_type_of(record) {
            Some(t) => str_eq(t, "Task"),
            None => false,
        };
        if is_task {
            if let Some(name) = record_name_of(record) {
                let cands = step_log_candidates(record, name);
                let ghost before = crate::text::views(r@);
                let ghost ts = task_records(rs.take(i + 1));
                assert(ts.drop_last() == task_records(rs.take(i as int)));
                assert(ts.last() == record@);
                let mut k: usize = 0;
                while k < cands.len()
                    invariant
                        k <= cands.len(),
                        crate::text::views(r@) == before + record_log_files(record@, steps_dir@).take(k as int),
                        crate::text::views(cands@) == log_candidates(record@, name@),
                        record_name(record@) == Some(name@),
                    decreases cands.len() - k,
                {
                    let file = cat(cands[k].as_str(), ".log");
                    let path = join_path(steps_dir, file.as_str());
                    let ghost prev = crate::text::views(r@);
                    r.push(path);
                    assert(crate::text::views(r@) =~= prev.push(r@.last()@));
                    assert(record_log_files(record@, steps_dir@).take(k + 1) =~= record_log_files(record@, steps_dir@).take(k as int).push(log_file(steps_dir@, cands@[k as int]@)));
                    k += 1;
                }
                assert(record_log_files(record@, steps_dir@).take(cands.len() as int) =~= record_log_files(record@, steps_dir@));
            }
        }
        i += 1;
    }
    assert(rs.take(items.len() as int) =~= rs);
    r
}

/// A job's result from its runner's exit and its timeline: it succeeded when the runner did
/// and the timeline shows neither a failed step nor a failed job; the failed step is the first
/// failed one, else `unknown` when the job failed.
pub fn build_job_result_from_logs(plan: &crate::runner::types::JobExecutionPlan, succeeded: bool, duration_ms: u64,
    steps: Vec<StepResult>, job_failed: bool) -> (r: JobResult)
    ensures
        r.name@ == plan.job_id@,
        r.workflow@ == plan.workflow@,
        r.succeeded == (succeeded && !job_failed && !(exists|i: int| 0 <= i < steps@.len() && #[trigger] steps@[i].status == StepStatus::Failed)),
        !r.paused,
        r.duration_ms == duration_ms,
        opt_view(r.debug_log_path) == Some(path_join(plan.log_dir@, "debug.log"@)),
        r.steps@ == steps@,
        opt_view(r.failed_step) == first_failed_step(steps@, r.succeeded),
{
    let mut first: Option<usize> = None;
    let mut i: usize = 0;
    while i < steps.len()
        invariant
            i <= steps.len(),
            match first {
                Some(k) => k < steps.len() && steps@[k as int].status == StepStatus::Failed
                    && forall|j: int| 0 <= j < k ==> #[trigger] steps@[j].status != StepStatus::Failed,
                None => forall|j: int| 0 <= j < i ==> #[trigger] steps@[j].status != StepStatus::Failed,
            },
        decreases steps.len() - i,
    {
        if first.is_none() && steps[i].status == StepStatus::Failed {
            first = Some(i);
        }
        i += 1;
    }
    let ok = succeeded && first.is_none() && !job_failed;
    proof {
        reveal_strlit("unknown");
        reveal_strlit("debug.log");
        lemma_first_failed(steps@, first);
    }
    let failed_step = match first {
        Some(k) => Some(steps[k].name.clone()),
        None => if !ok { Some("unknown".to_owned()) } else { None },
    };
    JobResult {
        name: plan.job_id.clone(),
        workflow: plan.workflow.clone(),
        succeeded: ok,
        paused: false,
        duration_ms,
        failed_step,
        debug_log_path: Some(join_path(plan.log_dir.as_str(), "debug.log")),
        steps,
    }
}

/// The index of the first failed step.
pub open spec fn first_failed_index(steps: Seq<StepResult>) -> Option<int>
    decreases steps.len(),
{
    if steps.len() == 0 {
        None
    } else {
        match first_failed_index(steps.drop_last()) {
            Some(k) => Some(k),
            None => if steps.last().status == StepStatus::Failed { Some(steps.len() - 1) } else { None },
        }
    }
}

/// The name a job result gives as its failed step.
pub open spec fn first_failed_step(steps: Seq<StepResult>, succeeded: bool) -> Option<Seq<char>> {
    match first_failed_index(steps) {
        Some(k) => Some(steps[k].name@),
        None => if !succeeded { Some("unknown"@) } else { None },
    }
}

proof fn lemma_first_failed(steps: Seq<StepResult>, first: Option<usize>)
    requires
        match first {
            Some(k) => k < steps.len() && steps[k as int].status == StepStatus::Failed
                && forall|j: int| 0 <= j < k ==> #[trigger] steps[j].status != StepStatus::Failed,
            None => forall|j: int| 0 <= j < steps.len() ==> #[trigger] steps[j].status != StepStatus::Failed,
        },
    ensures
        first_failed_index(steps) == match first {
            Some(k) => Some(k as int),
            None => None::<int>,
        },
    decreases steps.len(),
{
    if steps.len() > 0 {
        let rest = steps.drop_last();
        match first {
            Some(k) => {
                if k < steps.len() - 1 {
                    lemma_first_failed(rest, first);
                } else {
                    assert forall|j: int| 0 <= j < rest.len() implies #[trigger] rest[j].status != StepStatus::Failed by {
                        assert(rest[j] == steps[j]);
                    }
                    lemma_first_failed(rest, None);
                }
            },
            None => {
                assert forall|j: int| 0 <= j < rest.len() implies #[trigger] rest[j].status != StepStatus::Failed by {
                    assert(rest[j] == steps[j]);
                }
                lemma_first_failed(rest, None);
            },
        }
    }
}

} // verus!
