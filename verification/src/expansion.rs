//! Expanding the reusable workflows a workflow calls, as a machine of steps: it asks its host
//! to read workflow files (which it parses itself) and to tell whether a called file exists, and decides
//! everything else — the call stack, the depth limit and cycle detection, the order of the
//! expanded entries, and how the needs of the callers' dependents are rewired.
use crate::reusable::{
    called_path_spec, enter_called_workflow, entries_wf, graft_called_entries, local_job_entry,
    resolve_called_path, rewire_needs, caller_with_inputs, workflow_call_input_defaults,
    workflow_call_output_defs, ExpandedJobEntry, ReusableWorkflowError, MAX_REUSABLE_DEPTH,
};
use crate::strmap::{text_map, StrMap, StrSet};
use crate::text::{join_path, owned, path_join};
use crate::workflow::{document_of, parse_workflow_str, WorkflowDocument, WorkflowParseError};
use crate::yaml::{yaml_document, Yaml};
use vstd::prelude::*;

verus! {

/// What a calling job passes on to the workflow it calls: its `with:` inputs, and the input
/// defaults and output definitions the called workflow declares.
#[derive(Debug)]
pub struct PendingCall {
    pub with: Option<StrMap<String>>,
    pub defaults: StrMap<String>,
    pub outputs: StrMap<String>,
}

/// One workflow on the call stack: its path as written and resolved, its depth, its document
/// once parsed, the next job to expand, the entries so far, the terminal entries of each
/// calling job, and the call under way.
#[derive(Debug)]
pub struct ExpansionFrame {
    pub path: String,
    pub resolved: String,
    pub depth: usize,
    pub workflow: Option<WorkflowDocument>,
    pub next_job: usize,
    pub entries: Vec<ExpandedJobEntry>,
    pub terminals: StrMap<Vec<String>>,
    pub called_path: String,
    pub call: Option<PendingCall>,
}

/// What the machine waits for: nothing yet, the document of the top workflow, whether a called
/// file exists, the document of a called workflow; or it has finished.
#[derive(Debug, Clone, Copy, PartialEq, Eq, Structural)]
pub enum ExpansionPhase {
    Fresh,
    AwaitDoc,
    AwaitExists,
    AwaitCalledDoc,
    Finished,
}

/// The state of an expansion.
#[derive(Debug)]
pub struct ExpansionState {
    pub root: String,
    pub repo_root: String,
    pub cwd: String,
    pub remote_cache: Option<StrMap<String>>,
    pub visited: StrSet,
    pub frames: Vec<ExpansionFrame>,
    pub phase: ExpansionPhase,
}

/// What the host answered: nothing yet, the text of the file it was asked to read (or the
/// message of the read error), or whether a file exists.
#[derive(Debug)]
pub enum ExpansionEvent {
    Start,
    Text(Result<String, String>),
    Exists(bool),
}

/// The next thing to do: read a workflow file, tell whether a file exists, or finish.
#[derive(Debug)]
pub enum ExpansionAction {
    Read(String),
    CheckExists(String),
    Finish(Result<Vec<ExpandedJobEntry>, ReusableWorkflowError>),
}

/// A path as the process sees it: relative paths are taken from the working directory.
pub open spec fn absolute(cwd: Seq<char>, path: Seq<char>) -> Seq<char> {
    path_join(cwd, path)
}

/// The jobs of a parsed frame.
pub open spec fn frame_jobs(f: ExpansionFrame) -> nat {
    f.workflow->0.jobs.keys().len()
}

/// A frame whose workflow is parsed, with sound bookkeeping.
pub open spec fn frame_ready(f: ExpansionFrame) -> bool {
    &&& f.workflow is Some
    &&& f.next_job <= frame_jobs(f)
    &&& f.terminals.wf()
    &&& entries_wf(f.entries@)
}

/// A parsed frame whose next job calls a workflow.
pub open spec fn frame_at_call(f: ExpansionFrame) -> bool {
    &&& frame_ready(f)
    &&& f.next_job < frame_jobs(f)
    &&& f.workflow->0.jobs.values()[f.next_job as int].uses is Some
    &&& f.called_path@ == called_path_spec_of_frame(f)
}

/// The called path the frame's current job resolves to (meaningful at a call).
pub open spec fn called_path_spec_of_frame(f: ExpansionFrame) -> Seq<char> {
    f.called_path@
}

/// A frame waiting for the workflow it calls to be expanded.
pub open spec fn frame_calling(f: ExpansionFrame) -> bool {
    &&& frame_at_call(f)
    &&& f.call matches Some(c) && (c.with matches Some(m) ==> m.wf()) && c.defaults.wf() && c.outputs.wf()
}

/// The resolved paths of the workflows on the call stack.
pub open spec fn stack_paths(s: ExpansionState) -> Set<Seq<char>> {
    Set::new(|p: Seq<char>| exists|i: int| 0 <= i < s.frames@.len() && (#[trigger] s.frames@[i]).resolved@ == p)
}

/// The call stack is sound: depths count from the root, every frame but the top waits on the
/// call of its current job, no workflow is on the stack twice, and the visited set is exactly
/// the stack's workflows.
pub open spec fn stack_ok(s: ExpansionState) -> bool {
    &&& s.visited.wf()
    &&& (s.remote_cache matches Some(c) ==> c.wf())
    &&& forall|i: int| 0 <= i < s.frames@.len() ==> (#[trigger] s.frames@[i]).depth == i && s.frames@[i].depth <= MAX_REUSABLE_DEPTH
    &&& forall|i: int| 0 <= i < s.frames@.len() - 1 ==> frame_calling(#[trigger] s.frames@[i])
    &&& forall|i: int, j: int| 0 <= i < j < s.frames@.len() ==> (#[trigger] s.frames@[i]).resolved@ != (#[trigger] s.frames@[j]).resolved@
    &&& s.visited.members() == stack_paths(s)
}

/// The state is sound for its phase.
pub open spec fn expansion_wf(s: ExpansionState) -> bool {
    &&& stack_ok(s)
    &&& match s.phase {
        ExpansionPhase::Fresh => s.frames@.len() == 0,
        ExpansionPhase::AwaitDoc => s.frames@.len() > 0 && s.frames@.last().workflow is None
            && s.frames@.last().next_job == 0 && s.frames@.last().terminals.wf() && entries_wf(s.frames@.last().entries@),
        ExpansionPhase::AwaitExists => s.frames@.len() > 0 && frame_at_call(s.frames@.last()),
        ExpansionPhase::AwaitCalledDoc => s.frames@.len() > 0 && frame_at_call(s.frames@.last()),
        ExpansionPhase::Finished => true,
    }
}

/// An expansion of the workflow at `workflow_path` in the repository at `repo_root`, relative
/// paths taken from `cwd`, remote calls looked up in the fetched cache.
pub fn expansion_start(workflow_path: &str, repo_root: &str, cwd: &str, remote_cache: Option<StrMap<String>>) -> (s: ExpansionState)
    requires
        remote_cache matches Some(c) ==> c.wf(),
    ensures
        expansion_wf(s),
        s.phase == ExpansionPhase::Fresh,
        s.root@ == workflow_path@,
        s.repo_root@ == repo_root@,
        s.cwd@ == cwd@,
        s.remote_cache == remote_cache,
{
    let s = ExpansionState {
        root: owned(workflow_path),
        repo_root: owned(repo_root),
        cwd: owned(cwd),
        remote_cache,
        visited: StrSet::new(),
        frames: Vec::new(),
        phase: ExpansionPhase::Fresh,
    };
    assert(s.visited.members() =~= stack_paths(s));
    s
}

fn finish(mut s: ExpansionState, r: Result<Vec<ExpandedJobEntry>, ReusableWorkflowError>) -> (out: (ExpansionState, ExpansionAction))
    ensures
        out.0.phase == ExpansionPhase::Finished,
        out.0.frames == s.frames,
        out.1 == ExpansionAction::Finish(r),
{
    s.phase = ExpansionPhase::Finished;
    (s, ExpansionAction::Finish(r))
}

/// Enters a workflow at `depth`: too deep, or already on the stack, finishes with that error;
/// otherwise it goes on the stack and its file is parsed.
fn enter(s: ExpansionState, path: String, depth: usize) -> (out: (ExpansionState, ExpansionAction))
    requires
        stack_ok(s),
        depth == s.frames@.len(),
        depth > 0 ==> frame_calling(s.frames@.last()),
    ensures
        depth > MAX_REUSABLE_DEPTH ==> (out.1 matches ExpansionAction::Finish(Err(ReusableWorkflowError::DepthExceeded(p))) && p@ == path@),
        depth <= MAX_REUSABLE_DEPTH && stack_paths(s).contains(absolute(s.cwd@, path@))
            ==> (out.1 matches ExpansionAction::Finish(Err(ReusableWorkflowError::Cycle(p))) && p@ == absolute(s.cwd@, path@)),
        depth <= MAX_REUSABLE_DEPTH && !stack_paths(s).contains(absolute(s.cwd@, path@)) ==> (
            out.1 matches ExpansionAction::Read(p) && p@ == path@ && expansion_wf(out.0) && out.0.phase == ExpansionPhase::AwaitDoc
            && out.0.frames@.len() == s.frames@.len() + 1 && out.0.frames@.last().path@ == path@
        ),
        out.1 is Finish ==> out.0.phase == ExpansionPhase::Finished,
{
    let mut s = s;
    let resolved = join_path(s.cwd.as_str(), path.as_str());
    let ghost before = s;
    match enter_called_workflow(path.as_str(), resolved.as_str(), depth, &mut s.visited) {
        Err(e) => finish(s, Err(e)),
        Ok(()) => {
            let frame = ExpansionFrame {
                path: path.clone(),
                resolved,
                depth,
                workflow: None,
                next_job: 0,
                entries: Vec::new(),
                terminals: StrMap::new(),
                called_path: String::new(),
                call: None,
            };
            s.frames.push(frame);
            s.phase = ExpansionPhase::AwaitDoc;
            proof {
                assert(before.frames@ =~= s.frames@.drop_last());
                assert forall|p: Seq<char>| #[trigger] s.visited.members().contains(p) == stack_paths(s).contains(p) by {
                    if stack_paths(before).contains(p) {
                        let i = choose|i: int| 0 <= i < before.frames@.len() && (#[trigger] before.frames@[i]).resolved@ == p;
                        assert(s.frames@[i] == before.frames@[i]);
                    }
                    if stack_paths(s).contains(p) {
                        let i = choose|i: int| 0 <= i < s.frames@.len() && (#[trigger] s.frames@[i]).resolved@ == p;
                        if i < before.frames@.len() {
                            assert(s.frames@[i] == before.frames@[i]);
                            assert(stack_paths(before).contains(p));
                        }
                    }
                    if p == absolute(s.cwd@, path@) {
                        assert(s.frames@[before.frames@.len() as int].resolved@ == p);
                    }
                }
                assert(s.visited.members() =~= stack_paths(s));
                assert forall|i: int, j: int| 0 <= i < j < s.frames@.len() implies (#[trigger] s.frames@[i]).resolved@ != (#[trigger] s.frames@[j]).resolved@ by {
                    if j == before.frames@.len() {
                        assert(s.frames@[i] == before.frames@[i]);
                        assert(stack_paths(before).contains(s.frames@[i].resolved@));
                    } else {
                        assert(s.frames@[i] == before.frames@[i]);
                        assert(s.frames@[j] == before.frames@[j]);
                    }
                }
                assert forall|i: int| 0 <= i < s.frames@.len() - 1 implies frame_calling(#[trigger] s.frames@[i]) by {
                    assert(s.frames@[i] == before.frames@[i]);
                }
                assert forall|i: int| 0 <= i < s.frames@.len() implies (#[trigger] s.frames@[i]).depth == i && s.frames@[i].depth <= MAX_REUSABLE_DEPTH by {
                    if i < before.frames@.len() {
                        assert(s.frames@[i] == before.frames@[i]);
                    }
                }
            }
            (s, ExpansionAction::Read(path))
        },
    }
}

/// How much of the stack is left to expand: the number of frames, then the jobs left in the
/// top frame.
pub open spec fn jobs_left(s: ExpansionState) -> int {
    if s.frames@.len() == 0 {
        0
    } else {
        frame_jobs(s.frames@.last()) - s.frames@.last().next_job
    }
}

/// Expands from the top frame on: local jobs become entries; a calling job asks whether the
/// called file exists; a frame with no jobs left is rewired and handed to the frame that
/// called it, or finishes the expansion when it is the root.
fn advance(s: ExpansionState) -> (out: (ExpansionState, ExpansionAction))
    requires
        stack_ok(s),
        s.frames@.len() > 0,
        frame_ready(s.frames@.last()),
    ensures
        out.1 is Finish ==> out.0.phase == ExpansionPhase::Finished,
        out.1 matches ExpansionAction::Finish(Ok(_)) ==> out.0.frames@.len() == 0,
        out.1 matches ExpansionAction::CheckExists(p) ==> expansion_wf(out.0) && out.0.phase == ExpansionPhase::AwaitExists
            && out.0.frames@.last().called_path@ == p@,
        !(out.1 is Read),
{
    let mut s = s;
    loop
        invariant
            stack_ok(s),
            s.frames@.len() > 0,
            frame_ready(s.frames@.last()),
        decreases s.frames@.len(), jobs_left(s),
    {
        let ghost before = s;
        let mut top = s.frames.pop().unwrap();
        proof {
            assert(s.frames@ =~= before.frames@.drop_last());
        }
        let njobs = match &top.workflow {
            Some(w) => w.jobs.len(),
            None => 0,
        };
        if top.next_job < njobs {
            let uses: Option<String> = match &top.workflow {
                Some(w) => match &w.jobs.value_at(top.next_job).uses {
                    Some(u) => Some(u.clone()),
                    None => None,
                },
                None => None,
            };
            match uses {
                None => {
                    let entry = match &top.workflow {
                        Some(w) => local_job_entry(top.path.as_str(), w.jobs.value_at(top.next_job)),
                        None => {
                            assert(false);
                            s.frames.push(top);
                            return finish(s, Err(ReusableWorkflowError::WorkflowParse(String::new())));
                        },
                    };
                    let ghost old_entries = top.entries@;
                    top.entries.push(entry);
                    top.next_job = top.next_job + 1;
                    s.frames.push(top);
                    proof {
                        assert forall|i: int| 0 <= i < top.entries@.len() implies crate::reusable::entry_wf(#[trigger] top.entries@[i]) by {
                            if i < old_entries.len() {
                                assert(top.entries@[i] == old_entries[i]);
                            }
                        }
                        lemma_top_replaced(before, s);
                    }
                },
                Some(u) => {
                    let cache: Option<&StrMap<String>> = match &s.remote_cache {
                        Some(c) => Some(c),
                        None => None,
                    };
                    match resolve_called_path(u.as_str(), s.repo_root.as_str(), cache) {
                        Err(e) => {
                            s.frames.push(top);
                            return finish(s, Err(e));
                        },
                        Ok(called) => {
                            top.called_path = called.clone();
                            s.frames.push(top);
                            s.phase = ExpansionPhase::AwaitExists;
                            proof {
                                lemma_top_replaced(before, s);
                            }
                            return (s, ExpansionAction::CheckExists(called));
                        },
                    }
                },
            }
        } else {
            let entries = rewire_needs(&top.entries, &top.terminals);
            let ghost visited_before = s.visited.members();
            s.visited.remove(top.resolved.as_str());
            if s.frames.len() == 0 {
                return finish(s, Ok(entries));
            }
            let ghost middle = s.frames@;
            let mut parent = s.frames.pop().unwrap();
            proof {
                assert(parent == before.frames@[before.frames@.len() - 2]);
                assert(frame_calling(parent));
            }
            let parent_jobs = match &parent.workflow {
                Some(w) => w.jobs.len(),
                None => 0,
            };
            assert(parent.next_job < parent_jobs);
            let call = parent.call.take();
            let (job_id, (mut grafted, terms)) = match (&parent.workflow, &call) {
                (Some(w), Some(c)) => {
                    let job = w.jobs.value_at(parent.next_job);
                    (job.id.clone(), graft_called_entries(job, &c.with, &c.defaults, &c.outputs, &entries))
                },
                _ => (String::new(), (Vec::new(), Vec::new())),
            };
            parent.terminals.insert(job_id, terms);
            let ghost old_entries = parent.entries@;
            let ghost added = grafted@;
            parent.entries.append(&mut grafted);
            parent.next_job = parent.next_job + 1;
            s.frames.push(parent);
            proof {
                assert forall|i: int| 0 <= i < parent.entries@.len() implies crate::reusable::entry_wf(#[trigger] parent.entries@[i]) by {
                    if i < old_entries.len() {
                        assert(parent.entries@[i] == old_entries[i]);
                    } else {
                        assert(parent.entries@[i] == added[i - old_entries.len()]);
                    }
                }
                lemma_unstack(before, s);
            }
        }
    }
}

proof fn lemma_top_replaced(before: ExpansionState, after: ExpansionState)
    requires
        stack_ok(before),
        before.frames@.len() > 0,
        after.frames@.len() == before.frames@.len(),
        forall|i: int| 0 <= i < after.frames@.len() - 1 ==> after.frames@[i] == before.frames@[i],
        after.frames@.last().resolved@ == before.frames@.last().resolved@,
        after.frames@.last().depth == before.frames@.last().depth,
        after.visited == before.visited,
        after.remote_cache == before.remote_cache,
    ensures
        stack_ok(after),
{
    let n = after.frames@.len() as int;
    assert forall|i: int| 0 <= i < n implies (#[trigger] after.frames@[i]).resolved@ == before.frames@[i].resolved@
        && after.frames@[i].depth == before.frames@[i].depth by {
        if i < n - 1 {
            assert(after.frames@[i] == before.frames@[i]);
        }
    }
    assert forall|p: Seq<char>| #[trigger] stack_paths(after).contains(p) == stack_paths(before).contains(p) by {
        if stack_paths(after).contains(p) {
            let i = choose|i: int| 0 <= i < after.frames@.len() && (#[trigger] after.frames@[i]).resolved@ == p;
            assert(before.frames@[i].resolved@ == p);
        }
        if stack_paths(before).contains(p) {
            let i = choose|i: int| 0 <= i < before.frames@.len() && (#[trigger] before.frames@[i]).resolved@ == p;
            assert(after.frames@[i].resolved@ == p);
        }
    }
    assert(stack_paths(after) =~= stack_paths(before));
    assert forall|i: int, j: int| 0 <= i < j < n implies (#[trigger] after.frames@[i]).resolved@ != (#[trigger] after.frames@[j]).resolved@ by {
        assert(before.frames@[i].resolved@ != before.frames@[j].resolved@);
    }
    assert forall|i: int| 0 <= i < n - 1 implies frame_calling(#[trigger] after.frames@[i]) by {
        assert(after.frames@[i] == before.frames@[i]);
    }
}

proof fn lemma_unstack(before: ExpansionState, after: ExpansionState)
    requires
        stack_ok(before),
        before.frames@.len() >= 2,
        after.frames@.len() == before.frames@.len() - 1,
        forall|i: int| 0 <= i < after.frames@.len() - 1 ==> after.frames@[i] == before.frames@[i],
        after.frames@.last().resolved@ == before.frames@[after.frames@.len() - 1].resolved@,
        after.frames@.last().depth == before.frames@[after.frames@.len() - 1].depth,
        after.visited.wf(),
        after.visited.members() == before.visited.members().remove(before.frames@.last().resolved@),
        after.remote_cache == before.remote_cache,
    ensures
        stack_ok(after),
{
    let n = after.frames@.len() as int;
    let top = before.frames@.last().resolved@;
    assert forall|i: int| 0 <= i < n implies (#[trigger] after.frames@[i]).resolved@ == before.frames@[i].resolved@
        && after.frames@[i].depth == before.frames@[i].depth by {
        if i < n - 1 {
            assert(after.frames@[i] == before.frames@[i]);
        }
    }
    assert forall|p: Seq<char>| #[trigger] stack_paths(after).contains(p) == stack_paths(before).remove(top).contains(p) by {
        if stack_paths(after).contains(p) {
            let i = choose|i: int| 0 <= i < after.frames@.len() && (#[trigger] after.frames@[i]).resolved@ == p;
            assert(before.frames@[i].resolved@ == p);
            assert(before.frames@[i].resolved@ != before.frames@[n].resolved@);
        }
        if stack_paths(before).remove(top).contains(p) {
            let i = choose|i: int| 0 <= i < before.frames@.len() && (#[trigger] before.frames@[i]).resolved@ == p;
            assert(i != n);
            assert(after.frames@[i].resolved@ == p);
        }
    }
    assert(stack_paths(after) =~= stack_paths(before).remove(top));
    assert forall|i: int, j: int| 0 <= i < j < n implies (#[trigger] after.frames@[i]).resolved@ != (#[trigger] after.frames@[j]).resolved@ by {
        assert(before.frames@[i].resolved@ != before.frames@[j].resolved@);
    }
    assert forall|i: int| 0 <= i < n - 1 implies frame_calling(#[trigger] after.frames@[i]) by {
        assert(after.frames@[i] == before.frames@[i]);
    }
}

/// The message with which reading a workflow at `path` fails, given the host's answer: the
/// read error, text that is not YAML, or a root that is not a mapping; `None` where the answer
/// reads as a workflow (and where it is no text at all).
pub open spec fn read_error(path: Seq<char>, e: ExpansionEvent) -> Option<Seq<char>> {
    match e {
        ExpansionEvent::Text(Err(src)) => Some("failed to read workflow "@ + path + ": "@ + src@),
        ExpansionEvent::Text(Ok(text)) => match yaml_document(text@) {
            Err(y) => Some("failed to parse workflow "@ + path + ": "@ + y),
            Ok(raw) => if raw is Mapping {
                None
            } else {
                Some("invalid workflow "@ + path + ": "@ + "workflow root must be a mapping"@)
            },
        },
        _ => None,
    }
}

/// The host's answer is text that reads as a workflow.
pub open spec fn read_ok(e: ExpansionEvent) -> bool {
    e matches ExpansionEvent::Text(Ok(text)) && yaml_document(text@) matches Ok(raw) && raw is Mapping
}

/// Reads the workflow at `path` from the host's answer: a read error, text that is not YAML and
/// a root that is not a mapping give their messages; otherwise the document is read from the
/// YAML as `parse_workflow_str` reads it.
pub fn read_document(path: &str, answer: Result<String, String>) -> (r: Result<WorkflowDocument, String>)
    ensures
        r matches Err(m) ==> read_error(path@, ExpansionEvent::Text(answer)) == Some(m@),
        r is Ok <==> read_ok(ExpansionEvent::Text(answer)),
        r is Ok <==> read_error(path@, ExpansionEvent::Text(answer)) is None,
        r matches Ok(d) ==> d.wf() && (answer matches Ok(text) && yaml_document(text@) matches Ok(raw)
            && document_of(d, path@, raw)),
{
    match answer {
        Err(source) => {
            let e = WorkflowParseError::Read { path: path.to_owned(), source };
            Err(e.message())
        },
        Ok(text) => match parse_workflow_str(path, text.as_str()) {
            Ok(d) => Ok(d),
            Err(e) => Err(e.message()),
        },
    }
}

/// Whether a file exists, if the answer says.
pub open spec fn exists_answer(e: ExpansionEvent) -> Option<bool> {
    match e {
        ExpansionEvent::Exists(b) => Some(b),
        _ => None,
    }
}

fn unexpected(s: ExpansionState) -> (out: (ExpansionState, ExpansionAction))
    ensures
        out.0.phase == ExpansionPhase::Finished,
        out.1 matches ExpansionAction::Finish(Err(ReusableWorkflowError::WorkflowParse(_))),
{
    finish(s, Err(ReusableWorkflowError::WorkflowParse(owned("unexpected answer while expanding workflows"))))
}

/// One step of the expansion, from its state and the host's answer to the last request.
/// It starts by entering the root workflow. A parse error ends it with that message. A parsed
/// workflow's jobs are expanded in key order: a local job becomes an entry; a calling job's
/// workflow path is resolved and must exist, is parsed for its input defaults and output
/// definitions, and is then entered one level deeper, which fails past the depth limit or when
/// the workflow is already on the call stack (a cycle). A workflow whose jobs are done is
/// rewired and grafted into its caller, and the root's entries finish the expansion.
pub fn expansion_step(state: ExpansionState, event: ExpansionEvent) -> (r: (ExpansionState, ExpansionAction))
    requires
        expansion_wf(state),
    ensures
        r.1 is Finish ==> r.0.phase == ExpansionPhase::Finished,
        !(r.1 is Finish) ==> expansion_wf(r.0),
        r.1 matches ExpansionAction::Finish(Ok(_)) ==> r.0.frames@.len() == 0,
        state.phase == ExpansionPhase::Fresh ==> (r.1 matches ExpansionAction::Read(p) && p@ == state.root@
            && r.0.frames@.len() == 1 && r.0.phase == ExpansionPhase::AwaitDoc),
        state.phase == ExpansionPhase::Finished ==> r.1 is Finish,
        state.phase == ExpansionPhase::AwaitDoc && read_error(state.frames@.last().path@, event) is Some
            ==> (r.1 matches ExpansionAction::Finish(Err(ReusableWorkflowError::WorkflowParse(x)))
                && x@ == read_error(state.frames@.last().path@, event)->0),
        state.phase == ExpansionPhase::AwaitCalledDoc && read_error(state.frames@.last().called_path@, event) is Some
            ==> (r.1 matches ExpansionAction::Finish(Err(ReusableWorkflowError::WorkflowParse(x)))
                && x@ == read_error(state.frames@.last().called_path@, event)->0),
        state.phase == ExpansionPhase::AwaitExists && exists_answer(event) == Some(false) ==> (
            r.1 matches ExpansionAction::Finish(Err(ReusableWorkflowError::MissingCalledWorkflow { path, job_id }))
            && path@ == state.frames@.last().called_path@
            && job_id@ == state.frames@.last().workflow->0.jobs.values()[state.frames@.last().next_job as int].id@
        ),
        state.phase == ExpansionPhase::AwaitExists && exists_answer(event) == Some(true) ==> (
            r.1 matches ExpansionAction::Read(p) && p@ == state.frames@.last().called_path@
            && r.0.phase == ExpansionPhase::AwaitCalledDoc
        ),
        state.phase == ExpansionPhase::AwaitCalledDoc && read_ok(event)
            && state.frames@.len() > MAX_REUSABLE_DEPTH ==> (
            r.1 matches ExpansionAction::Finish(Err(ReusableWorkflowError::DepthExceeded(p)))
            && p@ == state.frames@.last().called_path@
        ),
        state.phase == ExpansionPhase::AwaitCalledDoc && read_ok(event)
            && state.frames@.len() <= MAX_REUSABLE_DEPTH
            && stack_paths(state).contains(absolute(state.cwd@, state.frames@.last().called_path@)) ==> (
            r.1 matches ExpansionAction::Finish(Err(ReusableWorkflowError::Cycle(p)))
            && p@ == absolute(state.cwd@, state.frames@.last().called_path@)
        ),
        state.phase == ExpansionPhase::AwaitCalledDoc && read_ok(event)
            && state.frames@.len() <= MAX_REUSABLE_DEPTH
            && !stack_paths(state).contains(absolute(state.cwd@, state.frames@.last().called_path@)) ==> (
            r.1 matches ExpansionAction::Read(p) && p@ == state.frames@.last().called_path@
            && r.0.frames@.len() == state.frames@.len() + 1 && r.0.phase == ExpansionPhase::AwaitDoc
        ),
        state.phase == ExpansionPhase::AwaitCalledDoc && read_ok(event)
            && state.frames@.len() <= MAX_REUSABLE_DEPTH
            && absolute(state.cwd@, state.frames@.last().called_path@) == state.frames@.last().resolved@ ==> (
            r.1 matches ExpansionAction::Finish(Err(ReusableWorkflowError::Cycle(p)))
            && p@ == state.frames@.last().resolved@
        ),
        state.phase == ExpansionPhase::AwaitDoc && read_ok(event) ==> !(r.1 is Read),
{
    let ghost before = state;
    proof {
        if state.frames@.len() > 0 {
            let i = state.frames@.len() - 1;
            assert(state.frames@[i] == state.frames@.last());
            assert(stack_paths(state).contains(state.frames@.last().resolved@));
        }
    }
    match state.phase {
        ExpansionPhase::Fresh => {
            let root = state.root.clone();
            proof {
                assert(stack_paths(state) =~= Set::<Seq<char>>::empty()) by {
                    assert forall|p: Seq<char>| !stack_paths(state).contains(p) by {}
                }
            }
            enter(state, root, 0)
        },
        ExpansionPhase::Finished => finish(state, Err(ReusableWorkflowError::WorkflowParse(owned("the expansion has finished")))),
        ExpansionPhase::AwaitDoc => match event {
            ExpansionEvent::Text(answer) => match read_document(state.frames[state.frames.len() - 1].path.as_str(), answer) {
            Err(m) => finish(state, Err(ReusableWorkflowError::WorkflowParse(m))),
            Ok(doc) => {
                let mut s = state;
                let mut top = s.frames.pop().unwrap();
                top.workflow = Some(doc);
                s.frames.push(top);
                proof {
                    lemma_top_replaced(before, s);
                }
                advance(s)
            },
            },
            _ => unexpected(state),
        },
        ExpansionPhase::AwaitExists => match event {
            ExpansionEvent::Exists(true) => {
                let mut s = state;
                let called = s.frames[s.frames.len() - 1].called_path.clone();
                s.phase = ExpansionPhase::AwaitCalledDoc;
                (s, ExpansionAction::Read(called))
            },
            ExpansionEvent::Exists(false) => {
                let n = state.frames.len();
                let path = state.frames[n - 1].called_path.clone();
                let job_id = match &state.frames[n - 1].workflow {
                    Some(w) => w.jobs.value_at(state.frames[n - 1].next_job).id.clone(),
                    None => String::new(),
                };
                finish(state, Err(ReusableWorkflowError::MissingCalledWorkflow { path, job_id }))
            },
            _ => unexpected(state),
        },
        ExpansionPhase::AwaitCalledDoc => match event {
            ExpansionEvent::Text(answer) => match read_document(state.frames[state.frames.len() - 1].called_path.as_str(), answer) {
            Err(m) => finish(state, Err(ReusableWorkflowError::WorkflowParse(m))),
            Ok(called_doc) => {
                let mut s = state;
                let mut top = s.frames.pop().unwrap();
                let call = match &top.workflow {
                    Some(w) => PendingCall {
                        with: caller_with_inputs(w.jobs.value_at(top.next_job)),
                        defaults: workflow_call_input_defaults(&called_doc),
                        outputs: workflow_call_output_defs(&called_doc),
                    },
                    None => PendingCall { with: None, defaults: StrMap::new(), outputs: StrMap::new() },
                };
                top.call = Some(call);
                let called = top.called_path.clone();
                s.frames.push(top);
                proof {
                    lemma_top_replaced(before, s);
                    assert(stack_paths(s) == stack_paths(before));
                }
                let depth = s.frames.len();
                enter(s, called, depth)
            },
            },
            _ => unexpected(state),
        },
    }
}

} // verus!
