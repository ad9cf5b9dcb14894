//! Reusable workflows: remote references, their cache paths, fetch hints, and how a called
//! workflow's jobs are grafted into the caller's graph.
use crate::matrix::scalar_pairs;
use crate::strmap::{lemma_text_map_insert, text_map, StrMap, StrSet};
use crate::workflow::{opt_model, WorkflowDocument, WorkflowJob};
use crate::yaml::{entries_view, get, lemma_entries_view, opt_scalar, opt_view, scalar_text, Yaml, YamlValue};
use crate::text::{copy_strings, is_prefix, starts_with, str_eq,
    cat, cat3, chars_of, from_chars, is_ascii_alnum, is_ascii_hex, join, join_path, join_strings,
    last_index_of, owned, path_join, push_char, rsplit_once_char, split_char, split_on_char, views,
    char_is_alnum,
};
use vstd::prelude::*;

verus! {

/// How deep reusable workflows may nest.
pub const MAX_REUSABLE_DEPTH: usize = 4;

/// One job of the expanded graph.
#[derive(Debug, Clone, PartialEq, Eq)]
pub struct ExpandedJobEntry {
    pub id: String,
    pub workflow_path: String,
    pub source_task_name: String,
    pub needs: Vec<String>,
    pub inputs: Option<StrMap<String>>,
    pub input_defaults: Option<StrMap<String>>,
    pub workflow_call_output_defs: Option<StrMap<String>>,
    pub caller_job_id: Option<String>,
}

/// A workflow in another repository: `owner/repo/path@ref`.
#[derive(Debug, Clone, PartialEq, Eq)]
pub struct RemoteWorkflowRef {
    pub owner: String,
    pub repo: String,
    pub path: String,
    pub ref_name: String,
    pub raw: String,
}

/// Why fetching a remote workflow failed: an HTTP status when there was one, and a message.
#[derive(Debug, Clone, PartialEq, Eq)]
pub struct RemoteFetchError {
    pub status: Option<u16>,
    pub message: String,
}

/// Fetches the text of a remote workflow.
pub trait RemoteWorkflowFetcher {
    fn fetch(&self, reference: &RemoteWorkflowRef, github_token: Option<&str>) -> Result<String, RemoteFetchError>;
}

/// What can go wrong while expanding reusable workflows.
#[derive(Debug, Clone, PartialEq, Eq)]
pub enum ReusableWorkflowError {
    WorkflowParse(String),
    DepthExceeded(String),
    Cycle(String),
    RemoteNotResolved(String),
    MissingCalledWorkflow { path: String, job_id: String },
    RemoteFetch(Vec<String>),
    Io { path: String, source: String },
}

// ---------------------------------------------------------------------------
// Remote references
// ---------------------------------------------------------------------------

/// The reference that `uses` names: split at its last `@`; the ref must be non-empty and the
/// part before it must have at least three `/`-separated segments (owner, repo, path).
pub open spec fn remote_ref_spec(uses: Seq<char>) -> Option<(Seq<char>, Seq<char>, Seq<char>, Seq<char>)> {
    if exists|i: int| last_index_of(uses, '@', i) {
        let at = choose|i: int| last_index_of(uses, '@', i);
        let ref_name = uses.skip(at + 1);
        let segs = split_char(uses.take(at), '/');
        if ref_name.len() == 0 || segs.len() < 3 {
            None
        } else {
            Some((segs[0], segs[1], join(segs.skip(2), "/"@), ref_name))
        }
    } else {
        None
    }
}

/// Parses `owner/repo/path@ref`.
pub fn parse_remote_ref(uses: &str) -> (r: Option<RemoteWorkflowRef>)
    ensures
        match r {
            Some(x) => remote_ref_spec(uses@) == Some((x.owner@, x.repo@, x.path@, x.ref_name@)) && x.raw@ == uses@,
            None => remote_ref_spec(uses@) is None,
        },
{
    let (path_part, ref_name) = match rsplit_once_char(uses, '@') {
        Some(p) => p,
        None => {
            assert(!exists|i: int| last_index_of(uses@, '@', i));
            return None;
        },
    };
    proof {
        let i = choose|i: int| last_index_of(uses@, '@', i) && path_part@ == uses@.take(i) && ref_name@ == uses@.skip(i + 1);
        assert forall|k: int| last_index_of(uses@, '@', k) implies k == i by {}
    }
    if ref_name.as_str().is_empty() {
        return None;
    }
    let segments = split_on_char(path_part.as_str(), '/');
    if segments.len() < 3 {
        return None;
    }
    let mut rest: Vec<String> = Vec::new();
    let mut k: usize = 2;
    while k < segments.len()
        invariant
            2 <= k <= segments.len(),
            views(rest@) == views(segments@).subrange(2, k as int),
        decreases segments.len() - k,
    {
        let seg = segments[k].clone();
        proof {
            assert(views(rest@.push(seg)) =~= views(rest@).push(seg@));
            assert(views(segments@).subrange(2, k + 1) =~= views(segments@).subrange(2, k as int).push(segments@[k as int]@));
        }
        rest.push(seg);
        k += 1;
    }
    assert(views(segments@).subrange(2, segments.len() as int) =~= views(segments@).skip(2));
    proof {
        reveal_strlit("/");
    }
    Some(RemoteWorkflowRef {
        owner: segments[0].clone(),
        repo: segments[1].clone(),
        path: join_strings(&rest, "/"),
        ref_name,
        raw: owned(uses),
    })
}

/// A full commit SHA: forty hexadecimal digits.
pub open spec fn sha_ref(ref_name: Seq<char>) -> bool {
    ref_name.len() == 40 && forall|i: int| 0 <= i < 40 ==> is_ascii_hex(#[trigger] ref_name[i])
}

/// Whether the ref is a full commit SHA, which never moves, so a cached copy stays valid.
pub fn is_sha_ref(ref_name: &str) -> (r: bool)
    ensures
        r == sha_ref(ref_name@),
{
    let x = chars_of(ref_name);
    if x.len() != 40 {
        return false;
    }
    let mut i: usize = 0;
    while i < x.len()
        invariant
            x@ == ref_name@,
            x.len() == 40,
            i <= 40,
            forall|j: int| 0 <= j < i ==> is_ascii_hex(#[trigger] x@[j]),
        decreases 40 - i,
    {
        let c = x[i];
        let hex = ('0' <= c && c <= '9') || ('a' <= c && c <= 'f') || ('A' <= c && c <= 'F');
        if !hex {
            return false;
        }
        i += 1;
    }
    true
}

/// A ref character as it appears in a cache directory name.
pub open spec fn sanitize_ref_char(c: char) -> char {
    if is_ascii_alnum(c) || c == '.' || c == '_' || c == '-' {
        c
    } else {
        '-'
    }
}

/// Where a remote workflow is cached: `cache_dir/owner__repo@ref/path`, with every character
/// of the ref outside `[A-Za-z0-9._-]` replaced by `-`.
pub open spec fn remote_cache_path_spec(cache_dir: Seq<char>, owner: Seq<char>, repo: Seq<char>, path: Seq<char>, ref_name: Seq<char>) -> Seq<char> {
    path_join(
        path_join(cache_dir, owner + "__"@ + repo + "@"@ + ref_name.map_values(|c: char| sanitize_ref_char(c))),
        path,
    )
}

/// The cache path of a remote workflow.
pub fn remote_cache_path(cache_dir: &str, reference: &RemoteWorkflowRef) -> (r: String)
    ensures
        r@ == remote_cache_path_spec(cache_dir@, reference.owner@, reference.repo@, reference.path@, reference.ref_name@),
{
    let x = chars_of(reference.ref_name.as_str());
    let mut sanitized: Vec<char> = Vec::new();
    let mut i: usize = 0;
    while i < x.len()
        invariant
            x@ == reference.ref_name@,
            i <= x.len(),
            sanitized@ == x@.take(i as int).map_values(|c: char| sanitize_ref_char(c)),
        decreases x.len() - i,
    {
        let c = x[i];
        let keep = char_is_alnum(c) || c == '.' || c == '_' || c == '-';
        sanitized.push(if keep { c } else { '-' });
        i += 1;
        assert(sanitized@ =~= x@.take(i as int).map_values(|c: char| sanitize_ref_char(c)));
    }
    assert(x@.take(x.len() as int) =~= x@);
    let sref = from_chars(sanitized.as_slice());
    let mut dir = cat3(reference.owner.as_str(), "__", reference.repo.as_str());
    push_char(&mut dir, '@');
    dir.append(sref.as_str());
    proof {
        reveal_strlit("@");
        assert("@"@ =~= seq!['@']);
    }
    let base = join_path(cache_dir, dir.as_str());
    join_path(base.as_str(), reference.path.as_str())
}

// ---------------------------------------------------------------------------
// Fetch failures
// ---------------------------------------------------------------------------

/// How to give local-ci a GitHub token.
pub const AUTH_INSTRUCTIONS: &'static str = "  To authenticate, either:\n    - Install and log in with the GitHub CLI, then run:\n        gh auth login\n        local-ci run --github-token\n    - Or pass a token value directly:\n        local-ci run --github-token <token>\n    - Or export it:\n        export LOCAL_CI_GITHUB_TOKEN=<token>";

/// Why a token that was given may still be refused.
pub const INSUFFICIENT_TOKEN_HINT: &'static str = "  If a token is already provided, it may lack the 'repo' scope (classic PAT) or 'contents: read' permission (fine-grained PAT), or the organization may require SSO authorization for the token.";

/// What a 404 from GitHub may mean for a private repository.
pub const NOT_FOUND_PREAMBLE: &'static str = "\n  The repository or ref was not found. If this is a private repository, GitHub returns 404 when authentication is missing or insufficient.\n\n";

/// The hint for an HTTP status: after a 404 the preamble and then, with a token, why it may
/// be insufficient, else how to authenticate; after a 401 or 403 a newline and the same
/// choice; nothing otherwise.
pub open spec fn auth_hint_spec(status: u16, has_token: bool) -> Seq<char> {
    let detail = if has_token { INSUFFICIENT_TOKEN_HINT@ } else { AUTH_INSTRUCTIONS@ };
    if status == 404 {
        NOT_FOUND_PREAMBLE@ + detail
    } else if status == 401 || status == 403 {
        "\n"@ + detail
    } else {
        Seq::empty()
    }
}

/// The authentication hint shown after a failed fetch.
pub fn build_auth_hint(status: u16, has_token: bool) -> (r: String)
    ensures
        r@ == auth_hint_spec(status, has_token),
{
    let detail = if has_token { INSUFFICIENT_TOKEN_HINT } else { AUTH_INSTRUCTIONS };
    if status == 404 {
        cat(NOT_FOUND_PREAMBLE, detail)
    } else if status == 401 || status == 403 {
        cat("\n", detail)
    } else {
        String::new()
    }
}

/// The line reported for a remote workflow that could not be fetched.
pub open spec fn fetch_failure_spec(raw: Seq<char>, status: Option<u16>, has_token: bool, message: Seq<char>) -> Seq<char> {
    let hint = match status {
        Some(s) => auth_hint_spec(s, has_token),
        None => Seq::empty(),
    };
    "Failed to fetch remote workflow "@ + raw + hint + ": "@ + message
}

/// The report of one failed fetch.
pub fn fetch_failure_message(reference: &RemoteWorkflowRef, has_token: bool, err: &RemoteFetchError) -> (r: String)
    ensures
        r@ == fetch_failure_spec(reference.raw@, err.status, has_token, err.message@),
{
    let hint = match err.status {
        Some(s) => build_auth_hint(s, has_token),
        None => String::new(),
    };
    let mut r = cat3("Failed to fetch remote workflow ", reference.raw.as_str(), hint.as_str());
    r.append(": ");
    r.append(err.message.as_str());
    r
}

impl ReusableWorkflowError {
    /// The error as the command line reports it.
    pub fn message(&self) -> (r: String)
        ensures
            match self {
                ReusableWorkflowError::WorkflowParse(m) => r@ == m@,
                ReusableWorkflowError::DepthExceeded(p) => r@ == "Reusable workflow nesting depth exceeds maximum of 4: "@ + p@,
                ReusableWorkflowError::Cycle(p) => r@ == "Cycle detected in reusable workflows: "@ + p@ + " is already in the call chain"@,
                ReusableWorkflowError::RemoteNotResolved(u) => r@ == "Remote reusable workflow not resolved: "@ + u@,
                ReusableWorkflowError::MissingCalledWorkflow { path, job_id } => r@ == "Reusable workflow file not found: "@ + path@
                    + " (referenced by job \""@ + job_id@ + "\")"@,
                ReusableWorkflowError::RemoteFetch(errors) => r@ == "[Local CI] Remote workflow fetch failed:\n  "@ + join(views(errors@), "\n  "@),
                ReusableWorkflowError::Io { path, source } => r@ == path@ + ": "@ + source@,
            },
    {
        match self {
            ReusableWorkflowError::WorkflowParse(m) => m.clone(),
            ReusableWorkflowError::DepthExceeded(p) => cat("Reusable workflow nesting depth exceeds maximum of 4: ", p.as_str()),
            ReusableWorkflowError::Cycle(p) => cat3("Cycle detected in reusable workflows: ", p.as_str(), " is already in the call chain"),
            ReusableWorkflowError::RemoteNotResolved(u) => cat("Remote reusable workflow not resolved: ", u.as_str()),
            ReusableWorkflowError::MissingCalledWorkflow { path, job_id } => {
                let mut r = cat3("Reusable workflow file not found: ", path.as_str(), " (referenced by job \"");
                r.append(job_id.as_str());
                r.append("\")");
                r
            },
            ReusableWorkflowError::RemoteFetch(errors) => {
                let joined = join_strings(errors, "\n  ");
                cat("[Local CI] Remote workflow fetch failed:\n  ", joined.as_str())
            },
            ReusableWorkflowError::Io { path, source } => cat3(path.as_str(), ": ", source.as_str()),
        }
    }
}


// ---------------------------------------------------------------------------
// Expanding calls of reusable workflows
// ---------------------------------------------------------------------------

/// Enters a called workflow at `depth`: refused past the nesting limit, and refused when its
/// resolved path is already in the call chain; otherwise the path joins the chain.
pub fn enter_called_workflow(workflow_path: &str, resolved_path: &str, depth: usize, visited: &mut StrSet) -> (r: Result<(), ReusableWorkflowError>)
    requires
        old(visited).wf(),
    ensures
        final(visited).wf(),
        depth > MAX_REUSABLE_DEPTH ==> (r matches Err(ReusableWorkflowError::DepthExceeded(p)) && p@ == workflow_path@
            && final(visited).members() == old(visited).members()),
        depth <= MAX_REUSABLE_DEPTH && old(visited).members().contains(resolved_path@) ==> (r matches Err(
            ReusableWorkflowError::Cycle(p),
        ) && p@ == resolved_path@ && final(visited).members() == old(visited).members()),
        depth <= MAX_REUSABLE_DEPTH && !old(visited).members().contains(resolved_path@) ==> r is Ok
            && final(visited).members() == old(visited).members().insert(resolved_path@),
{
    if depth > MAX_REUSABLE_DEPTH {
        return Err(ReusableWorkflowError::DepthExceeded(workflow_path.to_owned()));
    }
    if visited.contains(resolved_path) {
        return Err(ReusableWorkflowError::Cycle(resolved_path.to_owned()));
    }
    visited.insert(resolved_path.to_owned());
    Ok(())
}

/// Where a called workflow is read from: a local `./` path under the repository root, or the
/// cached copy of a remote reference.
pub open spec fn called_path_spec(uses: Seq<char>, repo_root: Seq<char>, cache: Option<Map<Seq<char>, Seq<char>>>) -> Option<Seq<char>> {
    if is_prefix("./"@, uses) {
        Some(path_join(repo_root, uses))
    } else {
        match cache {
            Some(m) => if m.contains_key(uses) { Some(m[uses]) } else { None },
            None => None,
        }
    }
}

/// The path of the workflow a job's `uses` calls; an unresolved remote reference is an error.
pub fn resolve_called_path(uses: &str, repo_root: &str, remote_cache: Option<&StrMap<String>>) -> (r: Result<String, ReusableWorkflowError>)
    requires
        remote_cache matches Some(c) ==> c.wf(),
    ensures
        match called_path_spec(uses@, repo_root@, match remote_cache {
            Some(c) => Some(text_map(*c)),
            None => None,
        }) {
            Some(p) => r matches Ok(q) && q@ == p,
            None => r matches Err(ReusableWorkflowError::RemoteNotResolved(u)) && u@ == uses@,
        },
{
    if starts_with(uses, "./") {
        return Ok(join_path(repo_root, uses));
    }
    match remote_cache {
        Some(cache) => match cache.get(uses) {
            Some(p) => Ok(p.clone()),
            None => Err(ReusableWorkflowError::RemoteNotResolved(uses.to_owned())),
        },
        None => Err(ReusableWorkflowError::RemoteNotResolved(uses.to_owned())),
    }
}

/// The `on.workflow_call.<key>` node of a called workflow.
pub open spec fn call_section(doc: WorkflowDocument, key: Seq<char>) -> Option<Yaml> {
    match opt_model(doc.on) {
        Some(on) => match get(on, "workflow_call"@) {
            Some(wc) => get(wc, key),
            None => None,
        },
        None => None,
    }
}

/// The `on.workflow_call.<key>` node of a called workflow.
pub fn workflow_call_section<'a>(workflow: &'a WorkflowDocument, key: &str) -> (r: Option<&'a YamlValue>)
    ensures
        match r {
            Some(v) => call_section(*workflow, key@) == Some(v@),
            None => call_section(*workflow, key@) is None,
        },
{
    let on = match &workflow.on {
        Some(on) => on,
        None => return None,
    };
    let workflow_call = match on.get("workflow_call") {
        Some(wc) => wc,
        None => return None,
    };
    workflow_call.get(key)
}

/// For each entry with a scalar key whose value has a scalar `field`, that key and value; a
/// later key replaces an earlier one.
pub open spec fn field_map(entries: Seq<(Yaml, Yaml)>, field: Seq<char>) -> Map<Seq<char>, Seq<char>>
    decreases entries.len(),
{
    if entries.len() == 0 {
        Map::empty()
    } else {
        let prev = field_map(entries.drop_last(), field);
        match (scalar_text(entries.last().0), opt_scalar(get(entries.last().1, field))) {
            (Some(k), Some(v)) => prev.insert(k, v),
            _ => prev,
        }
    }
}

/// The field map of an optional section: empty unless it is a mapping.
pub open spec fn section_fields(v: Option<Yaml>, field: Seq<char>) -> Map<Seq<char>, Seq<char>> {
    match v {
        Some(Yaml::Mapping(entries, _)) => field_map(entries, field),
        _ => Map::empty(),
    }
}

fn section_field_map(section: Option<&YamlValue>, field: &str) -> (r: StrMap<String>)
    ensures
        r.wf(),
        text_map(r) == section_fields(crate::workflow::opt_node(section), field@),
{
    let mut r: StrMap<String> = StrMap::new();
    assert(text_map(r) =~= Map::empty());
    let entries = match section {
        Some(YamlValue::Mapping(entries, _)) => entries,
        _ => return r,
    };
    proof { lemma_entries_view(entries@); }
    let ghost model = entries_view(entries@);
    let mut i: usize = 0;
    while i < entries.len()
        invariant
            i <= entries.len(),
            model == entries_view(entries@),
            model.len() == entries.len(),
            forall|j: int| 0 <= j < entries.len() ==> #[trigger] model[j] == (entries[j].0@, entries[j].1@),
            r.wf(),
            text_map(r) == field_map(model.take(i as int), field@),
        decreases entries.len() - i,
    {
        assert(model.take(i + 1).drop_last() =~= model.take(i as int));
        assert(model.take(i + 1).last() == model[i as int]);
        let value = match entries[i].1.get(field) {
            Some(v) => v.scalar_string(),
            None => None,
        };
        match (entries[i].0.scalar_string(), value) {
            (Some(k), Some(v)) => {
                let ghost before = r;
                let ghost kv = k@;
                let ghost vv = v@;
                r.insert(k, v);
                proof { lemma_text_map_insert(before, r, kv, vv); }
            },
            _ => {},
        }
        i += 1;
    }
    assert(model.take(entries.len() as int) =~= model);
    r
}

/// The defaults a called workflow declares for its inputs.
pub fn workflow_call_input_defaults(workflow: &WorkflowDocument) -> (r: StrMap<String>)
    ensures
        r.wf(),
        text_map(r) == section_fields(call_section(*workflow, "inputs"@), "default"@),
{
    section_field_map(workflow_call_section(workflow, "inputs"), "default")
}

/// The output expressions a called workflow declares.
pub fn workflow_call_output_defs(workflow: &WorkflowDocument) -> (r: StrMap<String>)
    ensures
        r.wf(),
        text_map(r) == section_fields(call_section(*workflow, "outputs"@), "value"@),
{
    section_field_map(workflow_call_section(workflow, "outputs"), "value")
}

/// The `with:` inputs a calling job passes: present when its `with` is a mapping, holding its
/// scalar keys with scalar values.
pub open spec fn caller_with_spec(job: WorkflowJob) -> Option<Map<Seq<char>, Seq<char>>> {
    match get(job.raw@, "with"@) {
        Some(Yaml::Mapping(entries, _)) => Some(scalar_pairs(entries)),
        _ => None,
    }
}

/// The `with:` inputs a calling job passes.
pub fn caller_with_inputs(job: &WorkflowJob) -> (r: Option<StrMap<String>>)
    ensures
        opt_text_map(r) == caller_with_spec(*job),
        r matches Some(m) ==> m.wf(),
{
    match job.raw.get("with") {
        Some(YamlValue::Mapping(entries, _)) => Some(crate::matrix::scalar_pairs_of(entries)),
        _ => None,
    }
}

/// An optional map of strings taken by its text map.
pub open spec fn opt_text_map(o: Option<StrMap<String>>) -> Option<Map<Seq<char>, Seq<char>>> {
    match o {
        Some(m) => Some(text_map(m)),
        None => None,
    }
}

/// A map kept only when it has entries.
pub open spec fn non_empty_map(m: Map<Seq<char>, Seq<char>>) -> Option<Map<Seq<char>, Seq<char>>> {
    if m == Map::<Seq<char>, Seq<char>>::empty() {
        None
    } else {
        Some(m)
    }
}

/// A map, kept only when it has entries.
pub fn non_empty(map: StrMap<String>) -> (r: Option<StrMap<String>>)
    requires
        map.wf(),
    ensures
        opt_text_map(r) == non_empty_map(text_map(map)),
        r matches Some(m) ==> m.wf(),
{
    if map.is_empty() {
        assert(text_map(map) =~= Map::<Seq<char>, Seq<char>>::empty());
        None
    } else {
        proof {
            map.lemma_index_of(0);
            assert(text_map(map).contains_key(map.keys()[0]));
        }
        Some(map)
    }
}

fn copy_opt_map(o: &Option<StrMap<String>>) -> (r: Option<StrMap<String>>)
    requires
        o matches Some(m) ==> m.wf(),
    ensures
        opt_text_map(r) == opt_text_map(*o),
        r matches Some(m) ==> m.wf(),
{
    match o {
        Some(m) => Some(m.duplicate()),
        None => None,
    }
}

/// An entry's maps are well formed.
pub open spec fn entry_wf(e: ExpandedJobEntry) -> bool {
    &&& (e.inputs matches Some(m) ==> m.wf())
    &&& (e.input_defaults matches Some(m) ==> m.wf())
    &&& (e.workflow_call_output_defs matches Some(m) ==> m.wf())
}

/// Every entry's maps are well formed.
pub open spec fn entries_wf(es: Seq<ExpandedJobEntry>) -> bool {
    forall|i: int| 0 <= i < es.len() ==> entry_wf(#[trigger] es[i])
}

/// The entry of a job that calls no workflow.
pub open spec fn local_entry_of(e: ExpandedJobEntry, workflow_path: Seq<char>, job: WorkflowJob) -> bool {
    &&& e.id@ == job.id@
    &&& e.workflow_path@ == workflow_path
    &&& e.source_task_name@ == job.id@
    &&& e.needs@ == job.needs@
    &&& e.inputs is None
    &&& e.input_defaults is None
    &&& e.workflow_call_output_defs is None
    &&& e.caller_job_id is None
}

/// The entry of a job that calls no workflow.
pub fn local_job_entry(workflow_path: &str, job: &WorkflowJob) -> (r: ExpandedJobEntry)
    ensures
        local_entry_of(r, workflow_path@, *job),
        entry_wf(r),
{
    ExpandedJobEntry {
        id: job.id.clone(),
        workflow_path: workflow_path.to_owned(),
        source_task_name: job.id.clone(),
        needs: copy_strings(&job.needs),
        inputs: None,
        input_defaults: None,
        workflow_call_output_defs: None,
        caller_job_id: None,
    }
}

/// The id of a called job inside its caller: `<caller>/<id>`.
pub open spec fn grafted_id(caller: Seq<char>, id: Seq<char>) -> Seq<char> {
    caller + "/"@ + id
}

/// The needs of a called job inside its caller: the caller's own needs when it had none,
/// else each prefixed with the caller's id.
pub open spec fn grafted_needs(caller: Seq<char>, caller_needs: Seq<Seq<char>>, needs: Seq<Seq<char>>) -> Seq<Seq<char>> {
    if needs.len() == 0 {
        caller_needs
    } else {
        needs.map_values(|n: Seq<char>| grafted_id(caller, n))
    }
}

/// A called job's entry as grafted into the caller `caller`.
pub open spec fn grafted_of(g: ExpandedJobEntry, e: ExpandedJobEntry, caller: WorkflowJob, with: Option<Map<Seq<char>, Seq<char>>>, defaults: Map<Seq<char>, Seq<char>>, outputs: Map<Seq<char>, Seq<char>>) -> bool {
    &&& g.id@ == grafted_id(caller.id@, e.id@)
    &&& g.workflow_path@ == e.workflow_path@
    &&& g.source_task_name@ == e.source_task_name@
    &&& views(g.needs@) == grafted_needs(caller.id@, views(caller.needs@), views(e.needs@))
    &&& opt_text_map(g.inputs) == with
    &&& opt_text_map(g.input_defaults) == non_empty_map(defaults)
    &&& opt_text_map(g.workflow_call_output_defs) == non_empty_map(outputs)
    &&& opt_view(g.caller_job_id) == Some(caller.id@)
}

/// No grafted entry needs the entry at `i`: it is one the caller's dependents wait for.
pub open spec fn is_terminal(gs: Seq<ExpandedJobEntry>, i: int) -> bool {
    forall|j: int| 0 <= j < gs.len() ==> !views(#[trigger] gs[j].needs@).contains(gs[i].id@)
}

/// The ids of the terminal entries among the first `n`, in order.
pub open spec fn terminal_ids(gs: Seq<ExpandedJobEntry>, n: int) -> Seq<Seq<char>>
    decreases n,
{
    if n <= 0 {
        Seq::empty()
    } else if is_terminal(gs, n - 1) {
        terminal_ids(gs, n - 1).push(gs[n - 1].id@)
    } else {
        terminal_ids(gs, n - 1)
    }
}

fn prefixed_needs(caller: &str, needs: &Vec<String>) -> (r: Vec<String>)
    ensures
        views(r@) == views(needs@).map_values(|n: Seq<char>| grafted_id(caller@, n)),
{
    let mut r: Vec<String> = Vec::new();
    let mut i: usize = 0;
    while i < needs.len()
        invariant
            i <= needs@.len(),
            r@.len() == i,
            forall|j: int| 0 <= j < i ==> (#[trigger] r@[j])@ == grafted_id(caller@, needs@[j]@),
        decreases needs.len() - i,
    {
        proof { reveal_strlit("/"); }
        r.push(cat3(caller, "/", needs[i].as_str()));
        i += 1;
    }
    assert(views(r@) =~= views(needs@).map_values(|n: Seq<char>| grafted_id(caller@, n)));
    r
}

fn is_needed(gs: &Vec<ExpandedJobEntry>, id: &str) -> (r: bool)
    ensures
        r == exists|j: int| 0 <= j < gs@.len() && views(#[trigger] gs@[j].needs@).contains(id@),
{
    let mut j: usize = 0;
    while j < gs.len()
        invariant
            j <= gs@.len(),
            forall|q: int| 0 <= q < j ==> !views(#[trigger] gs@[q].needs@).contains(id@),
        decreases gs.len() - j,
    {
        let needs = &gs[j].needs;
        let mut t: usize = 0;
        while t < needs.len()
            invariant
                j < gs@.len(),
                t <= needs@.len(),
                needs@ == gs@[j as int].needs@,
                forall|u: int| 0 <= u < t ==> needs@[u]@ != id@,
            decreases needs.len() - t,
        {
            if str_eq(needs[t].as_str(), id) {
                assert(views(needs@)[t as int] == id@);
                return true;
            }
            t += 1;
        }
        assert(!views(needs@).contains(id@)) by {
            if views(needs@).contains(id@) {
                let u = choose|u: int| 0 <= u < views(needs@).len() && views(needs@)[u] == id@;
                assert(needs@[u]@ == id@);
            }
        }
        j += 1;
    }
    false
}

/// Grafts the entries of a called workflow into the job `caller` that calls it: each id and
/// need is prefixed with the caller's id (entries that needed nothing take the caller's own
/// needs), each carries the caller's `with:` inputs, the called workflow's input defaults and
/// output definitions (when any) and the caller's id. Also gives the ids of the grafted entries
/// that no other grafted entry needs, in order: the jobs that the caller's dependents wait for.
pub fn graft_called_entries(
    caller: &WorkflowJob,
    caller_with: &Option<StrMap<String>>,
    input_defaults: &StrMap<String>,
    output_defs: &StrMap<String>,
    called_entries: &Vec<ExpandedJobEntry>,
) -> (r: (Vec<ExpandedJobEntry>, Vec<String>))
    requires
        caller_with matches Some(m) ==> m.wf(),
        input_defaults.wf(),
        output_defs.wf(),
    ensures
        r.0@.len() == called_entries@.len(),
        entries_wf(r.0@),
        forall|i: int| 0 <= i < r.0@.len() ==> grafted_of(#[trigger] r.0@[i], called_entries@[i], *caller,
            opt_text_map(*caller_with), text_map(*input_defaults), text_map(*output_defs)),
        views(r.1@) == terminal_ids(r.0@, r.0@.len() as int),
{
    let mut grafted: Vec<ExpandedJobEntry> = Vec::new();
    let mut i: usize = 0;
    while i < called_entries.len()
        invariant
            caller_with matches Some(m) ==> m.wf(),
            input_defaults.wf(),
            output_defs.wf(),
            i <= called_entries@.len(),
            grafted@.len() == i,
            entries_wf(grafted@),
            forall|j: int| 0 <= j < i ==> grafted_of(#[trigger] grafted@[j], called_entries@[j], *caller,
                opt_text_map(*caller_with), text_map(*input_defaults), text_map(*output_defs)),
        decreases called_entries.len() - i,
    {
        let entry = &called_entries[i];
        let needs = if entry.needs.len() == 0 {
            let n = copy_strings(&caller.needs);
            assert(views(n@) == views(caller.needs@));
            n
        } else {
            prefixed_needs(caller.id.as_str(), &entry.needs)
        };
        proof { reveal_strlit("/"); }
        let g = ExpandedJobEntry {
            id: cat3(caller.id.as_str(), "/", entry.id.as_str()),
            workflow_path: entry.workflow_path.clone(),
            source_task_name: entry.source_task_name.clone(),
            needs,
            inputs: copy_opt_map(caller_with),
            input_defaults: non_empty(input_defaults.duplicate()),
            workflow_call_output_defs: non_empty(output_defs.duplicate()),
            caller_job_id: Some(caller.id.clone()),
        };
        grafted.push(g);
        i += 1;
    }
    let mut terminals: Vec<String> = Vec::new();
    let mut k: usize = 0;
    while k < grafted.len()
        invariant
            k <= grafted@.len(),
            views(terminals@) == terminal_ids(grafted@, k as int),
        decreases grafted.len() - k,
    {
        let needed = is_needed(&grafted, grafted[k].id.as_str());
        if !needed {
            let ghost before = views(terminals@);
            terminals.push(grafted[k].id.clone());
            assert(views(terminals@) =~= before.push(grafted@[k as int].id@));
        }
        k += 1;
    }
    (grafted, terminals)
}

/// The needs after callers are replaced: a need naming a calling job becomes that job's
/// terminal entries, in order; any other need stays.
pub open spec fn rewired(needs: Seq<Seq<char>>, m: Map<Seq<char>, Seq<Seq<char>>>) -> Seq<Seq<char>>
    decreases needs.len(),
{
    if needs.len() == 0 {
        Seq::empty()
    } else {
        rewired(needs.drop_last(), m) + if m.contains_key(needs.last()) {
            m[needs.last()]
        } else {
            seq![needs.last()]
        }
    }
}

/// A map from strings to lists of strings, taken by views.
pub open spec fn lists_map(m: StrMap<Vec<String>>) -> Map<Seq<char>, Seq<Seq<char>>> {
    Map::new(|k: Seq<char>| m.has_key(k), |k: Seq<char>| views(m.value_of(k)@))
}

/// The entry with only its needs changed.
pub open spec fn same_but_needs(g: ExpandedJobEntry, e: ExpandedJobEntry) -> bool {
    &&& g.id@ == e.id@
    &&& g.workflow_path@ == e.workflow_path@
    &&& g.source_task_name@ == e.source_task_name@
    &&& opt_text_map(g.inputs) == opt_text_map(e.inputs)
    &&& opt_text_map(g.input_defaults) == opt_text_map(e.input_defaults)
    &&& opt_text_map(g.workflow_call_output_defs) == opt_text_map(e.workflow_call_output_defs)
    &&& opt_view(g.caller_job_id) == opt_view(e.caller_job_id)
}

fn rewire_one(needs: &Vec<String>, caller_to_terminals: &StrMap<Vec<String>>) -> (r: Vec<String>)
    requires
        caller_to_terminals.wf(),
    ensures
        views(r@) == rewired(views(needs@), lists_map(*caller_to_terminals)),
{
    let ghost m = lists_map(*caller_to_terminals);
    let ghost ns = views(needs@);
    let mut r: Vec<String> = Vec::new();
    let mut i: usize = 0;
    assert(views(r@) =~= rewired(ns.take(0), m));
    while i < needs.len()
        invariant
            caller_to_terminals.wf(),
            m == lists_map(*caller_to_terminals),
            ns == views(needs@),
            i <= needs@.len(),
            views(r@) == rewired(ns.take(i as int), m),
        decreases needs.len() - i,
    {
        let ghost before = views(r@);
        assert(ns.take(i + 1).drop_last() =~= ns.take(i as int));
        assert(ns.take(i + 1).last() == needs@[i as int]@);
        match caller_to_terminals.get(needs[i].as_str()) {
            Some(terms) => {
                let mut t: usize = 0;
                while t < terms.len()
                    invariant
                        t <= terms@.len(),
                        views(r@) == before + views(terms@).take(t as int),
                    decreases terms.len() - t,
                {
                    let ghost bp = views(r@);
                    r.push(terms[t].clone());
                    assert(views(r@) =~= bp.push(terms@[t as int]@));
                    assert(views(terms@).take(t + 1) =~= views(terms@).take(t as int).push(terms@[t as int]@));
                    assert(views(r@) =~= before + views(terms@).take(t + 1));
                    t += 1;
                }
                assert(views(terms@).take(terms@.len() as int) =~= views(terms@));
                assert(m.contains_key(needs@[i as int]@));
            },
            None => {
                r.push(needs[i].clone());
                assert(views(r@) =~= before + seq![needs@[i as int]@]);
            },
        }
        i += 1;
    }
    assert(ns.take(needs@.len() as int) =~= ns);
    r
}

/// Replaces every need that names a calling job by that job's terminal entries.
pub fn rewire_needs(entries: &Vec<ExpandedJobEntry>, caller_to_terminals: &StrMap<Vec<String>>) -> (r: Vec<ExpandedJobEntry>)
    requires
        caller_to_terminals.wf(),
        entries_wf(entries@),
    ensures
        r@.len() == entries@.len(),
        entries_wf(r@),
        forall|i: int| 0 <= i < r@.len() ==> same_but_needs(#[trigger] r@[i], entries@[i])
            && views(r@[i].needs@) == rewired(views(entries@[i].needs@), lists_map(*caller_to_terminals)),
{
    let mut r: Vec<ExpandedJobEntry> = Vec::new();
    let mut i: usize = 0;
    while i < entries.len()
        invariant
            caller_to_terminals.wf(),
            entries_wf(entries@),
            i <= entries@.len(),
            r@.len() == i,
            entries_wf(r@),
            forall|j: int| 0 <= j < i ==> same_but_needs(#[trigger] r@[j], entries@[j])
                && views(r@[j].needs@) == rewired(views(entries@[j].needs@), lists_map(*caller_to_terminals)),
        decreases entries.len() - i,
    {
        let e = &entries[i];
        assert(entry_wf(*e));
        let caller_job_id = match &e.caller_job_id {
            Some(c) => Some(c.clone()),
            None => None,
        };
        r.push(ExpandedJobEntry {
            id: e.id.clone(),
            workflow_path: e.workflow_path.clone(),
            source_task_name: e.source_task_name.clone(),
            needs: rewire_one(&e.needs, caller_to_terminals),
            inputs: copy_opt_map(&e.inputs),
            input_defaults: copy_opt_map(&e.input_defaults),
            workflow_call_output_defs: copy_opt_map(&e.workflow_call_output_defs),
            caller_job_id,
        });
        i += 1;
    }
    r
}

/// The remote references among the jobs' `uses`, in job order: every `uses` that is not a
/// local `./` path and parses as a reference.
pub open spec fn remote_refs_of(jobs: Seq<WorkflowJob>) -> Seq<(Seq<char>, Seq<char>, Seq<char>, Seq<char>)>
    decreases jobs.len(),
{
    if jobs.len() == 0 {
        Seq::empty()
    } else {
        let prev = remote_refs_of(jobs.drop_last());
        match jobs.last().uses {
            Some(u) => if is_prefix("./"@, u@) {
                prev
            } else {
                match remote_ref_spec(u@) {
                    Some(t) => prev.push(t),
                    None => prev,
                }
            },
            None => prev,
        }
    }
}

/// A reference taken by its owner, repository, path and ref.
pub open spec fn ref_view(r: RemoteWorkflowRef) -> (Seq<char>, Seq<char>, Seq<char>, Seq<char>) {
    (r.owner@, r.repo@, r.path@, r.ref_name@)
}

/// The remote workflows a workflow calls, in job order.
pub fn scan_remote_refs(workflow: &WorkflowDocument) -> (r: Vec<RemoteWorkflowRef>)
    requires
        workflow.jobs.wf(),
    ensures
        r@.map_values(|x: RemoteWorkflowRef| ref_view(x)) == remote_refs_of(workflow.jobs.values()),
        forall|i: int| 0 <= i < r@.len() ==> remote_ref_spec((#[trigger] r@[i]).raw@) == Some(ref_view(r@[i])),
{
    let ghost jobs = workflow.jobs.values();
    let mut r: Vec<RemoteWorkflowRef> = Vec::new();
    let n = workflow.jobs.len();
    let mut i: usize = 0;
    assert(r@.map_values(|x: RemoteWorkflowRef| ref_view(x)) =~= remote_refs_of(jobs.take(0)));
    while i < n
        invariant
            n == jobs.len(),
            jobs == workflow.jobs.values(),
            i <= n,
            r@.map_values(|x: RemoteWorkflowRef| ref_view(x)) == remote_refs_of(jobs.take(i as int)),
            forall|q: int| 0 <= q < r@.len() ==> remote_ref_spec((#[trigger] r@[q]).raw@) == Some(ref_view(r@[q])),
        decreases n - i,
    {
        let job = workflow.jobs.value_at(i);
        assert(jobs.take(i + 1).drop_last() =~= jobs.take(i as int));
        assert(jobs.take(i + 1).last() == *job);
        let ghost before = r@.map_values(|x: RemoteWorkflowRef| ref_view(x));
        if let Some(uses) = &job.uses {
            if !starts_with(uses.as_str(), "./") {
                if let Some(reference) = parse_remote_ref(uses.as_str()) {
                    r.push(reference);
                    assert(r@.map_values(|x: RemoteWorkflowRef| ref_view(x)) =~= before.push(ref_view(r@.last())));
                }
            }
        }
        i += 1;
    }
    assert(jobs.take(n as int) =~= jobs);
    r
}

} // verus!
