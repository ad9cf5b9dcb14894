//! Workflow shapes that the planner reads, and which workflows a change makes relevant.
use crate::strmap::{lemma_text_map_insert, text_map, StrMap};
use crate::text::{cat, cat3, first_index_of, split_once_char, str_eq, trim, trim_str, views};
use crate::yaml::{
    display_text, entries_view, get, items_view, lemma_entries_view, lemma_items_view, opt_scalar,
    opt_view, scalar_text, yaml_document, yaml_document_of, Yaml, YamlValue,
};
use vstd::prelude::*;

verus! {

/// A job's `container:` section.
#[derive(Debug, Clone, PartialEq, Eq)]
pub struct WorkflowContainer {
    pub image: String,
    pub env: StrMap<String>,
    pub ports: Vec<String>,
    pub volumes: Vec<String>,
    pub options: Option<String>,
}

/// One entry of a job's `services:` section.
#[derive(Debug, Clone, PartialEq, Eq)]
pub struct WorkflowService {
    pub id: String,
    pub image: String,
    pub env: StrMap<String>,
    pub ports: StrMap<String>,
    pub options: Option<String>,
}

/// A job's `runs-on:` value.
#[derive(Debug, Clone, PartialEq, Eq)]
pub enum RunsOn {
    Single(String),
    Labels(Vec<String>),
    Other(String),
}

/// How serious a workflow diagnostic is.
#[derive(Debug, Clone, Copy, PartialEq, Eq, Structural)]
pub enum DiagnosticLevel {
    Warning,
    Error,
}

/// Something noticed while reading a workflow.
#[derive(Debug, Clone, PartialEq, Eq)]
pub struct WorkflowDiagnostic {
    pub level: DiagnosticLevel,
    pub message: String,
}

/// The branch and path filters of one trigger event.
#[derive(Debug, Clone, PartialEq, Eq)]
pub struct WorkflowEventFilters {
    pub branches: Option<Vec<String>>,
    pub branches_ignore: Option<Vec<String>>,
    pub paths: Option<Vec<String>>,
    pub paths_ignore: Option<Vec<String>>,
}

/// One entry of a job's `steps:` list.
#[derive(Debug, PartialEq)]
pub struct WorkflowStep {
    pub id: Option<String>,
    pub name: Option<String>,
    pub uses: Option<String>,
    pub run: Option<String>,
    pub if_condition: Option<String>,
    pub shell: Option<String>,
    pub working_directory: Option<String>,
    pub env: StrMap<String>,
    pub with: StrMap<String>,
    pub raw: YamlValue,
}

/// One job of a workflow.
#[derive(Debug, PartialEq)]
pub struct WorkflowJob {
    pub id: String,
    pub name: Option<String>,
    pub runs_on: Option<RunsOn>,
    pub uses: Option<String>,
    pub needs: Vec<String>,
    pub if_condition: Option<String>,
    pub env: StrMap<String>,
    pub outputs: StrMap<String>,
    pub services: StrMap<WorkflowService>,
    pub container: Option<WorkflowContainer>,
    pub steps: Vec<WorkflowStep>,
    pub strategy: Option<YamlValue>,
    pub raw: YamlValue,
}

/// A workflow file as read: its trigger, env, jobs and what was noticed on the way.
#[derive(Debug, PartialEq)]
pub struct WorkflowDocument {
    pub path: String,
    pub name: Option<String>,
    pub on: Option<YamlValue>,
    pub env: StrMap<String>,
    pub jobs: StrMap<WorkflowJob>,
    pub diagnostics: Vec<WorkflowDiagnostic>,
    pub raw: YamlValue,
}

/// Why a workflow could not be read.
#[derive(Debug, Clone, PartialEq, Eq)]
pub enum WorkflowParseError {
    Read { path: String, source: String },
    Yaml { path: String, source: String },
    Shape { path: String, message: String },
}

impl WorkflowParseError {
    /// The error as the command line reports it.
    pub fn message(&self) -> (r: String)
        ensures
            match self {
                WorkflowParseError::Read { path, source } => r@ == "failed to read workflow "@ + path@ + ": "@ + source@,
                WorkflowParseError::Yaml { path, source } => r@ == "failed to parse workflow "@ + path@ + ": "@ + source@,
                WorkflowParseError::Shape { path, message } => r@ == "invalid workflow "@ + path@ + ": "@ + message@,
            },
    {
        match self {
            WorkflowParseError::Read { path, source } => {
                let mut r = cat3("failed to read workflow ", path.as_str(), ": ");
                r.append(source.as_str());
                r
            },
            WorkflowParseError::Yaml { path, source } => {
                let mut r = cat3("failed to parse workflow ", path.as_str(), ": ");
                r.append(source.as_str());
                r
            },
            WorkflowParseError::Shape { path, message } => {
                let mut r = cat3("invalid workflow ", path.as_str(), ": ");
                r.append(message.as_str());
                r
            },
        }
    }
}

/// What globset makes of a pattern and a candidate: `None` when the pattern does not parse or
/// no matcher can be built for it, otherwise whether the candidate matches it.
pub uninterp spec fn glob_outcome(pattern: Seq<char>, value: Seq<char>) -> Option<bool>;

/// The longest pattern handed to globset. A literal part of a pattern becomes an Aho-Corasick
/// automaton with about one state per byte, which must stay below `i32::MAX` states; a pattern
/// this long (at most four bytes a character) stays far below that. Longer patterns are far
/// beyond what a regex matcher under globset's size limit can hold.
pub const GLOB_PATTERN_LIMIT: usize = 0x1000_0000;

/// Parses `pattern` with `globset::Glob::new` and, when that succeeds, builds a one-pattern
/// `globset::GlobSet` (`GlobSetBuilder::build`, which reports a matcher over the size limit as
/// an error) and tests `value` with `GlobSet::is_match`. The contract claims only that the
/// outcome is a function of the two strings; the glob language is globset's.
#[verifier::external_body]
pub(crate) fn glob_outcome_of(pattern: &str, value: &str) -> (r: Option<bool>)
    requires
        pattern@.len() < GLOB_PATTERN_LIMIT,
    ensures
        r == glob_outcome(pattern@, value@),
{
    let glob = globset::Glob::new(pattern).ok()?;
    let mut builder = globset::GlobSetBuilder::new();
    builder.add(glob);
    builder.build().ok().map(|set| set.is_match(value))
}

/// What the library makes of a pattern and a candidate: globset's outcome for a pattern under
/// the length limit, and `None` (no usable glob) for a longer one.
pub open spec fn glob_checked(pattern: Seq<char>, value: Seq<char>) -> Option<bool> {
    if pattern.len() < GLOB_PATTERN_LIMIT {
        glob_outcome(pattern, value)
    } else {
        None
    }
}

/// Matches `value` against `pattern` by glob, for a pattern under the length limit.
pub fn glob_check(pattern: &str, value: &str) -> (r: Option<bool>)
    ensures
        r == glob_checked(pattern@, value@),
{
    if pattern.unicode_len() < GLOB_PATTERN_LIMIT {
        glob_outcome_of(pattern, value)
    } else {
        None
    }
}

/// A filter pattern matches: by glob when the pattern parses, else by plain equality.
pub open spec fn glob_matches_spec(pattern: Seq<char>, value: Seq<char>) -> bool {
    match glob_checked(pattern, value) {
        Some(b) => b,
        None => pattern == value,
    }
}

/// Whether a filter pattern matches a branch or a path.
pub fn glob_matches(pattern: &str, value: &str) -> (r: bool)
    ensures
        r == glob_matches_spec(pattern@, value@),
{
    match glob_check(pattern, value) {
        Some(b) => b,
        None => str_eq(pattern, value),
    }
}

/// Some pattern of the list matches the value.
pub open spec fn any_matches(patterns: Seq<String>, value: Seq<char>) -> bool {
    exists|i: int| 0 <= i < patterns.len() && glob_matches_spec(#[trigger] patterns[i]@, value)
}

fn any_pattern_matches(patterns: &Vec<String>, value: &str) -> (r: bool)
    ensures
        r == any_matches(patterns@, value@),
{
    let mut i: usize = 0;
    while i < patterns.len()
        invariant
            i <= patterns.len(),
            forall|j: int| 0 <= j < i ==> !glob_matches_spec(#[trigger] patterns@[j]@, value@),
        decreases patterns.len() - i,
    {
        if glob_matches(patterns[i].as_str(), value) {
            return true;
        }
        i += 1;
    }
    false
}

/// Branch filters: `branches` decides when present, else `branches-ignore`, else any branch.
pub open spec fn branch_filters_match_spec(f: WorkflowEventFilters, branch: Seq<char>) -> bool {
    match f.branches {
        Some(b) => any_matches(b@, branch),
        None => match f.branches_ignore {
            Some(ig) => !any_matches(ig@, branch),
            None => true,
        },
    }
}

/// Path filters: no changed files passes; else `paths` needs a changed file that matches,
/// `paths-ignore` a changed file that no pattern ignores; with neither, anything passes.
pub open spec fn paths_match_spec(f: WorkflowEventFilters, changed: Seq<String>) -> bool {
    if changed.len() == 0 {
        true
    } else {
        match f.paths {
            Some(p) => exists|i: int| 0 <= i < changed.len() && any_matches(p@, #[trigger] changed[i]@),
            None => match f.paths_ignore {
                Some(ig) => exists|i: int| 0 <= i < changed.len() && !any_matches(ig@, #[trigger] changed[i]@),
                None => true,
            },
        }
    }
}

fn branch_filters_match(filters: &WorkflowEventFilters, branch: &str) -> (r: bool)
    ensures
        r == branch_filters_match_spec(*filters, branch@),
{
    match &filters.branches {
        Some(b) => any_pattern_matches(b, branch),
        None => match &filters.branches_ignore {
            Some(ig) => !any_pattern_matches(ig, branch),
            None => true,
        },
    }
}

fn paths_match(filters: &WorkflowEventFilters, changed_files: &Vec<String>) -> (r: bool)
    ensures
        r == paths_match_spec(*filters, changed_files@),
{
    if changed_files.len() == 0 {
        return true;
    }
    match &filters.paths {
        Some(p) => {
            let mut i: usize = 0;
            while i < changed_files.len()
                invariant
                    i <= changed_files.len(),
                    filters.paths == Some(*p),
                    forall|j: int| 0 <= j < i ==> !any_matches(p@, #[trigger] changed_files@[j]@),
                decreases changed_files.len() - i,
            {
                if any_pattern_matches(p, changed_files[i].as_str()) {
                    return true;
                }
                i += 1;
            }
            false
        },
        None => match &filters.paths_ignore {
            Some(ig) => {
                let mut i: usize = 0;
                while i < changed_files.len()
                    invariant
                        i <= changed_files.len(),
                        filters.paths.is_none(),
                        filters.paths_ignore == Some(*ig),
                        forall|j: int| 0 <= j < i ==> any_matches(ig@, #[trigger] changed_files@[j]@),
                    decreases changed_files.len() - i,
                {
                    if !any_pattern_matches(ig, changed_files[i].as_str()) {
                        return true;
                    }
                    i += 1;
                }
                false
            },
            None => true,
        },
    }
}

/// The event's filters pass for the branch and the changed files.
pub open spec fn event_passes(events: StrMap<WorkflowEventFilters>, event: Seq<char>, branch: Seq<char>, changed: Seq<String>) -> bool {
    match events.lookup(event) {
        Some(f) => branch_filters_match_spec(f, branch) && paths_match_spec(f, changed),
        None => false,
    }
}

/// A workflow is relevant when a `pull_request`, `pull_request_target` or `push` trigger
/// passes its filters, or when it is triggered by `workflow_dispatch` and none of those three.
pub open spec fn relevant_spec(events: StrMap<WorkflowEventFilters>, branch: Seq<char>, changed: Seq<String>) -> bool {
    if events.keys().len() == 0 {
        false
    } else {
        ||| event_passes(events, "pull_request"@, branch, changed)
        ||| event_passes(events, "pull_request_target"@, branch, changed)
        ||| event_passes(events, "push"@, branch, changed)
        ||| (events.has_key("workflow_dispatch"@) && !events.has_key("pull_request"@)
            && !events.has_key("pull_request_target"@) && !events.has_key("push"@))
    }
}

/// With `paths`, a change passes the path filter exactly when it is empty or some changed file
/// matches one of the patterns; adding a matching file to any change makes it pass. With
/// neither `paths` nor `paths-ignore` every change passes.
pub proof fn lemma_paths_need_one_matching_file(f: WorkflowEventFilters, changed: Seq<String>, extra: String)
    ensures
        changed.len() == 0 ==> paths_match_spec(f, changed),
        f.paths is Some && changed.len() > 0 ==> (paths_match_spec(f, changed)
            <==> exists|i: int| 0 <= i < changed.len() && any_matches(f.paths->0@, #[trigger] changed[i]@)),
        f.paths is Some && any_matches(f.paths->0@, extra@) ==> paths_match_spec(f, changed.push(extra)),
        f.paths is None && f.paths_ignore is None ==> paths_match_spec(f, changed),
{
    if f.paths is Some && any_matches(f.paths->0@, extra@) {
        let all = changed.push(extra);
        assert(all[changed.len() as int] == extra);
    }
}

/// Under `paths-ignore` (without `paths`) a change passes the path filter when some changed
/// file is matched by no ignore pattern, whatever else it touches, and fails only when every
/// changed file is ignored; so adding a file that is not ignored to any change makes it pass,
/// and a pull request whose branch passes and that touches such a file makes the workflow
/// relevant.
pub proof fn lemma_paths_ignore_needs_one_unignored_file(f: WorkflowEventFilters, changed: Seq<String>, extra: String,
    events: StrMap<WorkflowEventFilters>, branch: Seq<char>)
    requires
        f.paths is None,
        f.paths_ignore is Some,
    ensures
        (exists|i: int| 0 <= i < changed.len() && !any_matches(f.paths_ignore->0@, #[trigger] changed[i]@))
            ==> paths_match_spec(f, changed),
        changed.len() > 0 && (forall|i: int| 0 <= i < changed.len() ==> any_matches(f.paths_ignore->0@, #[trigger] changed[i]@))
            ==> !paths_match_spec(f, changed),
        !any_matches(f.paths_ignore->0@, extra@) ==> paths_match_spec(f, changed.push(extra)),
        !any_matches(f.paths_ignore->0@, extra@) && events.lookup("pull_request"@) == Some(f)
            && branch_filters_match_spec(f, branch) ==> relevant_spec(events, branch, changed.push(extra)),
{
    let ig = f.paths_ignore->0;
    if !any_matches(ig@, extra@) {
        let all = changed.push(extra);
        assert(all[changed.len() as int] == extra);
        assert(paths_match_spec(f, all));
        if events.lookup("pull_request"@) == Some(f) {
            assert(events.has_key("pull_request"@));
            assert(events.keys().len() > 0);
        }
    }
}

fn event_matches(events: &StrMap<WorkflowEventFilters>, event: &str, branch: &str, changed_files: &Vec<String>) -> (r: bool)
    requires
        events.wf(),
    ensures
        r == event_passes(*events, event@, branch@, changed_files@),
{
    match events.get(event) {
        Some(filters) => branch_filters_match(filters, branch) && paths_match(filters, changed_files),
        None => false,
    }
}

/// Whether a workflow with these trigger events runs for a change on `branch` touching
/// `changed_files`.
pub fn is_workflow_relevant(events: &StrMap<WorkflowEventFilters>, branch: &str, changed_files: &Vec<String>) -> (r: bool)
    requires
        events.wf(),
    ensures
        r == relevant_spec(*events, branch@, changed_files@),
{
    if events.is_empty() {
        return false;
    }
    if event_matches(events, "pull_request", branch, changed_files) {
        return true;
    }
    if event_matches(events, "pull_request_target", branch, changed_files) {
        return true;
    }
    if event_matches(events, "push", branch, changed_files) {
        return true;
    }
    events.contains_key("workflow_dispatch") && !events.contains_key("pull_request")
        && !events.contains_key("pull_request_target") && !events.contains_key("push")
}


// ---------------------------------------------------------------------------
// Reading the parts of a workflow document
// ---------------------------------------------------------------------------

/// An optional node taken by its form.
pub open spec fn opt_node(v: Option<&YamlValue>) -> Option<Yaml> {
    match v {
        Some(x) => Some(x@),
        None => None,
    }
}

/// The string map of mapping entries: each entry with a scalar key maps that key to the
/// shown text of its value; a later key replaces an earlier one.
pub open spec fn string_map_of(entries: Seq<(Yaml, Yaml)>) -> Map<Seq<char>, Seq<char>>
    decreases entries.len(),
{
    if entries.len() == 0 {
        Map::empty()
    } else {
        let prev = string_map_of(entries.drop_last());
        match scalar_text(entries.last().0) {
            Some(k) => prev.insert(k, display_text(entries.last().1)),
            None => prev,
        }
    }
}

/// The string map of an optional node: empty unless it is a mapping.
pub open spec fn node_string_map(v: Option<Yaml>) -> Map<Seq<char>, Seq<char>> {
    match v {
        Some(Yaml::Mapping(entries, _)) => string_map_of(entries),
        _ => Map::empty(),
    }
}

/// The texts of the scalar members of a list, in order.
pub open spec fn scalars_of(items: Seq<Yaml>) -> Seq<Seq<char>>
    decreases items.len(),
{
    if items.len() == 0 {
        Seq::empty()
    } else {
        let prev = scalars_of(items.drop_last());
        match scalar_text(items.last()) {
            Some(t) => prev.push(t),
            None => prev,
        }
    }
}

/// A string list: a scalar is a list of one, a sequence gives its scalar members, anything
/// else gives nothing.
pub open spec fn string_list(v: Yaml) -> Seq<Seq<char>> {
    match scalar_text(v) {
        Some(t) => seq![t],
        None => match v {
            Yaml::Sequence(items, _) => scalars_of(items),
            _ => Seq::empty(),
        },
    }
}

/// The string list of an optional node; empty when absent.
pub open spec fn opt_string_list(v: Option<Yaml>) -> Seq<Seq<char>> {
    match v {
        Some(y) => string_list(y),
        None => Seq::empty(),
    }
}

fn string_map_of_entries(entries: &Vec<(YamlValue, YamlValue)>) -> (r: StrMap<String>)
    ensures
        r.wf(),
        text_map(r) == string_map_of(entries_view(entries@)),
{
    proof { lemma_entries_view(entries@); }
    let ghost model = entries_view(entries@);
    let mut r: StrMap<String> = StrMap::new();
    let mut i: usize = 0;
    assert(text_map(r) =~= Map::empty());
    while i < entries.len()
        invariant
            i <= entries.len(),
            model == entries_view(entries@),
            model.len() == entries.len(),
            forall|j: int| 0 <= j < entries.len() ==> #[trigger] model[j] == (entries[j].0@, entries[j].1@),
            r.wf(),
            text_map(r) == string_map_of(model.take(i as int)),
        decreases entries.len() - i,
    {
        assert(model.take(i + 1).drop_last() =~= model.take(i as int));
        assert(model.take(i + 1).last() == model[i as int]);
        match entries[i].0.scalar_string() {
            Some(k) => {
                let v = entries[i].1.display_string();
                let ghost before = r;
                let ghost kv = k@;
                let ghost vv = v@;
                r.insert(k, v);
                proof { lemma_text_map_insert(before, r, kv, vv); }
            },
            None => {},
        }
        i += 1;
    }
    assert(model.take(entries.len() as int) =~= model);
    r
}

/// The string map under an optional node: empty unless it is a mapping.
pub fn node_string_map_of(v: Option<&YamlValue>) -> (r: StrMap<String>)
    ensures
        r.wf(),
        text_map(r) == node_string_map(opt_node(v)),
{
    match v {
        Some(YamlValue::Mapping(entries, _)) => string_map_of_entries(entries),
        _ => {
            let r = StrMap::new();
            assert(text_map(r) =~= Map::empty());
            r
        },
    }
}

fn scalars_of_items(items: &Vec<YamlValue>) -> (r: Vec<String>)
    ensures
        views(r@) == scalars_of(items_view(items@)),
{
    proof { lemma_items_view(items@); }
    let ghost model = items_view(items@);
    let mut r: Vec<String> = Vec::new();
    let mut i: usize = 0;
    assert(views(r@) =~= Seq::<Seq<char>>::empty());
    while i < items.len()
        invariant
            i <= items.len(),
            model == items_view(items@),
            model.len() == items.len(),
            forall|j: int| 0 <= j < items.len() ==> #[trigger] model[j] == items[j]@,
            views(r@) == scalars_of(model.take(i as int)),
        decreases items.len() - i,
    {
        assert(model.take(i + 1).drop_last() =~= model.take(i as int));
        assert(model.take(i + 1).last() == model[i as int]);
        match items[i].scalar_string() {
            Some(t) => {
                let ghost before = r@;
                r.push(t);
                assert(views(r@) =~= views(before).push(r@.last()@));
            },
            None => {},
        }
        i += 1;
    }
    assert(model.take(items.len() as int) =~= model);
    r
}

/// A node read as a list of strings.
pub fn parse_string_list(v: &YamlValue) -> (r: Vec<String>)
    ensures
        views(r@) == string_list(v@),
{
    match v.scalar_string() {
        Some(t) => {
            let r = vec![t];
            assert(views(r@) =~= seq![r@[0]@]);
            r
        },
        None => match v {
            YamlValue::Sequence(items, _) => scalars_of_items(items),
            _ => {
                let r: Vec<String> = Vec::new();
                assert(views(r@) =~= Seq::<Seq<char>>::empty());
                r
            },
        },
    }
}

fn opt_string_list_of(v: Option<&YamlValue>) -> (r: Vec<String>)
    ensures
        views(r@) == opt_string_list(opt_node(v)),
{
    match v {
        Some(x) => parse_string_list(x),
        None => {
            let r: Vec<String> = Vec::new();
            assert(views(r@) =~= Seq::<Seq<char>>::empty());
            r
        },
    }
}

/// Every member of the list is a scalar.
pub open spec fn all_scalars(items: Seq<Yaml>) -> bool {
    scalars_of(items).len() == items.len()
}

/// What a `runs-on:` node reads as: a scalar names one label; a sequence of scalars is a list
/// of labels; anything else is kept as its shown text.
pub open spec fn runs_on_of(r: RunsOn, v: Yaml) -> bool {
    match r {
        RunsOn::Single(s) => scalar_text(v) == Some(s@),
        RunsOn::Labels(l) => scalar_text(v) is None && (v matches Yaml::Sequence(items, _)
            && all_scalars(items) && views(l@) == scalars_of(items)),
        RunsOn::Other(d) => scalar_text(v) is None && !(v matches Yaml::Sequence(items, _)
            && all_scalars(items)) && d@ == display_text(v),
    }
}

proof fn lemma_scalars_len(items: Seq<Yaml>)
    ensures
        scalars_of(items).len() <= items.len(),
    decreases items.len(),
{
    if items.len() > 0 {
        lemma_scalars_len(items.drop_last());
    }
}

fn parse_runs_on(v: &YamlValue) -> (r: RunsOn)
    ensures
        runs_on_of(r, v@),
{
    if let Some(t) = v.scalar_string() {
        return RunsOn::Single(t);
    }
    if let YamlValue::Sequence(items, _) = v {
        let labels = scalars_of_items(items);
        proof { lemma_items_view(items@); }
        if labels.len() == items.len() {
            return RunsOn::Labels(labels);
        }
    }
    RunsOn::Other(v.display_string())
}

/// The container a `container:` node describes, when it names an image.
pub open spec fn container_of(c: WorkflowContainer, v: Yaml) -> bool {
    match scalar_text(v) {
        Some(image) => c.env.wf() && c.image@ == image && text_map(c.env) == Map::<Seq<char>, Seq<char>>::empty()
            && c.ports@.len() == 0 && c.volumes@.len() == 0 && c.options is None,
        None => opt_scalar(get(v, "image"@)) == Some(c.image@) && c.env.wf()
            && text_map(c.env) == node_string_map(get(v, "env"@))
            && views(c.ports@) == opt_string_list(get(v, "ports"@))
            && views(c.volumes@) == opt_string_list(get(v, "volumes"@))
            && opt_view(c.options) == opt_scalar(get(v, "options"@)),
    }
}

/// A `container:` node describes a container: a scalar image, or a mapping with a scalar image.
pub open spec fn has_container(v: Yaml) -> bool {
    scalar_text(v) is Some || opt_scalar(get(v, "image"@)) is Some
}

fn opt_scalar_of(v: Option<&YamlValue>) -> (r: Option<String>)
    ensures
        opt_view(r) == opt_scalar(opt_node(v)),
{
    match v {
        Some(x) => x.scalar_string(),
        None => None,
    }
}

fn parse_container(v: &YamlValue) -> (r: Option<WorkflowContainer>)
    ensures
        r is Some <==> has_container(v@),
        r matches Some(c) ==> container_of(c, v@),
{
    if let Some(image) = v.scalar_string() {
        let env = StrMap::new();
        assert(text_map(env) =~= Map::<Seq<char>, Seq<char>>::empty());
        return Some(WorkflowContainer { image, env, ports: Vec::new(), volumes: Vec::new(), options: None });
    }
    let image = match opt_scalar_of(v.get("image")) {
        Some(i) => i,
        None => return None,
    };
    Some(WorkflowContainer {
        image,
        env: node_string_map_of(v.get("env")),
        ports: opt_string_list_of(v.get("ports")),
        volumes: opt_string_list_of(v.get("volumes")),
        options: opt_scalar_of(v.get("options")),
    })
}


/// The host side of a `host:container` port entry; the whole entry when it has no `:`.
pub open spec fn port_host(p: Seq<char>) -> Seq<char> {
    if p.contains(':') {
        p.take(choose|i: int| first_index_of(p, ':', i))
    } else {
        p
    }
}

/// The container side of a `host:container` port entry; the whole entry when it has no `:`.
pub open spec fn port_container(p: Seq<char>) -> Seq<char> {
    if p.contains(':') {
        p.skip((choose|i: int| first_index_of(p, ':', i)) + 1)
    } else {
        p
    }
}

/// Service ports, keyed by the trimmed container port, valued by the trimmed host port; a later
/// entry replaces an earlier one.
pub open spec fn ports_map(ps: Seq<Seq<char>>) -> Map<Seq<char>, Seq<char>>
    decreases ps.len(),
{
    if ps.len() == 0 {
        Map::empty()
    } else {
        ports_map(ps.drop_last()).insert(trim(port_container(ps.last())), trim(port_host(ps.last())))
    }
}

/// The ports of a service's optional `ports:` node.
pub open spec fn service_ports(v: Option<Yaml>) -> Map<Seq<char>, Seq<char>> {
    match v {
        Some(y) => ports_map(string_list(y)),
        None => Map::empty(),
    }
}

fn parse_service_ports(v: Option<&YamlValue>) -> (r: StrMap<String>)
    ensures
        r.wf(),
        text_map(r) == service_ports(opt_node(v)),
{
    let list = opt_string_list_of(v);
    let ghost ps = views(list@);
    let mut r: StrMap<String> = StrMap::new();
    assert(text_map(r) =~= Map::empty());
    let mut i: usize = 0;
    while i < list.len()
        invariant
            i <= list.len(),
            ps == views(list@),
            ps.len() == list.len(),
            r.wf(),
            text_map(r) == ports_map(ps.take(i as int)),
        decreases list.len() - i,
    {
        assert(ps.take(i + 1).drop_last() =~= ps.take(i as int));
        assert(ps.take(i + 1).last() == list@[i as int]@);
        let port = list[i].as_str();
        let (host, container) = match split_once_char(port, ':') {
            Some(pair) => {
                proof {
                    let k = choose|k: int| first_index_of(port@, ':', k) && pair.0@ == port@.take(k) && pair.1@ == port@.skip(k + 1);
                    crate::text::lemma_first_index_unique(port@, ':', k);
                }
                pair
            },
            None => (port.to_owned(), port.to_owned()),
        };
        let key = trim_str(container.as_str());
        let value = trim_str(host.as_str());
        let ghost before = r;
        let ghost kv = key@;
        let ghost vv = value@;
        r.insert(key, value);
        proof { lemma_text_map_insert(before, r, kv, vv); }
        i += 1;
    }
    assert(ps.take(list.len() as int) =~= ps);
    r
}

/// One entry of a `services:` mapping names a service: a scalar id, a mapping value and a
/// scalar image.
pub open spec fn service_entry_ok(k: Yaml, v: Yaml) -> bool {
    scalar_text(k) is Some && v is Mapping && opt_scalar(get(v, "image"@)) is Some
}

/// The service read from an entry with this id and value node.
pub open spec fn service_of(s: WorkflowService, id: Seq<char>, v: Yaml) -> bool {
    &&& s.id@ == id
    &&& s.env.wf()
    &&& s.ports.wf()
    &&& opt_scalar(get(v, "image"@)) == Some(s.image@)
    &&& text_map(s.env) == node_string_map(get(v, "env"@))
    &&& text_map(s.ports) == service_ports(get(v, "ports"@))
    &&& opt_view(s.options) == opt_scalar(get(v, "options"@))
}

/// The value node of the last well-formed service entry with id `k`.
pub open spec fn last_service(entries: Seq<(Yaml, Yaml)>, k: Seq<char>) -> Option<Yaml>
    decreases entries.len(),
{
    if entries.len() == 0 {
        None
    } else if service_entry_ok(entries.last().0, entries.last().1) && scalar_text(entries.last().0) == Some(k) {
        Some(entries.last().1)
    } else {
        last_service(entries.drop_last(), k)
    }
}

/// The services read from a `services:` mapping: one per id that has a well-formed entry,
/// read from the last such entry.
pub open spec fn services_of(m: StrMap<WorkflowService>, entries: Seq<(Yaml, Yaml)>) -> bool {
    forall|k: Seq<char>| match last_service(entries, k) {
        Some(v) => #[trigger] m.lookup(k) matches Some(s) && service_of(s, k, v),
        None => m.lookup(k) is None,
    }
}

/// The services under an optional `services:` node: none unless it is a mapping.
pub open spec fn services_node(m: StrMap<WorkflowService>, v: Option<Yaml>) -> bool {
    match v {
        Some(Yaml::Mapping(entries, _)) => services_of(m, entries),
        _ => forall|k: Seq<char>| #[trigger] m.lookup(k) is None,
    }
}

fn parse_services(v: Option<&YamlValue>) -> (r: StrMap<WorkflowService>)
    ensures
        r.wf(),
        services_node(r, opt_node(v)),
{
    let mut r: StrMap<WorkflowService> = StrMap::new();
    let entries = match v {
        Some(YamlValue::Mapping(entries, _)) => entries,
        _ => return r,
    };
    proof { lemma_entries_view(entries@); }
    let ghost model = entries_view(entries@);
    let mut i: usize = 0;
    while i < entries.len()
        invariant
            i <= entries.len(),
            model == entries_view(entries@),
            model.len() == entries.len(),
            forall|j: int| 0 <= j < entries.len() ==> #[trigger] model[j] == (entries[j].0@, entries[j].1@),
            r.wf(),
            services_of(r, model.take(i as int)),
        decreases entries.len() - i,
    {
        let ghost pre = model.take(i as int);
        let ghost cur = model.take(i + 1);
        assert(cur.drop_last() =~= pre);
        assert(cur.last() == model[i as int]);
        let key = &entries[i].0;
        let value = &entries[i].1;
        let id = key.scalar_string();
        let image = opt_scalar_of(value.get("image"));
        let is_map = match value {
            YamlValue::Mapping(_, _) => true,
            _ => false,
        };
        if id.is_some() && is_map && image.is_some() {
            let id = id.unwrap();
            let service = WorkflowService {
                id: id.clone(),
                image: image.unwrap(),
                env: node_string_map_of(value.get("env")),
                ports: parse_service_ports(value.get("ports")),
                options: opt_scalar_of(value.get("options")),
            };
            let ghost before = r;
            let ghost kv = id@;
            r.insert(id, service);
            assert forall|k: Seq<char>| #[trigger] last_service(cur, k) == (if k == kv { Some(value@) } else { last_service(pre, k) }) by {}
            assert(services_of(r, cur)) by {
                assert forall|k: Seq<char>| match last_service(cur, k) {
                    Some(v) => #[trigger] r.lookup(k) matches Some(s) && service_of(s, k, v),
                    None => r.lookup(k) is None,
                } by {
                    if k != kv {
                        assert(r.lookup(k) == before.lookup(k));
                    }
                }
            }
        } else {
            assert forall|k: Seq<char>| #[trigger] last_service(cur, k) == last_service(pre, k) by {}
        }
        i += 1;
    }
    assert(model.take(entries.len() as int) =~= model);
    r
}


/// The mapping members of a list, in order: the nodes that describe steps.
pub open spec fn step_items(items: Seq<Yaml>) -> Seq<Yaml>
    decreases items.len(),
{
    if items.len() == 0 {
        Seq::empty()
    } else if items.last() is Mapping {
        step_items(items.drop_last()).push(items.last())
    } else {
        step_items(items.drop_last())
    }
}

/// The step nodes of a `steps:` node: none unless it is a sequence.
pub open spec fn step_nodes(v: Option<Yaml>) -> Seq<Yaml> {
    match v {
        Some(Yaml::Sequence(items, _)) => step_items(items),
        _ => Seq::empty(),
    }
}

/// The step read from a mapping node.
pub open spec fn step_of(s: WorkflowStep, v: Yaml) -> bool {
    &&& s.env.wf()
    &&& s.with.wf()
    &&& opt_view(s.id) == opt_scalar(get(v, "id"@))
    &&& opt_view(s.name) == opt_scalar(get(v, "name"@))
    &&& opt_view(s.uses) == opt_scalar(get(v, "uses"@))
    &&& opt_view(s.run) == opt_scalar(get(v, "run"@))
    &&& opt_view(s.if_condition) == opt_scalar(get(v, "if"@))
    &&& opt_view(s.shell) == opt_scalar(get(v, "shell"@))
    &&& opt_view(s.working_directory) == opt_scalar(get(v, "working-directory"@))
    &&& text_map(s.env) == node_string_map(get(v, "env"@))
    &&& text_map(s.with) == node_string_map(get(v, "with"@))
    &&& s.raw@ == v
}

/// The steps read from a `steps:` node, one per step node, in order.
pub open spec fn steps_of(steps: Seq<WorkflowStep>, v: Option<Yaml>) -> bool {
    &&& steps.len() == step_nodes(v).len()
    &&& forall|i: int| 0 <= i < steps.len() ==> step_of(#[trigger] steps[i], step_nodes(v)[i])
}

fn parse_step(v: &YamlValue) -> (r: WorkflowStep)
    ensures
        step_of(r, v@),
{
    WorkflowStep {
        id: opt_scalar_of(v.get("id")),
        name: opt_scalar_of(v.get("name")),
        uses: opt_scalar_of(v.get("uses")),
        run: opt_scalar_of(v.get("run")),
        if_condition: opt_scalar_of(v.get("if")),
        shell: opt_scalar_of(v.get("shell")),
        working_directory: opt_scalar_of(v.get("working-directory")),
        env: node_string_map_of(v.get("env")),
        with: node_string_map_of(v.get("with")),
        raw: v.duplicate(),
    }
}

fn parse_steps(v: Option<&YamlValue>) -> (r: Vec<WorkflowStep>)
    ensures
        steps_of(r@, opt_node(v)),
{
    let mut r: Vec<WorkflowStep> = Vec::new();
    let items = match v {
        Some(YamlValue::Sequence(items, _)) => items,
        _ => return r,
    };
    proof { lemma_items_view(items@); }
    let ghost model = items_view(items@);
    let mut i: usize = 0;
    while i < items.len()
        invariant
            i <= items.len(),
            model == items_view(items@),
            model.len() == items.len(),
            forall|j: int| 0 <= j < items.len() ==> #[trigger] model[j] == items[j]@,
            r@.len() == step_items(model.take(i as int)).len(),
            forall|j: int| 0 <= j < r@.len() ==> step_of(#[trigger] r@[j], step_items(model.take(i as int))[j]),
        decreases items.len() - i,
    {
        assert(model.take(i + 1).drop_last() =~= model.take(i as int));
        assert(model.take(i + 1).last() == model[i as int]);
        if let YamlValue::Mapping(_, _) = &items[i] {
            let step = parse_step(&items[i]);
            r.push(step);
        }
        i += 1;
    }
    assert(model.take(items.len() as int) =~= model);
    r
}

/// An optional string list taken by its views.
pub open spec fn opt_list_view(o: Option<Vec<String>>) -> Option<Seq<Seq<char>>> {
    match o {
        Some(v) => Some(views(v@)),
        None => None,
    }
}

/// The string list of an optional node, kept optional.
pub open spec fn opt_list_node(v: Option<Yaml>) -> Option<Seq<Seq<char>>> {
    match v {
        Some(y) => Some(string_list(y)),
        None => None,
    }
}

/// The filters of one event, read from its optional node: each filter list is present exactly
/// when the node is a mapping that has it.
pub open spec fn filters_of(f: WorkflowEventFilters, node: Option<Yaml>) -> bool {
    match node {
        Some(v) => {
            &&& opt_list_view(f.branches) == opt_list_node(get(v, "branches"@))
            &&& opt_list_view(f.branches_ignore) == opt_list_node(get(v, "branches-ignore"@))
            &&& opt_list_view(f.paths) == opt_list_node(get(v, "paths"@))
            &&& opt_list_view(f.paths_ignore) == opt_list_node(get(v, "paths-ignore"@))
        },
        None => f.branches is None && f.branches_ignore is None && f.paths is None && f.paths_ignore is None,
    }
}

/// The value node of the last entry whose scalar key is `k`.
pub open spec fn last_entry(entries: Seq<(Yaml, Yaml)>, k: Seq<char>) -> Option<Yaml>
    decreases entries.len(),
{
    if entries.len() == 0 {
        None
    } else if scalar_text(entries.last().0) == Some(k) {
        Some(entries.last().1)
    } else {
        last_entry(entries.drop_last(), k)
    }
}

/// Where the filters of event `k` come from in an `on:` node: `None` when the event is not
/// listed; `Some(None)` when it is listed without filters (a scalar, or a member of a sequence);
/// `Some(Some(v))` when it is a key of a mapping, `v` being its value (the last one for a key
/// that repeats).
pub open spec fn event_source(on: Yaml, k: Seq<char>) -> Option<Option<Yaml>> {
    match scalar_text(on) {
        Some(t) => if t == k { Some(None) } else { None },
        None => match on {
            Yaml::Sequence(items, _) => if scalars_of(items).contains(k) { Some(None) } else { None },
            Yaml::Mapping(entries, _) => match last_entry(entries, k) {
                Some(v) => Some(Some(v)),
                None => None,
            },
            _ => None,
        },
    }
}

/// The events read from an `on:` node.
pub open spec fn events_of(m: StrMap<WorkflowEventFilters>, on: Yaml) -> bool {
    forall|k: Seq<char>| match event_source(on, k) {
        Some(node) => #[trigger] m.lookup(k) matches Some(f) && filters_of(f, node),
        None => m.lookup(k) is None,
    }
}

fn opt_list_of(v: Option<&YamlValue>) -> (r: Option<Vec<String>>)
    ensures
        opt_list_view(r) == opt_list_node(opt_node(v)),
{
    match v {
        Some(x) => Some(parse_string_list(x)),
        None => None,
    }
}

fn parse_event_filters(v: &YamlValue) -> (r: WorkflowEventFilters)
    ensures
        filters_of(r, Some(v@)),
{
    WorkflowEventFilters {
        branches: opt_list_of(v.get("branches")),
        branches_ignore: opt_list_of(v.get("branches-ignore")),
        paths: opt_list_of(v.get("paths")),
        paths_ignore: opt_list_of(v.get("paths-ignore")),
    }
}

fn no_filters() -> (r: WorkflowEventFilters)
    ensures
        filters_of(r, None),
{
    WorkflowEventFilters { branches: None, branches_ignore: None, paths: None, paths_ignore: None }
}

proof fn lemma_scalars_push(items: Seq<Yaml>, y: Yaml)
    ensures
        scalars_of(items.push(y)) == match scalar_text(y) {
            Some(t) => scalars_of(items).push(t),
            None => scalars_of(items),
        },
{
    assert(items.push(y).drop_last() =~= items);
}

/// The trigger events of an `on:` node, with their branch and path filters.
pub fn extract_events(on: &YamlValue) -> (r: StrMap<WorkflowEventFilters>)
    ensures
        r.wf(),
        events_of(r, on@),
{
    let mut r: StrMap<WorkflowEventFilters> = StrMap::new();
    if let Some(event) = on.scalar_string() {
        let ghost ev = event@;
        r.insert(event, no_filters());
        assert forall|k: Seq<char>| match event_source(on@, k) {
            Some(node) => #[trigger] r.lookup(k) matches Some(f) && filters_of(f, node),
            None => r.lookup(k) is None,
        } by {
            if k != ev {
                assert(r.lookup(k) is None);
            }
        }
        return r;
    }
    match on {
        YamlValue::Sequence(items, _) => {
            proof { lemma_items_view(items@); }
            let ghost model = items_view(items@);
            let mut i: usize = 0;
            while i < items.len()
                invariant
                    i <= items.len(),
                    model == items_view(items@),
                    model.len() == items.len(),
                    forall|j: int| 0 <= j < items.len() ==> #[trigger] model[j] == items[j]@,
                    r.wf(),
                    forall|k: Seq<char>| if scalars_of(model.take(i as int)).contains(k) {
                        #[trigger] r.lookup(k) matches Some(f) && filters_of(f, None)
                    } else {
                        r.lookup(k) is None
                    },
                decreases items.len() - i,
            {
                proof {
                    assert(model.take(i + 1) =~= model.take(i as int).push(model[i as int]));
                    lemma_scalars_push(model.take(i as int), model[i as int]);
                }
                if let Some(event) = items[i].scalar_string() {
                    let ghost before = r;
                    let ghost ev = event@;
                    r.insert(event, no_filters());
                    assert forall|k: Seq<char>| if scalars_of(model.take(i + 1)).contains(k) {
                        #[trigger] r.lookup(k) matches Some(f) && filters_of(f, None)
                    } else {
                        r.lookup(k) is None
                    } by {
                        if k != ev {
                            assert(r.lookup(k) == before.lookup(k));
                            let s0 = scalars_of(model.take(i as int));
                            let s1 = scalars_of(model.take(i + 1));
                            assert(s1 == s0.push(ev));
                            if s1.contains(k) {
                                let w = choose|w: int| 0 <= w < s1.len() && #[trigger] s1[w] == k;
                                assert(w < s0.len());
                                assert(s0[w] == k);
                            }
                            if s0.contains(k) {
                                let w = choose|w: int| 0 <= w < s0.len() && #[trigger] s0[w] == k;
                                assert(s1[w] == k);
                            }
                        } else {
                            assert(scalars_of(model.take(i + 1)).last() == ev);
                        }
                    }
                }
                i += 1;
            }
            assert(model.take(items.len() as int) =~= model);
        },
        YamlValue::Mapping(entries, _) => {
            proof { lemma_entries_view(entries@); }
            let ghost model = entries_view(entries@);
            let mut i: usize = 0;
            while i < entries.len()
                invariant
                    i <= entries.len(),
                    model == entries_view(entries@),
                    model.len() == entries.len(),
                    forall|j: int| 0 <= j < entries.len() ==> #[trigger] model[j] == (entries[j].0@, entries[j].1@),
                    r.wf(),
                    forall|k: Seq<char>| match last_entry(model.take(i as int), k) {
                        Some(v) => #[trigger] r.lookup(k) matches Some(f) && filters_of(f, Some(v)),
                        None => r.lookup(k) is None,
                    },
                decreases entries.len() - i,
            {
                let ghost pre = model.take(i as int);
                let ghost cur = model.take(i + 1);
                assert(cur.drop_last() =~= pre);
                assert(cur.last() == model[i as int]);
                if let Some(event) = entries[i].0.scalar_string() {
                    let value = &entries[i].1;
                    let filters = match value {
                        YamlValue::Mapping(_, _) => parse_event_filters(value),
                        _ => no_filters(),
                    };
                    let ghost before = r;
                    let ghost ev = event@;
                    r.insert(event, filters);
                    assert forall|k: Seq<char>| match last_entry(cur, k) {
                        Some(v) => #[trigger] r.lookup(k) matches Some(f) && filters_of(f, Some(v)),
                        None => r.lookup(k) is None,
                    } by {
                        if k != ev {
                            assert(r.lookup(k) == before.lookup(k));
                        }
                    }
                } else {
                    assert forall|k: Seq<char>| #[trigger] last_entry(cur, k) == last_entry(pre, k) by {}
                }
                i += 1;
            }
            assert(model.take(entries.len() as int) =~= model);
        },
        _ => {},
    }
    r
}


/// An optional node held by the library, taken by its form.
pub open spec fn opt_model(o: Option<YamlValue>) -> Option<Yaml> {
    match o {
        Some(v) => Some(v@),
        None => None,
    }
}

/// A job node can be read: it is a mapping with `runs-on` or a scalar `uses`.
pub open spec fn job_ok(v: Yaml) -> bool {
    v is Mapping && (get(v, "runs-on"@) is Some || opt_scalar(get(v, "uses"@)) is Some)
}

/// Why a job node cannot be read.
pub open spec fn job_error(id: Seq<char>, v: Yaml) -> Seq<char> {
    if !(v is Mapping) {
        "job `"@ + id + "` must be a mapping"@
    } else {
        "job `"@ + id + "` is missing `runs-on` or `uses`"@
    }
}

/// The optional `runs-on` of a job, read from its optional node.
pub open spec fn opt_runs_on(r: Option<RunsOn>, v: Option<Yaml>) -> bool {
    match v {
        Some(y) => r matches Some(x) && runs_on_of(x, y),
        None => r is None,
    }
}

/// The optional container of a job, read from its optional node.
pub open spec fn opt_container(c: Option<WorkflowContainer>, v: Option<Yaml>) -> bool {
    match v {
        Some(y) => if has_container(y) { c matches Some(x) && container_of(x, y) } else { c is None },
        None => c is None,
    }
}

/// The job read from a job node with this id.
pub open spec fn job_of(j: WorkflowJob, id: Seq<char>, v: Yaml) -> bool {
    &&& j.id@ == id
    &&& j.env.wf()
    &&& j.outputs.wf()
    &&& j.services.wf()
    &&& opt_view(j.name) == opt_scalar(get(v, "name"@))
    &&& opt_runs_on(j.runs_on, get(v, "runs-on"@))
    &&& opt_view(j.uses) == opt_scalar(get(v, "uses"@))
    &&& views(j.needs@) == opt_string_list(get(v, "needs"@))
    &&& opt_view(j.if_condition) == opt_scalar(get(v, "if"@))
    &&& text_map(j.env) == node_string_map(get(v, "env"@))
    &&& text_map(j.outputs) == node_string_map(get(v, "outputs"@))
    &&& services_node(j.services, get(v, "services"@))
    &&& opt_container(j.container, get(v, "container"@))
    &&& steps_of(j.steps@, get(v, "steps"@))
    &&& opt_model(j.strategy) == get(v, "strategy"@)
    &&& j.raw@ == v
}

fn opt_duplicate(v: Option<&YamlValue>) -> (r: Option<YamlValue>)
    ensures
        opt_model(r) == opt_node(v),
{
    match v {
        Some(x) => Some(x.duplicate()),
        None => None,
    }
}

fn job_message(id: &str, tail: &str) -> (r: String)
    ensures
        r@ == "job `"@ + id@ + tail@,
{
    let mut r = cat("job `", id);
    r.append(tail);
    r
}

fn parse_job(id: &str, v: &YamlValue) -> (r: Result<WorkflowJob, String>)
    ensures
        r is Ok <==> job_ok(v@),
        r matches Ok(j) ==> job_of(j, id@, v@),
        r matches Err(m) ==> m@ == job_error(id@, v@),
{
    match v {
        YamlValue::Mapping(_, _) => {},
        _ => {
            proof { reveal_strlit("` must be a mapping"); }
            return Err(job_message(id, "` must be a mapping"));
        },
    }
    let runs_on = match v.get("runs-on") {
        Some(x) => Some(parse_runs_on(x)),
        None => None,
    };
    let uses = opt_scalar_of(v.get("uses"));
    if runs_on.is_none() && uses.is_none() {
        proof { reveal_strlit("` is missing `runs-on` or `uses`"); }
        return Err(job_message(id, "` is missing `runs-on` or `uses`"));
    }
    let container = match v.get("container") {
        Some(x) => parse_container(x),
        None => None,
    };
    Ok(WorkflowJob {
        id: id.to_owned(),
        name: opt_scalar_of(v.get("name")),
        runs_on,
        uses,
        needs: opt_string_list_of(v.get("needs")),
        if_condition: opt_scalar_of(v.get("if")),
        env: node_string_map_of(v.get("env")),
        outputs: node_string_map_of(v.get("outputs")),
        services: parse_services(v.get("services")),
        container,
        steps: parse_steps(v.get("steps")),
        strategy: opt_duplicate(v.get("strategy")),
        raw: v.duplicate(),
    })
}

impl WorkflowJob {
    /// The job's maps are well formed, those of its services, container and steps included.
    pub open spec fn wf(&self) -> bool {
        &&& self.env.wf()
        &&& self.outputs.wf()
        &&& self.services.wf()
        &&& forall|i: int| 0 <= i < self.services.values().len() ==> (#[trigger] self.services.values()[i]).env.wf()
            && self.services.values()[i].ports.wf()
        &&& (self.container matches Some(c) ==> c.env.wf())
        &&& forall|i: int| 0 <= i < self.steps@.len() ==> (#[trigger] self.steps@[i]).env.wf() && self.steps@[i].with.wf()
    }
}

impl WorkflowDocument {
    /// The document's maps are well formed, those of every job included.
    pub open spec fn wf(&self) -> bool {
        &&& self.env.wf()
        &&& self.jobs.wf()
        &&& forall|i: int| 0 <= i < self.jobs.values().len() ==> (#[trigger] self.jobs.values()[i]).wf()
    }
}

proof fn lemma_job_of_wf(j: WorkflowJob, id: Seq<char>, v: Yaml)
    requires
        job_of(j, id, v),
    ensures
        j.wf(),
{
    assert forall|i: int| 0 <= i < j.services.values().len() implies (#[trigger] j.services.values()[i]).env.wf()
        && j.services.values()[i].ports.wf() by {
        j.services.lemma_index_of(i);
        let k = j.services.keys()[i];
        match get(v, "services"@) {
            Some(Yaml::Mapping(entries, _)) => {
                if last_service(entries, k) is None {
                    assert(j.services.lookup(k) is None);
                }
            },
            _ => {
                assert(j.services.lookup(k) is None);
            },
        }
    }
    assert forall|i: int| 0 <= i < j.steps@.len() implies (#[trigger] j.steps@[i]).env.wf() && j.steps@[i].with.wf() by {
        assert(step_of(j.steps@[i], step_nodes(get(v, "steps"@))[i]));
    }
}

proof fn lemma_jobs_of_wf(m: StrMap<WorkflowJob>, v: Option<Yaml>)
    requires
        m.wf(),
        jobs_node(m, v),
    ensures
        forall|i: int| 0 <= i < m.values().len() ==> (#[trigger] m.values()[i]).wf(),
{
    assert forall|i: int| 0 <= i < m.values().len() implies (#[trigger] m.values()[i]).wf() by {
        m.lemma_index_of(i);
        let k = m.keys()[i];
        match v {
            Some(Yaml::Mapping(entries, _)) => {
                if last_job(entries, k) is None {
                    assert(m.lookup(k) is None);
                }
                let jv = last_job(entries, k)->Some_0;
                lemma_job_of_wf(m.values()[i], k, jv);
            },
            _ => {
                assert(m.lookup(k) is None);
            },
        }
    }
}

/// A diagnostic taken by its level and message.
pub open spec fn diag_view(d: WorkflowDiagnostic) -> (DiagnosticLevel, Seq<char>) {
    (d.level, d.message@)
}

/// Diagnostics taken by their levels and messages.
pub open spec fn diag_views(ds: Seq<WorkflowDiagnostic>) -> Seq<(DiagnosticLevel, Seq<char>)> {
    ds.map_values(|d: WorkflowDiagnostic| diag_view(d))
}

/// The warnings raised while reading the entries of a `jobs:` mapping, in order: one for a key
/// that is not a string, one for each job node that cannot be read.
pub open spec fn job_entry_diags(entries: Seq<(Yaml, Yaml)>) -> Seq<(DiagnosticLevel, Seq<char>)>
    decreases entries.len(),
{
    if entries.len() == 0 {
        Seq::empty()
    } else {
        let prev = job_entry_diags(entries.drop_last());
        match crate::yaml::str_text(entries.last().0) {
            None => prev.push((DiagnosticLevel::Warning, "workflow contains a job with a non-string id"@)),
            Some(id) => if job_ok(entries.last().1) {
                prev
            } else {
                prev.push((DiagnosticLevel::Warning, job_error(id, entries.last().1)))
            },
        }
    }
}

/// Everything noticed while reading a workflow whose root is this mapping node.
pub open spec fn doc_diags(root: Yaml) -> Seq<(DiagnosticLevel, Seq<char>)> {
    let on_diag: Seq<(DiagnosticLevel, Seq<char>)> = if get(root, "on"@) is None {
        seq![(DiagnosticLevel::Warning, "workflow is missing an `on` trigger"@)]
    } else {
        Seq::empty()
    };
    on_diag + match get(root, "jobs"@) {
        Some(Yaml::Mapping(entries, _)) => job_entry_diags(entries),
        _ => seq![(DiagnosticLevel::Error, "workflow is missing a `jobs` mapping"@)],
    }
}

/// The job node of the last readable entry with the string key `k`.
pub open spec fn last_job(entries: Seq<(Yaml, Yaml)>, k: Seq<char>) -> Option<Yaml>
    decreases entries.len(),
{
    if entries.len() == 0 {
        None
    } else if crate::yaml::str_text(entries.last().0) == Some(k) && job_ok(entries.last().1) {
        Some(entries.last().1)
    } else {
        last_job(entries.drop_last(), k)
    }
}

/// The jobs read from the entries of a `jobs:` mapping.
pub open spec fn jobs_of(m: StrMap<WorkflowJob>, entries: Seq<(Yaml, Yaml)>) -> bool {
    forall|k: Seq<char>| match last_job(entries, k) {
        Some(v) => #[trigger] m.lookup(k) matches Some(j) && job_of(j, k, v),
        None => m.lookup(k) is None,
    }
}

/// The jobs under an optional `jobs:` node: none unless it is a mapping.
pub open spec fn jobs_node(m: StrMap<WorkflowJob>, v: Option<Yaml>) -> bool {
    match v {
        Some(Yaml::Mapping(entries, _)) => jobs_of(m, entries),
        _ => forall|k: Seq<char>| #[trigger] m.lookup(k) is None,
    }
}

/// The document read from a root mapping node found at `path`.
pub open spec fn document_of(d: WorkflowDocument, path: Seq<char>, root: Yaml) -> bool {
    &&& d.path@ == path
    &&& d.env.wf()
    &&& d.jobs.wf()
    &&& opt_view(d.name) == opt_scalar(get(root, "name"@))
    &&& opt_model(d.on) == get(root, "on"@)
    &&& text_map(d.env) == node_string_map(get(root, "env"@))
    &&& jobs_node(d.jobs, get(root, "jobs"@))
    &&& diag_views(d.diagnostics@) == doc_diags(root)
    &&& d.raw@ == root
}

fn warning(message: String) -> (d: WorkflowDiagnostic)
    ensures
        diag_view(d) == (DiagnosticLevel::Warning, message@),
{
    WorkflowDiagnostic { level: DiagnosticLevel::Warning, message }
}

fn read_jobs(entries: &Vec<(YamlValue, YamlValue)>, diagnostics: &mut Vec<WorkflowDiagnostic>) -> (r: StrMap<WorkflowJob>)
    ensures
        r.wf(),
        jobs_of(r, entries_view(entries@)),
        diag_views(final(diagnostics)@) == diag_views(old(diagnostics)@) + job_entry_diags(entries_view(entries@)),
{
    proof { lemma_entries_view(entries@); }
    let ghost model = entries_view(entries@);
    let ghost start = diag_views(diagnostics@);
    let mut r: StrMap<WorkflowJob> = StrMap::new();
    let mut i: usize = 0;
    assert(start + job_entry_diags(model.take(0)) =~= start);
    while i < entries.len()
        invariant
            i <= entries.len(),
            model == entries_view(entries@),
            model.len() == entries.len(),
            forall|j: int| 0 <= j < entries.len() ==> #[trigger] model[j] == (entries[j].0@, entries[j].1@),
            r.wf(),
            jobs_of(r, model.take(i as int)),
            diag_views(diagnostics@) == start + job_entry_diags(model.take(i as int)),
        decreases entries.len() - i,
    {
        let ghost pre = model.take(i as int);
        let ghost cur = model.take(i + 1);
        assert(cur.drop_last() =~= pre);
        assert(cur.last() == model[i as int]);
        let ghost dpre = diagnostics@;
        match entries[i].0.as_string() {
            None => {
                proof { reveal_strlit("workflow contains a job with a non-string id"); }
                diagnostics.push(warning("workflow contains a job with a non-string id".to_owned()));
                assert(diag_views(diagnostics@) =~= diag_views(dpre).push(diag_view(diagnostics@.last())));
                assert forall|k: Seq<char>| #[trigger] last_job(cur, k) == last_job(pre, k) by {}
            },
            Some(id) => match parse_job(id.as_str(), &entries[i].1) {
                Ok(job) => {
                    let ghost before = r;
                    let ghost kv = id@;
                    r.insert(id, job);
                    assert forall|k: Seq<char>| match last_job(cur, k) {
                        Some(v) => #[trigger] r.lookup(k) matches Some(j) && job_of(j, k, v),
                        None => r.lookup(k) is None,
                    } by {
                        if k != kv {
                            assert(r.lookup(k) == before.lookup(k));
                        }
                    }
                },
                Err(message) => {
                    diagnostics.push(warning(message));
                    assert(diag_views(diagnostics@) =~= diag_views(dpre).push(diag_view(diagnostics@.last())));
                    assert forall|k: Seq<char>| #[trigger] last_job(cur, k) == last_job(pre, k) by {}
                },
            },
        }
        assert(diag_views(diagnostics@) =~= start + job_entry_diags(cur));
        i += 1;
    }
    assert(model.take(entries.len() as int) =~= model);
    r
}

/// Reads a workflow from its parsed YAML: the root must be a mapping; a missing trigger, a
/// missing `jobs:` mapping and jobs that cannot be read become diagnostics.
pub fn parse_workflow_value(path: &str, raw: YamlValue) -> (r: Result<WorkflowDocument, WorkflowParseError>)
    ensures
        r is Ok <==> raw@ is Mapping,
        r matches Ok(d) ==> document_of(d, path@, raw@) && d.wf(),
        r matches Err(e) ==> e matches WorkflowParseError::Shape { path: p, message: m }
            && p@ == path@ && m@ == "workflow root must be a mapping"@,
{
    match &raw {
        YamlValue::Mapping(_, _) => {},
        _ => {
            proof { reveal_strlit("workflow root must be a mapping"); }
            return Err(WorkflowParseError::Shape {
                path: path.to_owned(),
                message: "workflow root must be a mapping".to_owned(),
            });
        },
    }
    let name = opt_scalar_of(raw.get("name"));
    let on = opt_duplicate(raw.get("on"));
    let env = node_string_map_of(raw.get("env"));
    let mut diagnostics: Vec<WorkflowDiagnostic> = Vec::new();
    if on.is_none() {
        proof { reveal_strlit("workflow is missing an `on` trigger"); }
        diagnostics.push(warning("workflow is missing an `on` trigger".to_owned()));
    }
    let ghost on_diags = diag_views(diagnostics@);
    let jobs = match raw.get("jobs") {
        Some(YamlValue::Mapping(entries, _)) => read_jobs(entries, &mut diagnostics),
        _ => {
            proof { reveal_strlit("workflow is missing a `jobs` mapping"); }
            diagnostics.push(WorkflowDiagnostic {
                level: DiagnosticLevel::Error,
                message: "workflow is missing a `jobs` mapping".to_owned(),
            });
            assert(diag_views(diagnostics@) =~= on_diags.push(diag_view(diagnostics@.last())));
            StrMap::new()
        },
    };
    assert(diag_views(diagnostics@) =~= doc_diags(raw@));
    proof { lemma_jobs_of_wf(jobs, get(raw@, "jobs"@)); }
    Ok(WorkflowDocument { path: path.to_owned(), name, on, env, jobs, diagnostics, raw })
}

/// Parses a workflow's YAML text (`path` names the file in errors): text that is not YAML is
/// the `Yaml` error with serde_yaml's message; a document is read as `parse_workflow_value`
/// reads it.
pub fn parse_workflow_str(path: &str, content: &str) -> (r: Result<WorkflowDocument, WorkflowParseError>)
    ensures
        yaml_document(content@) matches Err(m) ==> (r matches Err(WorkflowParseError::Yaml { path: p, source: s })
            && p@ == path@ && s@ == m),
        yaml_document(content@) matches Ok(raw) ==> {
            &&& (r is Ok <==> raw is Mapping)
            &&& (r matches Ok(d) ==> document_of(d, path@, raw) && d.wf())
            &&& (r matches Err(e) ==> e matches WorkflowParseError::Shape { path: p, message: m }
                && p@ == path@ && m@ == "workflow root must be a mapping"@)
        },
{
    match yaml_document_of(content) {
        Ok(raw) => parse_workflow_value(path, raw),
        Err(source) => Err(WorkflowParseError::Yaml { path: path.to_owned(), source }),
    }
}

/// The trigger events of a workflow; none when it has no `on:`.
pub fn workflow_events(workflow: &WorkflowDocument) -> (r: StrMap<WorkflowEventFilters>)
    ensures
        r.wf(),
        match workflow.on {
            Some(on) => events_of(r, on@),
            None => forall|k: Seq<char>| #[trigger] r.lookup(k) is None,
        },
{
    match &workflow.on {
        Some(on) => extract_events(on),
        None => StrMap::new(),
    }
}

} // verus!
