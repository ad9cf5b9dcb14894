use local_ci::reusable::{
    build_auth_hint, fetch_failure_message, is_sha_ref, parse_remote_ref, remote_cache_path, RemoteFetchError,
    ReusableWorkflowError,
};

#[test]
fn parses_remote_refs_and_cache_paths() {
    let reference = parse_remote_ref("owner/repo/.github/workflows/ci.yml@feature/foo").unwrap();

    assert_eq!(reference.owner, "owner");
    assert_eq!(reference.repo, "repo");
    assert_eq!(reference.path, ".github/workflows/ci.yml");
    assert_eq!(reference.ref_name, "feature/foo");
    assert_eq!(remote_cache_path("cache", &reference), "cache/owner__repo@feature-foo/.github/workflows/ci.yml");
    assert!(is_sha_ref("0123456789abcdef0123456789abcdef01234567"));
    assert!(!is_sha_ref("main"));
}

#[test]
fn auth_hints_cover_private_repo_statuses() {
    assert!(build_auth_hint(404, false).contains("gh auth login"));
    assert!(build_auth_hint(403, true).contains("contents: read"));
    assert_eq!(build_auth_hint(500, false), "");
}

#[test]
fn remote_refs_need_a_ref_and_three_segments() {
    assert!(parse_remote_ref("owner/repo/ci.yml@").is_none());
    assert!(parse_remote_ref("owner/repo@main").is_none());
    assert!(parse_remote_ref("owner/repo/ci.yml").is_none());
    let r = parse_remote_ref("o/r/a/b.yml@v1@v2").unwrap();
    assert_eq!(r.path, "a/b.yml@v1");
    assert_eq!(r.ref_name, "v2");
    assert_eq!(r.raw, "o/r/a/b.yml@v1@v2");
    assert!(!is_sha_ref("0123456789abcdef0123456789abcdef0123456g"));
}

#[test]
fn fetch_failures_carry_the_hint() {
    let reference = parse_remote_ref("owner/repo/ci.yml@main").unwrap();
    let err = RemoteFetchError { status: Some(401), message: "unauthorized".to_owned() };
    let message = fetch_failure_message(&reference, false, &err);
    assert!(message.starts_with("Failed to fetch remote workflow owner/repo/ci.yml@main\n  To authenticate"));
    assert!(message.ends_with(": unauthorized"));
    let plain = RemoteFetchError { status: None, message: "offline".to_owned() };
    assert_eq!(fetch_failure_message(&reference, true, &plain), "Failed to fetch remote workflow owner/repo/ci.yml@main: offline");
    assert_eq!(
        ReusableWorkflowError::Cycle("/w.yml".to_owned()).message(),
        "Cycle detected in reusable workflows: /w.yml is already in the call chain"
    );
    assert_eq!(
        ReusableWorkflowError::RemoteFetch(vec!["a".to_owned(), "b".to_owned()]).message(),
        "[Local CI] Remote workflow fetch failed:\n  a\n  b"
    );
}

use local_ci::expansion::{expansion_start, expansion_step, ExpansionAction, ExpansionEvent};
use local_ci::reusable::ExpandedJobEntry;

/// Expands with a host whose files are held in memory, as (path, YAML text) pairs.
fn expand_reusable_jobs(files: &[(&str, &str)], workflow: &str, repo: &str) -> Result<Vec<ExpandedJobEntry>, ReusableWorkflowError> {
    let mut state = expansion_start(workflow, repo, "/work", None);
    let mut event = ExpansionEvent::Start;
    loop {
        let (next, action) = expansion_step(state, event);
        state = next;
        event = match action {
            ExpansionAction::Read(path) => {
                let text = files.iter().find(|(p, _)| *p == path).map(|(_, t)| t.to_string());
                ExpansionEvent::Text(text.ok_or_else(|| "not found".to_owned()))
            }
            ExpansionAction::CheckExists(path) => ExpansionEvent::Exists(files.iter().any(|(p, _)| *p == path)),
            ExpansionAction::Finish(result) => return result,
        };
    }
}

#[test]
fn expands_local_reusable_workflows_and_rewires_needs() {
    let caller = "/repo/.github/workflows/caller.yml";
    let called = "/repo/./.github/workflows/called.yml";
    let files = [
        (
            caller,
            r#"on: push
jobs:
  setup:
    runs-on: ubuntu-latest
  build:
    needs: setup
    uses: ./.github/workflows/called.yml
    with:
      target: app
  after:
    needs: build
    runs-on: ubuntu-latest
"#,
        ),
        (
            called,
            r#"on:
  workflow_call:
    inputs:
      target:
        default: default-target
    outputs:
      artifact:
        value: ${{ jobs.package.outputs.artifact }}
jobs:
  compile:
    runs-on: ubuntu-latest
  package:
    needs: compile
    runs-on: ubuntu-latest
"#,
        ),
    ];

    let entries = expand_reusable_jobs(&files, caller, "/repo").unwrap();

    let ids = entries.iter().map(|entry| entry.id.as_str()).collect::<Vec<_>>();
    assert_eq!(ids, vec!["after", "build/compile", "build/package", "setup"]);
    let compile = entries.iter().find(|entry| entry.id == "build/compile").unwrap();
    let package = entries.iter().find(|entry| entry.id == "build/package").unwrap();
    let after = entries.iter().find(|entry| entry.id == "after").unwrap();
    assert_eq!(compile.needs, vec!["setup".to_owned()]);
    assert_eq!(package.needs, vec!["build/compile".to_owned()]);
    assert_eq!(after.needs, vec!["build/package".to_owned()]);
    assert_eq!(compile.inputs.as_ref().unwrap().get("target"), Some(&"app".to_owned()));
    assert_eq!(compile.input_defaults.as_ref().unwrap().get("target"), Some(&"default-target".to_owned()));
    assert!(compile.workflow_call_output_defs.as_ref().unwrap().contains_key("artifact"));
}

#[test]
fn detects_reusable_workflow_cycles() {
    let workflow = "/repo/./.github/workflows/cycle.yml";
    let files = [(workflow, "on: push\njobs:\n  self:\n    uses: ./.github/workflows/cycle.yml\n")];

    let err = expand_reusable_jobs(&files, workflow, "/repo").unwrap_err();

    assert!(matches!(err, ReusableWorkflowError::Cycle(_)));
}

#[test]
fn a_missing_called_workflow_names_the_calling_job() {
    let workflow = "/repo/ci.yml";
    let files = [(workflow, "on: push\njobs:\n  deploy:\n    uses: ./missing.yml\n")];

    let err = expand_reusable_jobs(&files, workflow, "/repo").unwrap_err();

    assert_eq!(
        err,
        ReusableWorkflowError::MissingCalledWorkflow { path: "/repo/./missing.yml".to_owned(), job_id: "deploy".to_owned() }
    );
}

#[test]
fn unreadable_and_unparsable_workflows_end_the_expansion() {
    let err = expand_reusable_jobs(&[], "/repo/ci.yml", "/repo").unwrap_err();
    assert_eq!(err, ReusableWorkflowError::WorkflowParse("failed to read workflow /repo/ci.yml: not found".to_owned()));

    let files = [("/repo/ci.yml", "- just\n- a list\n")];
    let err = expand_reusable_jobs(&files, "/repo/ci.yml", "/repo").unwrap_err();
    assert_eq!(
        err,
        ReusableWorkflowError::WorkflowParse("invalid workflow /repo/ci.yml: workflow root must be a mapping".to_owned())
    );

    let files = [("/repo/ci.yml", "jobs: [unclosed\n")];
    match expand_reusable_jobs(&files, "/repo/ci.yml", "/repo").unwrap_err() {
        ReusableWorkflowError::WorkflowParse(message) => {
            assert!(message.starts_with("failed to parse workflow /repo/ci.yml: "))
        }
        other => panic!("expected a parse error, got {other:?}"),
    }
}

#[test]
fn a_chain_of_calls_deeper_than_the_limit_is_refused() {
    let texts: Vec<(String, String)> = (0..12)
        .map(|i| {
            let path = if i == 0 { "/repo/ci.yml".to_owned() } else { format!("/repo/./w{i}.yml") };
            let text = format!("on: workflow_call\njobs:\n  j:\n    uses: ./w{}.yml\n", i + 1);
            (path, text)
        })
        .collect();
    let files: Vec<(&str, &str)> = texts.iter().map(|(p, t)| (p.as_str(), t.as_str())).collect();
    let err = expand_reusable_jobs(&files, "/repo/ci.yml", "/repo").unwrap_err();
    assert_eq!(err, ReusableWorkflowError::DepthExceeded("/repo/./w5.yml".to_owned()));
}
