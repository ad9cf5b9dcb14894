use local_ci::dtu::artifacts::latest_block_ids;
use local_ci::dtu::github::{is_safe_git_revision, split_basehead};
use local_ci::dtu::http::{find_header_end, status_text};
use local_ci::dtu::job_mapping::{base64_url, create_mock_jwt, mock_uuid};
use local_ci::dtu::logs::{is_runner_internal_line, sanitize_step_log_name, strip_runner_line_prefix};
use local_ci::dtu::state::cache_id_from_archive_location;
use local_ci::dtu::util::{civil_from_days, iso_from_millis, unix_seconds_to_utc};
use local_ci::plan::{
    effective_run_default, planned_job_target, planned_step_name, try_plan_workflow_document, PlannedJobTarget,
};
use local_ci::reusable::{
    caller_with_inputs, enter_called_workflow, graft_called_entries, local_job_entry, resolve_called_path,
    rewire_needs, scan_remote_refs, workflow_call_input_defaults, workflow_call_output_defs, ReusableWorkflowError,
};
use local_ci::strmap::{StrMap, StrSet};
use local_ci::workflow::{
    is_workflow_relevant, parse_workflow_str, workflow_events, DiagnosticLevel, RunsOn, WorkflowDocument,
    WorkflowParseError,
};

fn parse_text(path: &str, content: &str) -> Result<WorkflowDocument, WorkflowParseError> {
    parse_workflow_str(path, content)
}

#[test]
fn records_diagnostics_for_missing_jobs() {
    let workflow = parse_text("missing.yml", "name: Missing\non: push\n").unwrap();

    assert!(workflow.diagnostics.iter().any(|diagnostic| {
        diagnostic.level == DiagnosticLevel::Error && diagnostic.message == "workflow is missing a `jobs` mapping"
    }));
}

#[test]
fn applies_branch_and_path_relevance_filters() {
    let workflow = parse_text(
        "filters.yml",
        r#"on:
  push:
    branches: [main]
    paths: [src/**]
  pull_request:
    branches-ignore: [release/**]
    paths-ignore: [docs/**]
jobs:
  test:
    runs-on: ubuntu-latest
"#,
    )
    .unwrap();
    let events = workflow_events(&workflow);

    assert!(is_workflow_relevant(&events, "main", &vec!["src/lib.rs".to_owned()]));
    assert!(!is_workflow_relevant(&events, "feature", &vec!["docs/readme.md".to_owned()]));
    assert!(is_workflow_relevant(&events, "feature", &vec!["src/lib.rs".to_owned()]));
}

#[test]
fn pull_request_branch_filters_use_actual_branch() {
    let workflow = parse_text(
        "pr-branch.yml",
        r#"on:
  pull_request:
    branches: [develop]
jobs:
  test:
    runs-on: ubuntu-latest
"#,
    )
    .unwrap();
    let events = workflow_events(&workflow);

    assert!(is_workflow_relevant(&events, "develop", &vec![]));
    assert!(!is_workflow_relevant(&events, "main", &vec![]));
}

#[test]
fn workflow_dispatch_only_is_relevant_for_all_mode() {
    let workflow =
        parse_text("dispatch.yml", "on: workflow_dispatch\njobs:\n  test:\n    runs-on: ubuntu-latest\n").unwrap();
    let events = workflow_events(&workflow);

    assert!(is_workflow_relevant(&events, "anything", &vec![]));
}

#[test]
fn reads_jobs_steps_services_and_container() {
    let workflow = parse_text(
        "ci.yml",
        r#"name: CI
on: [push, pull_request]
env:
  GLOBAL: "1"
defaults:
  run:
    shell: bash
jobs:
  build:
    name: Build it
    runs-on: [self-hosted, macos-14]
    needs: lint
    env:
      JOB: x
    container:
      image: node:20
      ports: ["8080:80"]
    services:
      db:
        image: postgres
        ports: ["5432:5432", "6000"]
    steps:
      - uses: actions/checkout@v4
      - name: Test
        run: |
          npm test
          echo done
        env:
          STEP: y
      - not-a-step
  lint:
    runs-on: ubuntu-latest
  broken: 3
  nothing:
    name: x
"#,
    )
    .unwrap();
    assert_eq!(workflow.name, Some("CI".to_owned()));
    assert_eq!(workflow.env.get("GLOBAL"), Some(&"1".to_owned()));
    let events = workflow_events(&workflow);
    assert!(events.contains_key("push") && events.contains_key("pull_request"));
    let build = workflow.jobs.get("build").unwrap();
    assert_eq!(build.runs_on, Some(RunsOn::Labels(vec!["self-hosted".to_owned(), "macos-14".to_owned()])));
    assert_eq!(build.needs, vec!["lint".to_owned()]);
    assert_eq!(build.steps.len(), 2);
    assert_eq!(build.steps[1].name, Some("Test".to_owned()));
    assert_eq!(build.container.as_ref().unwrap().ports, vec!["8080:80".to_owned()]);
    let db = build.services.get("db").unwrap();
    assert_eq!(db.ports.get("5432"), Some(&"5432".to_owned()));
    assert_eq!(db.ports.get("6000"), Some(&"6000".to_owned()));
    assert!(workflow.jobs.get("broken").is_none());
    assert!(workflow.diagnostics.iter().any(|d| d.message == "job `broken` must be a mapping"));
    assert!(workflow.diagnostics.iter().any(|d| d.message == "job `nothing` is missing `runs-on` or `uses`"));
    assert!(matches!(planned_job_target(build), PlannedJobTarget::MacOs { .. }));
    assert_eq!(planned_step_name(&build.steps[0], 0), "actions/checkout@v4");
    assert_eq!(planned_step_name(&build.steps[1], 1), "Test");
    assert_eq!(effective_run_default(&workflow, build, &build.steps[1], "shell"), Some("bash".to_owned()));
    assert_eq!(effective_run_default(&workflow, build, &build.steps[1], "working-directory"), None);
}

#[test]
fn text_that_is_not_yaml_is_a_parse_error() {
    let err = parse_text("bad.yml", "jobs: [unclosed\n").unwrap_err();
    match &err {
        WorkflowParseError::Yaml { path, source } => {
            assert_eq!(path, "bad.yml");
            assert!(!source.is_empty());
        }
        other => panic!("expected a YAML error, got {other:?}"),
    }
    assert!(err.message().starts_with("failed to parse workflow bad.yml: "));
    let doc = parse_text("ok.yml", "name: CI\non: push\njobs: {}\n").unwrap();
    assert_eq!(doc.name.as_deref(), Some("CI"));
}

#[test]
fn roots_that_are_not_mappings_are_refused() {
    let err = parse_text("list.yml", "- a\n- b\n").unwrap_err();
    assert_eq!(
        err,
        WorkflowParseError::Shape { path: "list.yml".to_owned(), message: "workflow root must be a mapping".to_owned() }
    );
    let warned = parse_text("no-on.yml", "jobs:\n  a:\n    runs-on: x\n").unwrap();
    assert_eq!(warned.diagnostics[0].message, "workflow is missing an `on` trigger");
    assert_eq!(warned.diagnostics[0].level, DiagnosticLevel::Warning);
}

#[test]
fn plans_a_document_into_scheduled_legs() {
    let workflow = parse_text(
        "ci.yml",
        r#"on: push
env:
  A: "1"
jobs:
  test:
    runs-on: ubuntu-latest
    strategy:
      matrix:
        node: [20, 22]
    steps:
      - run: echo hi
  deploy:
    runs-on: ubuntu-latest
    needs: test
    env:
      A: "2"
    steps:
      - run: ""
"#,
    )
    .unwrap();
    let plan = try_plan_workflow_document(&workflow, 5, false).unwrap();
    assert_eq!(plan.jobs.len(), 3);
    assert_eq!(plan.jobs[0].id, "deploy");
    assert_eq!(plan.jobs[0].env.get("A"), Some(&"2".to_owned()));
    assert_eq!(plan.jobs[0].steps[0].name, "Step 1");
    assert_eq!(plan.jobs[1].runner_name, "local-ci-5-j2-m1");
    assert_eq!(plan.jobs[1].steps[0].name, "echo hi");
    assert_eq!(plan.jobs[1].env.get("A"), Some(&"1".to_owned()));
    assert_eq!(
        plan.schedule,
        vec![vec!["local-ci-5-j2-m1".to_owned(), "local-ci-5-j2-m2".to_owned()], vec!["deploy".to_owned()]]
    );
    let cyclic = parse_text(
        "cycle.yml",
        "on: push\njobs:\n  a:\n    runs-on: x\n    needs: b\n  b:\n    runs-on: x\n    needs: a\n",
    )
    .unwrap();
    let err = try_plan_workflow_document(&cyclic, 1, false).unwrap_err();
    assert!(err.contains("cyclic job dependencies"));
}

#[test]
fn grafts_called_workflow_jobs_and_rewires_needs() {
    let caller_doc = parse_text(
        "caller.yml",
        r#"on: push
jobs:
  call:
    uses: ./.github/workflows/called.yml
    needs: setup
    with:
      target: prod
  setup:
    runs-on: ubuntu-latest
  after:
    runs-on: ubuntu-latest
    needs: call
"#,
    )
    .unwrap();
    let called_doc = parse_text(
        "called.yml",
        r#"on:
  workflow_call:
    inputs:
      target:
        default: dev
    outputs:
      version:
        value: ${{ jobs.build.outputs.version }}
jobs:
  build:
    runs-on: ubuntu-latest
  publish:
    runs-on: ubuntu-latest
    needs: build
"#,
    )
    .unwrap();
    let caller = caller_doc.jobs.get("call").unwrap();
    let called_entries: Vec<_> =
        (0..called_doc.jobs.len()).map(|i| local_job_entry("called.yml", called_doc.jobs.value_at(i))).collect();
    let defaults = workflow_call_input_defaults(&called_doc);
    assert_eq!(defaults.get("target"), Some(&"dev".to_owned()));
    let outputs = workflow_call_output_defs(&called_doc);
    assert_eq!(outputs.get("version"), Some(&"${{ jobs.build.outputs.version }}".to_owned()));
    let with = caller_with_inputs(caller);
    assert_eq!(with.as_ref().unwrap().get("target"), Some(&"prod".to_owned()));
    let (grafted, terminals) = graft_called_entries(caller, &with, &defaults, &outputs, &called_entries);
    assert_eq!(grafted[0].id, "call/build");
    assert_eq!(grafted[0].needs, vec!["setup".to_owned()]);
    assert_eq!(grafted[1].id, "call/publish");
    assert_eq!(grafted[1].needs, vec!["call/build".to_owned()]);
    assert_eq!(grafted[1].caller_job_id, Some("call".to_owned()));
    assert_eq!(terminals, vec!["call/publish".to_owned()]);

    let after = local_job_entry("caller.yml", caller_doc.jobs.get("after").unwrap());
    let mut callers = StrMap::new();
    callers.insert("call".to_owned(), terminals);
    let rewired = rewire_needs(&vec![after], &callers);
    assert_eq!(rewired[0].needs, vec!["call/publish".to_owned()]);

    assert_eq!(
        resolve_called_path("./.github/workflows/called.yml", "/repo", None).unwrap(),
        "/repo/./.github/workflows/called.yml"
    );
    assert_eq!(
        resolve_called_path("o/r/.github/workflows/x.yml@v1", "/repo", None).unwrap_err(),
        ReusableWorkflowError::RemoteNotResolved("o/r/.github/workflows/x.yml@v1".to_owned())
    );
    assert!(scan_remote_refs(&caller_doc).is_empty());
}

#[test]
fn call_chains_refuse_depth_and_cycles() {
    let mut visited = StrSet::new();
    assert!(enter_called_workflow("a.yml", "/r/a.yml", 0, &mut visited).is_ok());
    assert_eq!(
        enter_called_workflow("a.yml", "/r/a.yml", 1, &mut visited).unwrap_err(),
        ReusableWorkflowError::Cycle("/r/a.yml".to_owned())
    );
    assert_eq!(
        enter_called_workflow("deep.yml", "/r/deep.yml", 5, &mut visited).unwrap_err(),
        ReusableWorkflowError::DepthExceeded("deep.yml".to_owned())
    );
    visited.remove("/r/a.yml");
    assert!(enter_called_workflow("a.yml", "/r/a.yml", 4, &mut visited).is_ok());
}

#[test]
fn dtu_identifiers_and_tokens() {
    assert_eq!(mock_uuid(1), "00000000-0000-4000-8000-000000000001");
    assert_eq!(mock_uuid(0x1_0000_0000_00ff), "00000000-0000-4000-8000-0000000000ff");
    assert_eq!(base64_url(b"hello"), "aGVsbG8");
    assert_eq!(base64_url(&[0xfb, 0xff]), "-_8");
    assert_eq!(base64_url(b""), "");
    let token = create_mock_jwt("plan", "job");
    assert!(token.starts_with("eyJhbGciOiJIUzI1NiIsInR5cCI6IkpXVCJ9."));
    assert!(token.ends_with(".mock-signature"));
}

#[test]
fn dtu_dates() {
    assert_eq!(civil_from_days(0), (1970, 1, 1));
    assert_eq!(civil_from_days(19_723), (2024, 1, 1));
    assert_eq!(civil_from_days(-1), (1969, 12, 31));
    assert_eq!(unix_seconds_to_utc(86_399), (1970, 1, 1, 23, 59, 59));
    assert_eq!(iso_from_millis(1_709_251_200_123), "2024-03-01T00:00:00.123Z");
}

#[test]
fn dtu_log_lines_and_names() {
    assert_eq!(strip_runner_line_prefix("\u{feff}2024-01-01T00:00:00.0000000Z hello"), "hello");
    assert_eq!(strip_runner_line_prefix("plain line"), "plain line");
    assert!(is_runner_internal_line("[RUNNER 2024] INFO started"));
    assert!(!is_runner_internal_line("[RUNNER 2024] hello"));
    assert_eq!(sanitize_step_log_name("Run npm test!!"), "Run-npm-test");
    assert_eq!(sanitize_step_log_name("--a  b--"), "a-b");
    assert_eq!(sanitize_step_log_name(&"x".repeat(100)).len(), 80);
}

#[test]
fn dtu_requests_and_refs() {
    assert_eq!(status_text(404), "Not Found");
    assert_eq!(status_text(299), "OK");
    assert_eq!(find_header_end(b"GET / HTTP/1.1\r\nHost: x\r\n\r\nbody"), Some(23));
    assert_eq!(find_header_end(b"partial\r\n"), None);
    assert!(is_safe_git_revision("main~1"));
    assert!(!is_safe_git_revision("-rf"));
    assert!(!is_safe_git_revision("a;b"));
    assert_eq!(split_basehead("main...feature"), Some(("main".to_owned(), "feature".to_owned())));
    assert_eq!(split_basehead("a..b"), Some(("a".to_owned(), "b".to_owned())));
    assert_eq!(split_basehead("a...b...c"), None);
    assert_eq!(latest_block_ids("<Latest>b1</Latest><Latest>b2</Latest>"), vec!["b1".to_owned(), "b2".to_owned()]);
    assert_eq!(cache_id_from_archive_location("http://x/_apis/cache/42/"), Some(42));
    assert_eq!(cache_id_from_archive_location("http://x/none"), None);
}

#[test]
fn rejects_invalid_yaml() {
    let err = parse_workflow_str("bad.yml", "jobs: [").unwrap_err();

    assert!(matches!(err, WorkflowParseError::Yaml { .. }));
}
