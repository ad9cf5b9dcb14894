use local_ci::dtu::{generate_control_token, hex_encode, parse_http_base_url, DtuHttpClient};
use local_ci::state::{build_run_result_json, JobResultInput, JobResultStatus, RunResultInput, StepResultInput, StepResultStatus};
use local_ci::strmap::{StrMap, StrSet};
use local_ci::workflow::{glob_matches, is_workflow_relevant, WorkflowEventFilters, WorkflowParseError};

fn filters(branches: Option<&[&str]>, paths: Option<&[&str]>, paths_ignore: Option<&[&str]>) -> WorkflowEventFilters {
    let list = |v: Option<&[&str]>| v.map(|items| items.iter().map(|s| (*s).to_owned()).collect());
    WorkflowEventFilters { branches: list(branches), branches_ignore: None, paths: list(paths), paths_ignore: list(paths_ignore) }
}

#[test]
fn relevance_from_filters_built_by_hand() {
    let mut events = StrMap::new();
    events.insert("push".to_owned(), filters(Some(&["main"]), Some(&["src/**"]), None));
    assert!(is_workflow_relevant(&events, "main", &vec!["src/lib.rs".to_owned()]));
    assert!(!is_workflow_relevant(&events, "main", &vec!["docs/a.md".to_owned()]));
    assert!(!is_workflow_relevant(&events, "feature", &vec![]));
    let none: StrMap<WorkflowEventFilters> = StrMap::new();
    assert!(!is_workflow_relevant(&none, "main", &vec![]));
}

#[test]
fn invalid_globs_fall_back_to_equality() {
    assert!(glob_matches("src/**", "src/a/b.rs"));
    assert!(!glob_matches("src/*.rs", "lib/a.rs"));
    assert!(glob_matches("a{b", "a{b"));
    assert!(!glob_matches("a{b", "ab"));
    assert_eq!(
        WorkflowParseError::Shape { path: "w.yml".to_owned(), message: "bad".to_owned() }.message(),
        "invalid workflow w.yml: bad"
    );
}

#[test]
fn run_result_keeps_existing_paths_only() {
    let input = RunResultInput {
        repo: "owner/repo".to_owned(),
        branch: "main".to_owned(),
        worktree_path: "work".to_owned(),
        head_sha: "abc".to_owned(),
        started_at: "t0".to_owned(),
        finished_at: "t1".to_owned(),
        results: vec![
            JobResultInput {
                name: "test".to_owned(),
                workflow: "ci.yml".to_owned(),
                succeeded: true,
                duration_ms: 10,
                failing_step: None,
                debug_log_path: Some("/logs/debug.log".to_owned()),
                steps: vec![StepResultInput {
                    name: "run".to_owned(),
                    status: StepResultStatus::Passed,
                    log_path: Some("/logs/missing.log".to_owned()),
                }],
            },
            JobResultInput {
                name: "lint".to_owned(),
                workflow: "ci.yml".to_owned(),
                succeeded: false,
                duration_ms: 3,
                failing_step: Some("eslint".to_owned()),
                debug_log_path: None,
                steps: vec![],
            },
        ],
    };
    let mut existing = StrSet::new();
    existing.insert("/logs/debug.log".to_owned());

    let file = build_run_result_json(&input, &existing, "/home/me");

    assert_eq!(file.schema_version, 1);
    assert_eq!(file.worktree_path, "/home/me/work");
    assert_eq!(file.status, JobResultStatus::Failed);
    assert_eq!(file.jobs[0].status, JobResultStatus::Passed);
    assert_eq!(file.jobs[0].debug_log_path, Some("/logs/debug.log".to_owned()));
    assert_eq!(file.jobs[0].steps.as_ref().unwrap()[0].log_path, None);
    assert!(file.jobs[1].steps.is_none());
    assert_eq!(file.jobs[1].failing_step, Some("eslint".to_owned()));
}

#[test]
fn dtu_clients_and_addresses() {
    let client = DtuHttpClient::with_control_token("http://127.0.0.1:8080//", "secret");
    assert_eq!(client.base_url(), "http://127.0.0.1:8080");
    assert_eq!(client.control_token(), Some("secret"));
    assert_eq!(DtuHttpClient::new("http://h:1").control_token(), None);
    assert_eq!(parse_http_base_url("http://127.0.0.1:8080/x"), Ok(("127.0.0.1".to_owned(), 8080)));
    assert_eq!(parse_http_base_url("https://h:1"), Err("DTU URL must start with http://, got https://h:1".to_owned()));
    assert_eq!(parse_http_base_url("http://h"), Err("DTU URL must include a port, got http://h".to_owned()));
    assert_eq!(parse_http_base_url("http://h:70000"), Err("DTU URL has an invalid port, got http://h:70000".to_owned()));
    assert_eq!(hex_encode(&vec![0, 15, 171]), "000fab");
    let token = generate_control_token().unwrap();
    assert_eq!(token.len(), 64);
}
