use local_ci::dtu::broker::{Dispatch, JobBroker};
use local_ci::dtu::github::{compare_response, compare_start, diff_line, invalid_ref_value, parse_name_status};
use local_ci::dtu::cache::{CacheEntry, CacheRegistry, PendingCache, ReserveDecision};
use local_ci::dtu::http::{body_framing, parse_request_head, split_target, url_decode, BodyFraming};
use local_ci::dtu::job_mapping::{job_request_body, map_job_step, map_uses_reference, JobRequestIds};
use local_ci::dtu::logs::{
    feed_line_to_string, filter_step_output_lines, is_user_step_record, payload_log_lines, step_log_mapping,
};
use local_ci::dtu::routes::{
    renewed_job_request, artifact_route, cache_route, github_route, runner_route, segment_id, ArtifactRoute, CacheRoute, GithubRoute,
    RunnerRoute,
};
use local_ci::events::{normalize_event_lines, normalize_event_value, normalized_events_to_value};
use local_ci::expr::hash::{hash_files_digest, hash_files_selection};
use local_ci::expr::template::{split_expression_template, TemplatePart};
use local_ci::dtu::actions::action_download_info;
use local_ci::dtu::chunked::{decode_chunked, ChunkedBody};
use local_ci::dtu::outputs::output_writes_of;
use local_ci::dtu::runner_api::{agent_created, log_created, session_created};
use local_ci::json::{request_payload, JsonInput, JsonValue};
use local_ci::runner::runtime::{
    registered_run_step, runner_registration, RegisteredRunAction, RegisteredRunEvent, StepResult, StepStatus,
};
use local_ci::runner::timeline::{
    build_job_result_from_logs, parse_timeline_job_failed, parse_timeline_steps, step_log_candidates,
    timeline_log_files,
};
use local_ci::runner::types::{DtuJobSeed, DtuJobStep, JobExecutionPlan};
use local_ci::state::normalize_run_result;
use local_ci::strmap::{StrMap, StrSet};

fn input(value: &serde_json::Value) -> JsonInput {
    match value {
        serde_json::Value::Null => JsonInput::Null,
        serde_json::Value::Bool(b) => JsonInput::Bool(*b),
        serde_json::Value::Number(n) => JsonInput::Number(n.to_string()),
        serde_json::Value::String(s) => JsonInput::Str(s.clone()),
        serde_json::Value::Array(items) => {
            JsonInput::Array(items.iter().map(input).collect(), serde_json::to_string(value).unwrap())
        }
        serde_json::Value::Object(entries) => JsonInput::Object(
            entries.iter().map(|(k, v)| (k.clone(), input(v))).collect(),
            serde_json::to_string(value).unwrap(),
        ),
    }
}

fn output(value: &JsonValue) -> serde_json::Value {
    match value {
        JsonValue::Null => serde_json::Value::Null,
        JsonValue::Bool(b) => serde_json::Value::Bool(*b),
        JsonValue::Number(t) => serde_json::from_str(t).unwrap(),
        JsonValue::Str(s) => serde_json::Value::String(s.clone()),
        JsonValue::Array(items) => serde_json::Value::Array(items.iter().map(output).collect()),
        JsonValue::Object(entries) => {
            let mut map = serde_json::Map::new();
            for (k, v) in entries {
                map.insert(k.clone(), output(v));
            }
            serde_json::Value::Object(map)
        }
    }
}

fn parse(text: &str) -> serde_json::Value {
    serde_json::from_str(text).unwrap()
}

fn strings(items: &[&str]) -> Vec<String> {
    items.iter().map(|s| s.to_string()).collect()
}

#[test]
fn normalizes_volatile_event_fields() {
    let text = r#"{"event":"run.start","ts":"now","runId":"run-1","schemaVersion":1}
{"event":"job.finish","ts":"later","job":"test","durationMs":42,"status":"passed"}"#;
    let events = normalize_event_lines(text);

    assert_eq!(
        output(&normalized_events_to_value(&events)),
        parse(
            r#"[
                {"event":"run.start","schemaVersion":1},
                {"event":"job.finish","job":"test","status":"passed"}
            ]"#
        )
    );
}

#[test]
fn lines_that_are_not_json_or_not_events_are_skipped() {
    let text = "not json\r\n{\"event\":\"a\",\"ts\":1,\"n\":[1, 2]}\r\n\n[1]\n{\"ts\":2}\n{\"event\":\"b\"}\n";
    let events = normalize_event_lines(text);
    assert_eq!(events.len(), 2);
    assert_eq!(events[0].event, "a");
    assert_eq!(events[0].fields.len(), 1);
    assert_eq!(events[0].fields[0].0, "n");
    assert_eq!(output(&normalized_events_to_value(&events)), parse(r#"[{"event":"a","n":[1,2]},{"event":"b"}]"#));
    assert!(normalize_event_lines("").is_empty());
}

#[test]
fn events_without_a_string_name_are_dropped() {
    assert!(normalize_event_value(&input(&parse(r#"{"ts":"now"}"#))).is_none());
    assert!(normalize_event_value(&input(&parse(r#"{"event":7}"#))).is_none());
    assert!(normalize_event_value(&input(&parse(r#"["event"]"#))).is_none());
    let event = normalize_event_value(&input(&parse(r#"{"event":"x","logPath":"/l","debugLogPath":"/d","k":1}"#))).unwrap();
    assert_eq!(event.event, "x");
    assert_eq!(event.fields.len(), 1);
    assert_eq!(event.fields[0].0, "k");
}

#[test]
fn normalizes_run_result_contract_fields() {
    let value = parse(
        r#"{
            "schemaVersion": 1,
            "repo": "owner/repo",
            "branch": "main",
            "worktreePath": "/tmp/repo",
            "headSha": "abc",
            "startedAt": "t0",
            "finishedAt": "t1",
            "status": "failed",
            "jobs": [{
                "name": "test",
                "workflow": "ci.yml",
                "status": "failed",
                "durationMs": 10,
                "failingStep": "Run tests",
                "debugLogPath": "/tmp/debug.log",
                "steps": [{"name":"Run tests","status":"failed","logPath":"/tmp/step.log"}]
            }]
        }"#,
    );

    assert_eq!(
        output(&normalize_run_result(&input(&value))),
        parse(
            r#"{
                "schemaVersion": 1,
                "repo": "owner/repo",
                "branch": "main",
                "status": "failed",
                "jobs": [{
                    "name": "test",
                    "workflow": "ci.yml",
                    "status": "failed",
                    "failingStep": "Run tests",
                    "steps": [{"name":"Run tests","status":"failed"}]
                }]
            }"#
        )
    );
}

#[test]
fn run_results_of_other_shapes_pass_through() {
    let value = parse(r#"{"jobs": "none", "headSha": "x"}"#);
    assert_eq!(output(&normalize_run_result(&input(&value))), parse(r#"{"jobs": "none"}"#));
    let value = parse(r#"[1, 2]"#);
    assert_eq!(output(&normalize_run_result(&input(&value))), value);
}

#[test]
fn parses_timeline_steps_into_result_entries() {
    let records = parse(
        r#"[
              {"name":"ci","type":"Job","result":"succeeded"},
              {"name":"Set up job","type":"Task","result":"succeeded"},
              {"name":"Run tests","type":"Task","result":"failed"},
              {"name":"Upload","type":"Task","result":"skipped"}
            ]"#,
    );
    let mut existing = StrSet::new();
    existing.insert("/tmp/timeline/steps/Run-tests.log".to_owned());

    let steps = parse_timeline_steps(&input(&records), Some("/tmp/timeline/steps"), &existing);

    assert_eq!(steps.len(), 3);
    assert_eq!(steps[0].status, StepStatus::Passed);
    assert_eq!(steps[1].status, StepStatus::Failed);
    assert_eq!(steps[1].log_path, Some("/tmp/timeline/steps/Run-tests.log".to_owned()));
    assert_eq!(steps[2].status, StepStatus::Skipped);
}

#[test]
fn timeline_candidates_and_failed_jobs() {
    let record = input(&parse(r#"{"name":"Run tests","type":"Task","id":"r-1","log":{"id":17}}"#));
    assert_eq!(step_log_candidates(&record, "Run tests"), strings(&["Run-tests", "r-1", "17"]));
    let records = input(&parse(r#"[{"name":"Run tests","type":"Task","id":"r-1"},{"type":"Job"}]"#));
    assert_eq!(timeline_log_files(&records, "/d/steps"), strings(&["/d/steps/Run-tests.log", "/d/steps/r-1.log"]));
    assert!(parse_timeline_job_failed(&input(&parse(r#"[{"Type":"Job","Result":"Failure"}]"#))));
    assert!(!parse_timeline_job_failed(&input(&parse(r#"[{"type":"Job","result":"succeeded"}]"#))));
    assert!(!parse_timeline_job_failed(&input(&parse(r#"{"type":"Job","result":"failed"}"#))));
}

fn plan() -> JobExecutionPlan {
    JobExecutionPlan {
        workflow: "ci.yml".to_owned(),
        job_id: "test".to_owned(),
        runner_name: "r".to_owned(),
        container_name: "c".to_owned(),
        image: "img".to_owned(),
        env: Vec::new(),
        binds: Vec::new(),
        extra_hosts: Vec::new(),
        command: Vec::new(),
        log_dir: "/logs/test".to_owned(),
        signals_dir: "/signals".to_owned(),
        services: Vec::new(),
        pause_on_failure: false,
    }
}

#[test]
fn job_results_name_the_first_failed_step() {
    let steps = vec![
        StepResult { name: "a".to_owned(), status: StepStatus::Passed, log_path: None },
        StepResult { name: "b".to_owned(), status: StepStatus::Failed, log_path: None },
        StepResult { name: "c".to_owned(), status: StepStatus::Failed, log_path: None },
    ];
    let result = build_job_result_from_logs(&plan(), true, 5, steps, false);
    assert!(!result.succeeded);
    assert_eq!(result.failed_step, Some("b".to_owned()));
    assert_eq!(result.debug_log_path, Some("/logs/test/debug.log".to_owned()));
    assert_eq!(result.duration_ms, 5);

    let result = build_job_result_from_logs(&plan(), true, 1, Vec::new(), true);
    assert!(!result.succeeded);
    assert_eq!(result.failed_step, Some("unknown".to_owned()));

    let result = build_job_result_from_logs(&plan(), true, 1, Vec::new(), false);
    assert!(result.succeeded);
    assert_eq!(result.failed_step, None);
}

fn seed() -> DtuJobSeed {
    DtuJobSeed {
        id: "job-1".to_owned(),
        runner_name: "local-ci-1-j1".to_owned(),
        name: "test".to_owned(),
        workflow_name: "ci".to_owned(),
        repo_root: "/tmp/seed-payload".to_owned(),
        github_repo: "owner/repo".to_owned(),
        head_sha: "HEAD".to_owned(),
        real_head_sha: "abc123".to_owned(),
        runner_work_dir: None,
        runner_os: None,
        runner_arch: None,
        env: StrMap::new(),
        outputs: StrMap::new(),
        needs_context: StrMap::new(),
        container: None,
        services: Vec::new(),
        matrix_context: None,
        steps: vec![DtuJobStep {
            name: "Run".to_owned(),
            context_name: None,
            run: Some("echo hi".to_owned()),
            uses: None,
            condition: None,
            shell: None,
            working_directory: None,
            env: StrMap::new(),
            with: StrMap::new(),
        }],
    }
}

#[test]
fn dtu_job_seed_payload_contains_targeted_runner_and_script_step() {
    let seed = seed();

    let payload = output(&seed.to_payload());

    assert_eq!(payload["id"], "job-1");
    assert_eq!(payload["runnerName"], "local-ci-1-j1");
    assert_eq!(payload["repository"]["full_name"], "owner/repo");
    assert_eq!(payload["steps"][0]["name"], "Run");
    assert_eq!(payload["steps"][0]["run"], "echo hi");
}

#[test]
fn step_payloads_carry_inputs_conditions_and_environment() {
    let mut env = StrMap::new();
    env.insert("A".to_owned(), "1".to_owned());
    let step = DtuJobStep {
        name: "Build".to_owned(),
        context_name: Some("build".to_owned()),
        run: Some("make".to_owned()),
        uses: None,
        condition: Some("${{ success() }}".to_owned()),
        shell: None,
        working_directory: Some("src".to_owned()),
        env,
        with: StrMap::new(),
    };
    let payload = output(&step.to_payload());
    assert_eq!(payload["ContextName"], "build");
    assert_eq!(payload["Inputs"]["script"], "make");
    assert_eq!(payload["Inputs"]["workingDirectory"], "src");
    assert_eq!(payload["condition"], "success()");
    assert_eq!(payload["Env"]["A"], "1");

    let mut with = StrMap::new();
    with.insert("node-version".to_owned(), "20".to_owned());
    let action = DtuJobStep {
        name: "Setup".to_owned(),
        context_name: None,
        run: None,
        uses: Some("actions/setup-node@v4".to_owned()),
        condition: None,
        shell: None,
        working_directory: None,
        env: StrMap::new(),
        with,
    };
    let payload = output(&action.to_payload());
    assert_eq!(payload["uses"], "actions/setup-node@v4");
    assert_eq!(payload["Inputs"]["node-version"], "20");
    assert!(payload.get("Env").is_none());
}

#[test]
fn job_steps_and_uses_references_map_to_runner_steps() {
    let step = input(&parse(r#"{"name":"Run","run":"echo hi"}"#));
    let mapped = output(&map_job_step(&step, 0, "http://dtu"));
    assert_eq!(mapped["name"], "Run");
    assert_eq!(mapped["displayName"], "Run");
    assert_eq!(mapped["condition"], "success()");
    let reference = output(&map_uses_reference("actions/checkout@v4"));
    assert_eq!(reference["name"], "actions/checkout");
    assert_eq!(reference["ref"], "v4");
    assert_eq!(reference["repositoryType"], "GitHub");
    let local = output(&map_uses_reference("./local-action"));
    assert_eq!(local["repositoryType"], "self");
    assert_eq!(local["path"], "./local-action");
}

#[test]
fn job_request_bodies_carry_plan_timeline_and_job() {
    let job_data = input(&parse(r#"{"name":"test","githubRepo":"owner/repo","steps":[{"name":"Run","run":"echo hi"}]}"#));
    let ids = JobRequestIds {
        plan_id: "p".to_owned(),
        timeline_id: "t".to_owned(),
        job_id: "j".to_owned(),
        scope_id: "s".to_owned(),
    };
    let body = output(&job_request_body("42", &job_data, "http://dtu", &ids));
    assert_eq!(body["MessageType"], "PipelineAgentJobRequest");
    assert_eq!(body["Plan"]["PlanId"], "p");
    assert_eq!(body["Timeline"]["Id"], "t");
    assert_eq!(body["JobId"], "j");
    assert_eq!(body["RequestId"], 42);
    assert_eq!(body["JobName"], "test");
    assert_eq!(body["Steps"][0]["name"], "Run");
}

#[test]
fn templates_split_into_text_and_expressions() {
    assert_eq!(
        split_expression_template("a ${{ x }} b"),
        vec![
            TemplatePart::Text("a ".to_owned()),
            TemplatePart::Expression(" x ".to_owned()),
            TemplatePart::Text(" b".to_owned()),
        ]
    );
    assert_eq!(
        split_expression_template("a ${{ x"),
        vec![TemplatePart::Text("a ".to_owned()), TemplatePart::Text("${{ x".to_owned())]
    );
    assert_eq!(split_expression_template("plain"), vec![TemplatePart::Text("plain".to_owned())]);
}

#[test]
fn hash_patterns_select_and_negate_files() {
    let files = strings(&["a.txt", "b.log", "dir/c.txt", "dir/d.txt"]);
    assert_eq!(
        hash_files_selection(&files, &strings(&["**/*.txt", "!dir/d.txt"])),
        strings(&["a.txt", "dir/c.txt"])
    );
    assert_eq!(hash_files_selection(&files, &strings(&["./b.log"])), strings(&["b.log"]));
    assert!(hash_files_selection(&files, &strings(&["[invalid"])).is_empty());
}

#[test]
fn hash_digests_are_zero_without_files() {
    assert_eq!(hash_files_digest(&Vec::new()), "0000000000000000000000000000000000000000");
    assert_eq!(
        hash_files_digest(&vec![Some(b"hel".to_vec()), None, Some(b"lo".to_vec())]),
        "2cf24dba5fb0a30e26e83b2ac5b9e29e1b161e5c1fa7425e73043362938b9824"
    );
}

#[test]
fn routes_runner_github_cache_and_artifact_requests() {
    let segs = |path: &str| path.split('/').filter(|s| !s.is_empty()).map(str::to_owned).collect::<Vec<_>>();
    assert_eq!(
        runner_route("GET", "/_apis/connectionData", &segs("/_apis/connectionData")),
        Some(RunnerRoute::ServiceDiscovery)
    );
    let p = "/_apis/distributedtask/pools/1/agents";
    assert_eq!(runner_route("POST", p, &segs(p)), Some(RunnerRoute::CreateAgent));
    let p = "/_apis/distributedtask/hubs/h/plans/p/timelines/t/records/r/feed";
    assert_eq!(runner_route("POST", p, &segs(p)), Some(RunnerRoute::TimelineFeed));
    assert_eq!(runner_route("PUT", p, &segs(p)), None);
    assert_eq!(github_route("GET", &segs("/repos/o/r/compare/a...b")), Some(GithubRoute::Compare));
    assert_eq!(github_route("POST", &segs("/actions/runner-registration")), Some(GithubRoute::RunnerRegistration));
    assert_eq!(cache_route("PATCH", "/_apis/artifactcache/caches/3", &segs("/_apis/artifactcache/caches/3")), Some(CacheRoute::Upload));
    let p = "/twirp/github.actions.results.api.v1.ArtifactService/ListArtifacts";
    assert_eq!(artifact_route("POST", p, &segs(p)), Some(ArtifactRoute::TwirpList));
    assert_eq!(segment_id("12"), 12);
    assert_eq!(segment_id("x"), u64::MAX);
}

#[test]
fn request_heads_parse_targets_and_headers() {
    let head = parse_request_head("POST /a/b?x=1&y=%41+b&z HTTP/1.1\r\nContent-Length: 5\r\nX-Thing :  v \r\nbad").unwrap();
    assert_eq!(head.method, "POST");
    assert_eq!(head.path, "/a/b");
    assert_eq!(head.query.get("x"), Some(&"1".to_owned()));
    assert_eq!(head.query.get("y"), Some(&"A b".to_owned()));
    assert_eq!(head.query.get("z"), Some(&"".to_owned()));
    assert_eq!(head.headers.get("x-thing"), Some(&"v".to_owned()));
    assert_eq!(body_framing(&head.headers), BodyFraming::Length(5));
    assert_eq!(parse_request_head("").unwrap_err(), "missing method");
    assert_eq!(parse_request_head("GET").unwrap_err(), "missing target");
    assert_eq!(url_decode("%zz"), None);
    assert_eq!(url_decode("%c3%a9"), Some("é".to_owned()));
    assert_eq!(url_decode("%ff"), None);
    let (path, query) = split_target("/only");
    assert_eq!(path, "/only");
    assert!(query.is_empty());
}

#[test]
fn step_output_lines_keep_text_and_collect_outputs() {
    let lines = strings(&[
        "2024-01-01T00:00:00.0000000Z hello",
        "##[group]Run x",
        "inside",
        "##[endgroup]",
        "::local-ci-output::key=value",
        "::local-ci-output::=ignored",
        "[command]/bin/sh",
        "",
        "bye   ",
    ]);
    let out = filter_step_output_lines(&lines);
    assert_eq!(out.content, "hello\n\nbye\n");
    assert_eq!(out.outputs, vec![("key".to_owned(), "value".to_owned())]);
}

#[test]
fn feed_payloads_and_step_log_mappings() {
    let payload = input(&parse(r#"{"value":["a",{"message":"b"},{"other":1},null]}"#));
    assert_eq!(payload_log_lines(&payload, false), strings(&["a", "b", r#"{"other":1}"#, "null"]));
    let bare = input(&parse(r#"["x"]"#));
    assert_eq!(payload_log_lines(&bare, true), strings(&["x"]));
    assert!(payload_log_lines(&bare, false).is_empty());
    assert_eq!(feed_line_to_string(&JsonInput::Bool(true)), Some("true".to_owned()));

    let record = input(&parse(
        r#"{"type":"Task","name":"Run tests","id":"r1","log":{"id":4},"parentId":"p","state":"InProgress"}"#,
    ));
    assert!(is_user_step_record(&record));
    let mapping = step_log_mapping(&record).unwrap();
    assert_eq!(mapping.sanitized, "Run-tests");
    assert_eq!(mapping.ids, strings(&["r1", "4", "p"]));
    assert!(mapping.in_progress);
    let setup = input(&parse(r#"{"type":"Task","name":"Set up job","id":"s","parentId":"p"}"#));
    assert_eq!(step_log_mapping(&setup).unwrap().ids, strings(&["s"]));
    assert!(step_log_mapping(&input(&parse(r#"{"type":"Job","name":"x"}"#))).is_none());
}

#[test]
fn workflow_paths_give_file_names_and_stems() {
    assert_eq!(local_ci::runner::plans::file_name_of(".github/workflows/ci.yml"), Some("ci.yml".to_owned()));
    assert_eq!(local_ci::runner::plans::file_stem_of(".github/workflows/ci.yml"), Some("ci".to_owned()));
    assert_eq!(local_ci::runner::plans::file_stem_of("dir/.hidden"), Some(".hidden".to_owned()));
    assert_eq!(local_ci::runner::plans::file_stem_of("a.b.c"), Some("a.b".to_owned()));
    assert_eq!(local_ci::runner::plans::file_name_of("foo.txt/."), Some("foo.txt".to_owned()));
    assert_eq!(local_ci::runner::plans::file_name_of("a/.."), None);
    assert_eq!(local_ci::runner::plans::file_name_of("/"), None);
}

#[test]
fn cache_round_trip_finds_committed_archive() {
    let mut registry = CacheRegistry::new(StrMap::new());
    registry.add_virtual_pattern("pnpm".to_owned());
    assert_eq!(registry.reserve_decision("pnpm-store-x", "v1"), ReserveDecision::Virtual);
    assert_eq!(registry.reserve_decision("deps", "v1"), ReserveDecision::Fresh);
    registry.add_pending(7, PendingCache { temp_path: "/c/temp_7.tar.gz".to_owned(), key: "deps".to_owned(), version: "v1".to_owned() });
    assert_eq!(registry.pending(7).map(|p| p.key.clone()), Some("deps".to_owned()));
    let pending = registry.take_pending(7).unwrap();
    assert!(registry.pending(7).is_none());
    registry.record_commit(
        pending.key.clone(),
        CacheEntry { version: pending.version.clone(), archive_location: "http://dtu/_apis/artifactcache/artifacts/7".to_owned(), size: 3 },
    );
    assert_eq!(registry.reserve_decision("deps", "v1"), ReserveDecision::Conflict);

    let hit = registry.lookup(Some(" other , deps "), "v1", "http://dtu", &vec![7]);
    assert_eq!(hit.hit, Some(("http://dtu/_apis/artifactcache/artifacts/7".to_owned(), "deps".to_owned())));
    assert!(!hit.pruned);

    let virtual_hit = registry.lookup(Some("pnpm-cache"), "v1", "http://dtu", &vec![]);
    assert_eq!(virtual_hit.hit, Some(("http://dtu/_apis/artifactcache/artifacts/0".to_owned(), "pnpm-cache".to_owned())));

    let wrong_version = registry.lookup(Some("deps"), "v2", "http://dtu", &vec![7]);
    assert_eq!(wrong_version.hit, None);

    let gone = registry.lookup(Some("deps"), "v1", "http://dtu", &vec![]);
    assert_eq!(gone.hit, None);
    assert!(gone.pruned);
    assert!(registry.caches().get("deps").is_none());
}

#[test]
fn name_status_output_lists_changed_files_with_github_statuses() {
    let output = "A\tsrc/new.rs\nM\tREADME.md\r\nD\told.txt\nR100\tfrom.rs\tto.rs\nT\tlink\nbroken\n";
    assert_eq!(
        parse_name_status(output),
        vec![
            ("src/new.rs".to_owned(), "added".to_owned()),
            ("README.md".to_owned(), "modified".to_owned()),
            ("old.txt".to_owned(), "removed".to_owned()),
            ("to.rs".to_owned(), "renamed".to_owned()),
            ("link".to_owned(), "modified".to_owned()),
        ]
    );
    assert_eq!(diff_line("R100\tonly-old"), None);
    assert!(parse_name_status("").is_empty());
}

#[test]
fn polls_hand_out_targeted_jobs_first_then_queued_jobs_by_id() {
    let mut broker: JobBroker<u32> = JobBroker::new();
    assert!(matches!(broker.poll(Some("s1")), Dispatch::NoSession));
    assert!(matches!(broker.poll(None), Dispatch::NoSession));
    broker.open_session("s1".to_owned(), "runner-a".to_owned());
    assert!(matches!(broker.poll(Some("s1")), Dispatch::NoJob));
    broker.seed("job-b".to_owned(), None, 2);
    broker.seed("job-a".to_owned(), None, 1);
    broker.seed("job-c".to_owned(), Some("runner-a".to_owned()), 3);
    assert_eq!(broker.queued_job("job-b"), Some(&2));
    match broker.poll(Some("s1")) {
        Dispatch::Job { job_id, job, runner } => {
            assert_eq!((job_id.as_str(), job, runner.as_str()), ("runner-a", 3, "runner-a"));
        }
        _ => panic!("expected the targeted job"),
    }
    match broker.poll(Some("s1")) {
        Dispatch::Job { job_id, job, runner } => {
            assert_eq!((job_id.as_str(), job, runner.as_str()), ("job-a", 1, "runner-a"));
        }
        _ => panic!("expected the least queued job"),
    }
    assert_eq!(broker.queued_job("job-a"), None);
    broker.close_session("s1");
    assert!(matches!(broker.poll(Some("s1")), Dispatch::NoSession));
    assert_eq!(broker.queued_job("job-b"), Some(&2));
}

#[test]
fn renewals_lock_running_job_requests_until_the_given_time() {
    let t = "2024-01-01T00:01:00.000Z";
    assert_eq!(
        output(&renewed_job_request(&input(&parse(r#"{"requestId":7}"#)), t)),
        parse(r#"{"requestId":7,"lockedUntil":"2024-01-01T00:01:00.000Z"}"#)
    );
    assert_eq!(
        output(&renewed_job_request(&input(&parse(r#"{"requestId":7,"result":"succeeded"}"#)), t)),
        parse(r#"{"requestId":7,"result":"succeeded"}"#)
    );
    assert_eq!(
        output(&renewed_job_request(&input(&parse(r#"{"finishTime":"x"}"#)), t)),
        parse(r#"{"finishTime":"x"}"#)
    );
    assert_eq!(output(&renewed_job_request(&JsonInput::Null, t)), parse(r#"{"lockedUntil":"2024-01-01T00:01:00.000Z"}"#));
}

#[test]
fn action_download_info_pins_each_remote_action() {
    let body = br#"{"actions":[
        {"nameWithOwner":"actions/checkout","ref":"v4"},
        {"nameWithOwner":"./local","ref":"main"},
        {"nameWithOwner":"o/r/sub","ref":"main"},
        {"nameWithOwner":"single","ref":"main"},
        {"nameWithOwner":"a/b"}
    ]}"#;
    let payload = request_payload(body);
    let answer = output(&action_download_info(&payload, "http://dtu:8080"));
    assert_eq!(
        answer,
        parse(
            r#"{"actions":{
                "actions/checkout@v4":{"nameWithOwner":"actions/checkout","resolvedNameWithOwner":"actions/checkout",
                    "ref":"v4","resolvedSha":"fc789d81e0d1cf00352f24ef1e99325e0e91a1ba",
                    "tarballUrl":"http://dtu:8080/_dtu/action-tarball/actions/checkout/v4",
                    "zipballUrl":"http://dtu:8080/_dtu/action-tarball/actions/checkout/v4","authentication":null},
                "o/r/sub@main":{"nameWithOwner":"o/r/sub","resolvedNameWithOwner":"o/r/sub",
                    "ref":"main","resolvedSha":"3d4579b44542b1ed0ba691db5b16c7580dff0d1a",
                    "tarballUrl":"http://dtu:8080/_dtu/action-tarball/o/r/main",
                    "zipballUrl":"http://dtu:8080/_dtu/action-tarball/o/r/main","authentication":null}
            }}"#
        )
    );
    assert_eq!(output(&action_download_info(&request_payload(b"not json"), "x")), parse(r#"{"actions":{}}"#));
}

#[test]
fn request_bodies_that_are_not_json_read_as_null() {
    assert_eq!(request_payload(b"{oops"), JsonInput::Null);
    assert_eq!(request_payload(b""), JsonInput::Null);
    assert_eq!(output(&request_payload(br#"{"a":[1,"x"]}"#).to_output()), parse(r#"{"a":[1,"x"]}"#));
}

#[test]
fn compare_requests_are_refused_or_answered_early() {
    let (status, body) = compare_start("main", true).unwrap_err();
    assert_eq!((status, output(&body)), (422, parse(r#"{"message":"Invalid basehead format"}"#)));
    let (status, body) = compare_start("a...b", false).unwrap_err();
    assert_eq!(
        (status, output(&body)),
        (200, parse(r#"{"status":"identical","files":[],"total_commits":0,"commits":[]}"#))
    );
    let (status, body) = compare_start("HEAD~1...HEAD;touch${IFS}marker;", true).unwrap_err();
    assert_eq!((status, output(&body)), (422, parse(r#"{"message":"Invalid basehead ref"}"#)));
    let (status, body) = compare_start("-x...b", true).unwrap_err();
    assert_eq!((status, output(&body)), (422, parse(r#"{"message":"Invalid basehead ref"}"#)));
    assert_eq!(output(&invalid_ref_value()), parse(r#"{"message":"Invalid basehead ref"}"#));
    assert_eq!(compare_start("main...feature", true).unwrap(), ("main".to_owned(), "feature".to_owned()));
    assert_eq!(compare_start("v1..v2", true).unwrap(), ("v1".to_owned(), "v2".to_owned()));
}

#[test]
fn compare_responses_list_changed_files() {
    let answer = output(&compare_response(Some("A\tnew.txt\nR100\told.txt\trenamed.txt\nM\tsrc/lib.rs\n".to_owned())));
    assert_eq!(
        answer,
        parse(
            r#"{"status":"ahead","total_commits":1,"commits":[],"files":[
                {"sha":"0000000000000000000000000000000000000000","filename":"new.txt","status":"added","additions":0,"deletions":0,"changes":0},
                {"sha":"0000000000000000000000000000000000000000","filename":"renamed.txt","status":"renamed","additions":0,"deletions":0,"changes":0},
                {"sha":"0000000000000000000000000000000000000000","filename":"src/lib.rs","status":"modified","additions":0,"deletions":0,"changes":0}
            ]}"#
        )
    );
    assert_eq!(
        output(&compare_response(None)),
        parse(r#"{"status":"identical","total_commits":1,"commits":[],"files":[]}"#)
    );
    assert_eq!(output(&compare_response(Some(String::new()))), output(&compare_response(None)));
}

#[test]
fn chunked_bodies_decode_or_ask_for_more() {
    let full = b"4\r\nWiki\r\n5;ext=1\r\npedia\r\n0\r\n\r\n";
    assert_eq!(decode_chunked(full), ChunkedBody::Done(b"Wikipedia".to_vec()));
    assert_eq!(decode_chunked(b"A\r\n0123456789\r\n+0\r\n"), ChunkedBody::Done(b"0123456789".to_vec()));
    assert_eq!(decode_chunked(b""), ChunkedBody::NeedSize);
    assert_eq!(decode_chunked(b"4\r\nWi"), ChunkedBody::NeedBody);
    assert_eq!(decode_chunked(b"4\r\nWiki\r"), ChunkedBody::NeedBody);
    assert_eq!(decode_chunked(b"4\r\nWiki\r\n5"), ChunkedBody::NeedSize);
    assert_eq!(decode_chunked(b"zz\r\n"), ChunkedBody::Invalid("invalid chunk size: zz".to_owned()));
    assert_eq!(decode_chunked(b"\r\n"), ChunkedBody::Invalid("invalid chunk size: ".to_owned()));
    assert_eq!(
        decode_chunked(b"ffffffffffffffffff\r\n"),
        ChunkedBody::Invalid("invalid chunk size: ffffffffffffffffff".to_owned())
    );
    assert_eq!(decode_chunked(b"2\r\nabXY"), ChunkedBody::Invalid("chunk body missing trailing CRLF".to_owned()));
    match decode_chunked(b"\xff\r\n") {
        ChunkedBody::Invalid(message) => assert!(message.contains("utf-8"), "{message}"),
        other => panic!("expected an invalid encoding, got {other:?}"),
    }
}

#[test]
fn runner_api_records_use_the_payload_or_defaults() {
    let payload = request_payload(br#"{"name":"r1","version":"2.400.0"}"#);
    let agent = output(&agent_created(&payload, 7, 8, "http://dtu", "1"));
    assert_eq!(
        agent,
        parse(
            r#"{"id":7,"name":"r1","version":"2.400.0","osDescription":"Linux","ephemeral":true,"disableUpdate":true,
                "enabled":true,"status":"online","provisioningState":"Provisioned",
                "authorization":{"clientId":"mock-client-8","authorizationUrl":"http://dtu/auth/authorize"},
                "accessPoint":"http://dtu/_apis/distributedtask/pools/1/agents/7"}"#
        )
    );
    let (owner, session) = session_created(&request_payload(br#"{"agent":{"name":"mac-1"}}"#), "s-1");
    assert_eq!(owner, "mac-1");
    assert_eq!(
        output(&session),
        parse(
            r#"{"sessionId":"s-1","ownerName":"mac-1",
                "agent":{"id":1,"name":"mac-1","version":"2.331.0","osDescription":"Linux","enabled":true,"status":"online"},
                "encryptionKey":{"value":"AAAAAAAAAAAAAAAAAAAAAAAAAAAAAAAAAAAAAAAAAAA=","k":"encryptionKey"}}"#
        )
    );
    let (owner, _) = session_created(&request_payload(b"[]"), "s-2");
    assert_eq!(owner, "local-ci-runner");
    assert_eq!(
        output(&log_created(12, "2024-01-01T00:00:00.000Z", "http://dtu", "h", "p")),
        parse(
            r#"{"id":12,"path":"logs/12","createdOn":"2024-01-01T00:00:00.000Z",
                "location":"http://dtu/_apis/distributedtask/hubs/h/plans/p/logs/12"}"#
        )
    );
}

#[test]
fn a_runner_registers_with_its_log_directory_and_the_virtual_caches() {
    let registration = runner_registration(&plan());
    assert_eq!(registration.runner_name, "r");
    assert_eq!(registration.log_dir, "/logs/test");
    assert_eq!(registration.timeline_dir, "/logs/test");
    assert_eq!(registration.virtual_cache_patterns, vec!["pnpm".to_owned(), "npm".to_owned(), "yarn".to_owned()]);
}

#[test]
fn output_reports_write_flattened_and_plain_keys() {
    let payload = request_payload(br#"{"build":{"value":"ok"},"deploy":{"url":{"value":"https://x"},"region":"eu"},"count":3}"#);
    let writes: Vec<(String, serde_json::Value)> =
        output_writes_of("", &payload).iter().map(|(k, v)| (k.clone(), output(v))).collect();
    assert_eq!(
        writes,
        vec![
            ("build".to_owned(), parse(r#""ok""#)),
            ("build".to_owned(), parse(r#""ok""#)),
            ("count".to_owned(), parse("3")),
            ("count".to_owned(), parse("3")),
            ("deploy.region".to_owned(), parse(r#""eu""#)),
            ("region".to_owned(), parse(r#""eu""#)),
            ("deploy.url".to_owned(), parse(r#""https://x""#)),
            ("url".to_owned(), parse(r#""https://x""#)),
        ]
    );
    assert!(output_writes_of("", &request_payload(b"[1]")).is_empty());
}

#[test]
fn a_registered_run_retries_under_a_new_seed_id_while_restarts_are_requested() {
    let plan = plan();
    let (attempt, action) = registered_run_step(&plan, "job-1", 1, RegisteredRunEvent::Start);
    assert_eq!(attempt, 1);
    match action {
        RegisteredRunAction::Attempt { clear_restart, registration, seed_id } => {
            assert!(!clear_restart);
            assert_eq!(seed_id, "job-1");
            assert_eq!(registration.runner_name, "r");
        }
        other => panic!("expected an attempt, got {other:?}"),
    }
    let (attempt, action) = registered_run_step(&plan, "job-1", attempt, RegisteredRunEvent::Ran);
    assert!(matches!(action, RegisteredRunAction::CheckRestart));
    let (attempt, action) = registered_run_step(&plan, "job-1", attempt, RegisteredRunEvent::Restart(true));
    assert_eq!(attempt, 2);
    match action {
        RegisteredRunAction::Attempt { clear_restart, seed_id, .. } => {
            assert!(clear_restart);
            assert_eq!(seed_id, "job-1-retry-2");
        }
        other => panic!("expected an attempt, got {other:?}"),
    }
    let (attempt, action) = registered_run_step(&plan, "job-1", attempt, RegisteredRunEvent::Restart(false));
    assert_eq!(attempt, 2);
    assert!(matches!(action, RegisteredRunAction::Finish));
}
