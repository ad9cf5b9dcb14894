use local_ci::runner::pause::{normalize_step_condition, wrap_pause_on_failure_steps};
use local_ci::runner::runtime::{
    attempt_seed_id, combine_job_outcome, default_virtual_cache_patterns, job_network_name, JobResult, PausedSignal,
};
use local_ci::runner::types::DtuJobStep;
use local_ci::strmap::StrMap;
use local_ci::wave::{default_max_concurrent_jobs_from, insert_outcome, parse_mem_available_kb, WorkerPool};

#[test]
fn wraps_script_steps_with_pause_retry_loop() {
    let mut steps = vec![
        DtuJobStep {
            name: "Build's step".to_owned(),
            context_name: None,
            run: Some("echo build && exit 1".to_owned()),
            uses: None,
            condition: None,
            shell: None,
            working_directory: None,
            env: StrMap::new(),
            with: StrMap::new(),
        },
        DtuJobStep {
            name: "checkout".to_owned(),
            context_name: None,
            run: None,
            uses: Some("actions/checkout@v4".to_owned()),
            condition: None,
            shell: None,
            working_directory: None,
            env: StrMap::new(),
            with: StrMap::new(),
        },
    ];

    wrap_pause_on_failure_steps(&mut steps);

    let script = steps[0].run.as_ref().unwrap();
    assert!(script.contains("/tmp/local-ci-signals"));
    assert!(script.contains("__STEP_INDEX=1"));
    assert!(script.contains("__WORKDIR=\"${PWD:-}\""));
    assert!(script.contains("cd / && cd \"$__WORKDIR\""));
    assert!(script.contains("echo build && exit 1"));
    assert!(script.contains("Build'\\''s step"));
    assert_eq!(steps[1].run, None);
}

#[test]
fn parses_mem_available_from_proc_meminfo() {
    assert_eq!(parse_mem_available_kb("MemAvailable:    12345 kB\n"), Some(12345));
}

#[test]
fn job_limit_follows_cpus_and_memory() {
    assert_eq!(default_max_concurrent_jobs_from(8, None), 4);
    assert_eq!(default_max_concurrent_jobs_from(1, None), 1);
    assert_eq!(default_max_concurrent_jobs_from(16, Some(3 * 6 * 1024 * 1024 * 1024)), 3);
    assert_eq!(default_max_concurrent_jobs_from(16, Some(1024)), 1);
    assert_eq!(parse_mem_available_kb("MemTotal: 1 kB\nMemAvailable: x kB\nMemAvailable: 7 kB\n"), Some(7));
    assert_eq!(parse_mem_available_kb("MemTotal: 1 kB\n"), None);
}

#[test]
fn pool_never_runs_more_than_its_limit() {
    let mut pool = WorkerPool::new(2, 3);
    assert_eq!(pool.start_next(), Some(0));
    assert_eq!(pool.start_next(), Some(1));
    assert_eq!(pool.start_next(), None);
    pool.finish();
    assert_eq!(pool.start_next(), Some(2));
    assert_eq!(pool.start_next(), None);
    pool.finish();
    pool.finish();
    assert!(pool.is_done());
    let mut zero = WorkerPool::new(0, 1);
    assert_eq!(zero.max_jobs, 1);
    assert_eq!(zero.start_next(), Some(0));
}

#[test]
fn outcomes_stay_in_job_order() {
    let mut outcomes: Vec<(usize, &str)> = Vec::new();
    insert_outcome(&mut outcomes, 2, "c");
    insert_outcome(&mut outcomes, 0, "a");
    insert_outcome(&mut outcomes, 1, "b");
    insert_outcome(&mut outcomes, 1, "b2");
    assert_eq!(outcomes, vec![(0, "a"), (1, "b"), (1, "b2"), (2, "c")]);
}

#[test]
fn reads_paused_signals() {
    let signal = PausedSignal::from_content(" Build \n2\n x\n");
    assert_eq!(signal.step, Some("Build".to_owned()));
    assert_eq!(signal.attempt, Some(2));
    assert_eq!(signal.step_index, None);
    let empty = PausedSignal::from_content("");
    assert_eq!(empty, PausedSignal { step: None, attempt: None, step_index: None });
}

#[test]
fn job_outcomes_report_cleanup_failures() {
    let job = JobResult {
        name: "test".to_owned(),
        workflow: "ci.yml".to_owned(),
        succeeded: true,
        paused: false,
        duration_ms: 5,
        failed_step: None,
        debug_log_path: None,
        steps: vec![],
    };
    assert_eq!(combine_job_outcome(Ok(job.clone()), &vec![]), Ok(job.clone()));
    assert_eq!(
        combine_job_outcome(Ok(job), &vec!["a".to_owned(), "b".to_owned()]),
        Err("runner cleanup failed: a; b".to_owned())
    );
    assert_eq!(
        combine_job_outcome(Err("boom".to_owned()), &vec!["x".to_owned()]),
        Err("boom; cleanup also failed: x".to_owned())
    );
    assert_eq!(job_network_name("r1"), "local-ci-r1");
    assert_eq!(attempt_seed_id("job-1", 1), "job-1");
    assert_eq!(attempt_seed_id("job-1", 3), "job-1-retry-3");
    assert_eq!(default_virtual_cache_patterns(), vec!["pnpm", "npm", "yarn"]);
    assert_eq!(normalize_step_condition("${{ success() }}"), "success()");
}

use local_ci::runner::job_steps::{container_job_start, container_job_step, JobAction, JobOutcome};

/// Drives a container job against a fake runtime that records its calls; the job is never
/// paused and no restart is requested.
fn run_container_job(container: &str, services: &[&str], fail_start_runner: bool, calls: &mut Vec<String>) -> Result<(), String> {
    let network = format!("local-ci-{container}");
    let mut state = container_job_start();
    let mut outcome = JobOutcome::Nothing;
    loop {
        let (next, action) = container_job_step(container, services.len(), state, outcome);
        state = next;
        outcome = match action {
            JobAction::CreateNetwork(name) => {
                calls.push(format!("create-network {name}"));
                JobOutcome::Unit(Ok(()))
            }
            JobAction::StartService(i) => {
                calls.push(format!("start-service {} {network}", services[i]));
                JobOutcome::Unit(Ok(()))
            }
            JobAction::WaitHealthy(i) => {
                calls.push(format!("wait-service {}", services[i]));
                JobOutcome::Unit(Ok(()))
            }
            JobAction::StartRunner(name) => {
                calls.push(format!("start-runner {container} {name}"));
                JobOutcome::Unit(if fail_start_runner { Err("start runner failed".to_owned()) } else { Ok(()) })
            }
            JobAction::StreamLogs => JobOutcome::Unit(Ok(())),
            JobAction::WaitRunner => JobOutcome::Exit(Ok(true)),
            JobAction::CollectResult(_) => JobOutcome::Collected(Err("no logs here".to_owned())),
            JobAction::CheckPaused => JobOutcome::Flag(false),
            JobAction::RemoveRunner => {
                calls.push(format!("remove-runner {container}"));
                JobOutcome::Unit(Ok(()))
            }
            JobAction::RemoveService(i) => {
                calls.push(format!("remove-service {}", services[i]));
                JobOutcome::Unit(Ok(()))
            }
            JobAction::RemoveNetwork(name) => {
                calls.push(format!("remove-network {name}"));
                JobOutcome::Unit(Ok(()))
            }
            JobAction::CheckRestart => JobOutcome::Flag(false),
            JobAction::RemoveSignals => JobOutcome::Nothing,
            JobAction::Finish(result) => return result.map(|_| ()),
        };
    }
}

#[test]
fn failed_start_cleans_up_services_and_network() {
    let mut calls = Vec::new();

    let err = run_container_job("local-ci-1-j1", &["postgres"], true, &mut calls).unwrap_err();

    assert_eq!(err, "start runner failed");
    assert_eq!(
        calls,
        vec![
            "create-network local-ci-local-ci-1-j1",
            "start-service postgres local-ci-local-ci-1-j1",
            "wait-service postgres",
            "start-runner local-ci-1-j1 local-ci-local-ci-1-j1",
            "remove-service postgres",
            "remove-network local-ci-local-ci-1-j1",
        ]
    );
}

#[test]
fn a_started_runner_is_removed_before_services_in_reverse_order() {
    let mut calls = Vec::new();

    let err = run_container_job("job", &["db", "cache"], false, &mut calls).unwrap_err();

    assert_eq!(err, "no logs here");
    assert_eq!(
        calls[calls.len() - 4..].to_vec(),
        vec!["remove-runner job", "remove-service cache", "remove-service db", "remove-network local-ci-job"]
    );
}
