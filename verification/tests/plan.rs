use local_ci::expr::{resolve_context_ref, resolve_needs_ref, split_top_level, uses_status_check_function, ExpressionContext};
use local_ci::plan::{
    aggregate_matrix_status, aggregate_need_result, contains_status_check_function, decide_from_condition,
    execution_route_for_job, expression_context_for_job, extract_static_step_outputs, format_runs_on,
    needs_context_for_job, needs_context_for_job_with_jobs, normalize_job_if, parse_github_output_echo,
    resolve_job_outputs, resolve_step_output_template, schedule_job_waves, schedule_key, try_schedule_job_waves,
    HostCapability, JobExecutionRoute, JobResultStatus, JobRunDecision, NeedContext, PlannedJob, PlannedJobTarget,
    PlannedStep,
};
use local_ci::expr::eval::{EvalFacts, EvalQuery, NumberRelation};
use local_ci::strmap::StrMap;
use local_ci::workflow::RunsOn;

fn map(entries: &[(&str, &str)]) -> StrMap<String> {
    let mut m = StrMap::new();
    for (k, v) in entries {
        m.insert((*k).to_owned(), (*v).to_owned());
    }
    m
}

fn planned_job(id: &str, needs: &[&str], if_condition: Option<&str>) -> PlannedJob {
    PlannedJob {
        id: id.to_owned(),
        source_job_id: id.to_owned(),
        display_name: id.to_owned(),
        runner_name: id.to_owned(),
        target: PlannedJobTarget::Linux { runs_on: "ubuntu-latest".to_owned() },
        needs: needs.iter().map(|need| (*need).to_owned()).collect(),
        if_condition: if_condition.map(ToOwned::to_owned),
        env: StrMap::new(),
        inputs: StrMap::new(),
        outputs: StrMap::new(),
        workflow_call_output_defs: StrMap::new(),
        caller_job_id: None,
        services: Vec::new(),
        container: None,
        steps: vec![PlannedStep {
            id: None,
            name: "run".to_owned(),
            index: 1,
            run: Some("echo hi".to_owned()),
            uses: None,
            if_condition: None,
            shell: None,
            working_directory: None,
            env: StrMap::new(),
            with: StrMap::new(),
        }],
        step_count: 1,
        matrix_context: None,
    }
}

fn matrix_job(id: &str, runner_name: &str, axis: &str) -> PlannedJob {
    let mut job = planned_job(id, &[], None);
    job.runner_name = runner_name.to_owned();
    job.matrix_context = Some(map(&[("axis", axis)]));
    job
}

#[test]
fn routes_macos_runs_on_to_macos_target() {
    let job = PlannedJob {
        target: PlannedJobTarget::MacOs { runs_on: "macos-14".to_owned() },
        ..planned_job("mac", &[], None)
    };

    assert_eq!(execution_route_for_job(&job, &HostCapability::Supported), JobExecutionRoute::MacOs);
    let unsupported = HostCapability::Unsupported {
        reason: "macOS VM runner requires `tart` to be installed.".to_owned(),
        hint: Some("Install with: brew install cirruslabs/cli/tart".to_owned()),
    };
    assert_eq!(
        execution_route_for_job(&job, &unsupported),
        JobExecutionRoute::Skip {
            reason: "macos-14: macOS VM runner requires `tart` to be installed. Install with: brew install cirruslabs/cli/tart"
                .to_owned()
        }
    );
}

#[test]
fn schedule_expanded_matrix_jobs_before_dependents() {
    let mut matrix_job_1 = planned_job("test", &[], None);
    matrix_job_1.runner_name = "local-ci-1-j1-m1".to_owned();
    matrix_job_1.matrix_context = Some(map(&[("node", "20")]));
    let mut matrix_job_2 = matrix_job_1.clone();
    matrix_job_2.runner_name = "local-ci-1-j1-m2".to_owned();
    matrix_job_2.matrix_context = Some(map(&[("node", "22")]));
    let deploy = planned_job("deploy", &["test"], None);

    assert_eq!(
        schedule_job_waves(&vec![matrix_job_1, matrix_job_2, deploy]),
        vec![vec!["local-ci-1-j1-m1", "local-ci-1-j1-m2"], vec!["deploy"]]
    );
}

#[test]
fn cyclic_needs_return_planning_error() {
    let a = planned_job("a", &["b"], None);
    let b = planned_job("b", &["a"], None);

    let err = try_schedule_job_waves(&vec![a, b]).unwrap_err();

    assert!(err.contains("cyclic job dependencies"));
    assert!(err.contains("a"));
    assert!(err.contains("b"));
}

#[test]
fn aggregates_matrix_status_for_logical_needs() {
    assert_eq!(aggregate_matrix_status(&[JobResultStatus::Success, JobResultStatus::Success]), JobResultStatus::Success);
    assert_eq!(aggregate_matrix_status(&[JobResultStatus::Success, JobResultStatus::Failure]), JobResultStatus::Failure);
    assert_eq!(aggregate_matrix_status(&[JobResultStatus::Success, JobResultStatus::Skipped]), JobResultStatus::Skipped);
    assert_eq!(aggregate_matrix_status(&[JobResultStatus::Skipped, JobResultStatus::Skipped]), JobResultStatus::Skipped);
}

#[test]
fn matrix_needs_context_uses_logical_aggregate_and_schedule_keyed_outputs() {
    let leg_1 = matrix_job("test", "local-ci-1-j1-m1", "a");
    let leg_2 = matrix_job("test", "local-ci-1-j1-m2", "b");
    let deploy = planned_job("deploy", &["test"], Some("${{ always() }}"));
    let jobs = vec![leg_1, leg_2, deploy.clone()];
    let mut results = StrMap::new();
    results.insert("local-ci-1-j1-m1".to_owned(), JobResultStatus::Success);
    results.insert("local-ci-1-j1-m2".to_owned(), JobResultStatus::Skipped);
    let mut outputs = StrMap::new();
    outputs.insert("local-ci-1-j1-m1".to_owned(), map(&[("leg", "one")]));
    outputs.insert("local-ci-1-j1-m2".to_owned(), map(&[("other", "two")]));

    let context = needs_context_for_job_with_jobs(&deploy, &jobs, &results, &outputs);

    let test = context.get("test").unwrap();
    assert_eq!(test.result, "skipped");
    assert_eq!(test.outputs.get("leg").unwrap(), "one");
    assert_eq!(test.outputs.get("other").unwrap(), "two");
}

#[test]
fn detects_status_check_functions_without_matching_strings() {
    assert!(uses_status_check_function("failure() || needs.build.result == 'success'"));
    assert!(uses_status_check_function("contains(fromJSON('[1]'), success())"));
    assert!(!uses_status_check_function("contains('failure()', 'failure')"));
    assert!(!uses_status_check_function("steps.success.outputs.value == 'ok'"));
}

#[test]
fn a_dependent_runs_only_in_a_later_wave() {
    let build = planned_job("build", &[], None);
    let test = planned_job("test", &["build"], None);
    let lint = planned_job("lint", &[], None);
    let deploy = planned_job("deploy", &["test", "lint"], None);
    assert_eq!(
        schedule_job_waves(&vec![deploy, test, build, lint]),
        vec![vec!["build", "lint"], vec!["test"], vec!["deploy"]]
    );
}

#[test]
fn a_need_that_names_no_job_is_reported_as_cyclic() {
    let job = planned_job("deploy", &["missing"], None);
    assert_eq!(try_schedule_job_waves(&vec![job]), Err("cyclic job dependencies: deploy".to_owned()));
}

#[test]
fn failing_leg_fails_the_logical_job() {
    let leg_1 = matrix_job("test", "m1", "a");
    let leg_2 = matrix_job("test", "m2", "b");
    let jobs = vec![leg_1, leg_2];
    let mut results = StrMap::new();
    results.insert("m1".to_owned(), JobResultStatus::Failure);
    results.insert("m2".to_owned(), JobResultStatus::Success);
    assert_eq!(aggregate_need_result("test", &jobs, &results), JobResultStatus::Failure);
    assert_eq!(aggregate_need_result("other", &jobs, &results), JobResultStatus::Skipped);
    assert_eq!(aggregate_matrix_status(&[]), JobResultStatus::Skipped);
    assert_eq!(aggregate_matrix_status(&[JobResultStatus::Cancelled, JobResultStatus::Skipped]), JobResultStatus::Cancelled);
    assert_eq!(JobResultStatus::Cancelled.as_github_result(), "cancelled");
}

#[test]
fn schedule_keys_use_runner_names_for_matrix_legs() {
    assert_eq!(schedule_key(&matrix_job("test", "local-ci-1-j1-m2", "a")), "local-ci-1-j1-m2");
    assert_eq!(schedule_key(&planned_job("lint", &[], None)), "lint");
}

#[test]
fn single_job_needs_context_reads_its_own_id() {
    let deploy = planned_job("deploy", &["build"], None);
    let mut results = StrMap::new();
    results.insert("build".to_owned(), JobResultStatus::Failure);
    let mut outputs = StrMap::new();
    outputs.insert("build".to_owned(), map(&[("version", "1.2")]));
    let context = needs_context_for_job(&deploy, &results, &outputs);
    let build = context.get("build").unwrap();
    assert_eq!(build.result, "failure");
    assert_eq!(build.outputs.get("version").unwrap(), "1.2");
}

#[test]
fn job_decisions_follow_status_functions() {
    assert_eq!(decide_from_condition(true, None, false, false), JobRunDecision::Run);
    assert_eq!(
        decide_from_condition(false, None, false, false),
        JobRunDecision::Skip { reason: "one or more needed jobs did not succeed".to_owned() }
    );
    assert_eq!(decide_from_condition(false, Some("always()"), true, true), JobRunDecision::Run);
    assert_eq!(
        decide_from_condition(false, Some("github.ref == 'main'"), false, true),
        JobRunDecision::Skip { reason: "job condition evaluated to false: github.ref == 'main'".to_owned() }
    );
    assert!(contains_status_check_function("!success()"));
    assert!(!contains_status_check_function("'always()'"));
}

#[test]
fn normalizes_job_conditions() {
    assert_eq!(normalize_job_if("  ${{ always() }} "), "always()");
    assert_eq!(normalize_job_if("success()"), "success()");
    assert_eq!(normalize_job_if("${{ x"), "${{ x");
}

#[test]
fn reads_echoed_step_outputs() {
    assert_eq!(
        parse_github_output_echo("  echo \"version=1.2.3\" >> $GITHUB_OUTPUT"),
        Some(("version".to_owned(), "1.2.3".to_owned()))
    );
    assert_eq!(
        parse_github_output_echo("echo -e 'a = b=c' >> \"$GITHUB_OUTPUT\""),
        Some(("a".to_owned(), " b=c".to_owned()))
    );
    assert_eq!(parse_github_output_echo("echo version=1 >> out.txt"), None);
    assert_eq!(parse_github_output_echo("printf x=1 >> $GITHUB_OUTPUT"), None);
    assert_eq!(parse_github_output_echo("echo =1 >> $GITHUB_OUTPUT"), None);

    let mut job = planned_job("build", &[], None);
    job.steps[0].run = Some("echo a=1 >> $GITHUB_OUTPUT\necho b=2 >> $GITHUB_OUTPUT\necho a=3 >> $GITHUB_OUTPUT".to_owned());
    let outputs = extract_static_step_outputs(&job);
    assert_eq!(outputs.get("a").unwrap(), "3");
    assert_eq!(outputs.get("b").unwrap(), "2");
}

#[test]
fn resolves_output_templates() {
    let steps = map(&[("version", "1.2.3")]);
    assert_eq!(resolve_step_output_template("v${{ steps.meta.outputs.version }}!", &steps), "v1.2.3!");
    assert_eq!(resolve_step_output_template("${{ github.sha }}x", &steps), "x");
    assert_eq!(resolve_step_output_template("a ${{ unclosed", &steps), "a ${{ unclosed");
    let defs = map(&[("ver", "${{ steps.meta.outputs.version }}"), ("none", "plain")]);
    let resolved = resolve_job_outputs(&defs, &steps);
    assert_eq!(resolved.get("ver").unwrap(), "1.2.3");
    assert_eq!(resolved.get("none").unwrap(), "plain");
}

#[test]
fn formats_runs_on_labels() {
    assert_eq!(format_runs_on(&RunsOn::Labels(vec!["self-hosted".to_owned(), "linux".to_owned()])), "self-hosted, linux");
    assert_eq!(format_runs_on(&RunsOn::Single("ubuntu-latest".to_owned())), "ubuntu-latest");
}

#[test]
fn job_expression_context_exposes_needs_and_runner() {
    let mut job = planned_job("deploy", &["build"], None);
    job.target = PlannedJobTarget::MacOs { runs_on: "macos-14".to_owned() };
    let mut needs = StrMap::new();
    needs.insert("build".to_owned(), NeedContext { result: "success".to_owned(), outputs: map(&[("v", "1")]) });
    let context = expression_context_for_job(&job, &needs, "/repo");
    assert_eq!(context.runner.os, "macOS");
    assert_eq!(context.repo_path, Some("/repo".to_owned()));
    assert_eq!(resolve_needs_ref("needs.build.outputs.v", &context.needs), "1");
    assert_eq!(resolve_needs_ref("needs.build.result", &context.needs), "success");
    assert_eq!(resolve_needs_ref("needs.other.result", &context.needs), "");
    assert_eq!(resolve_context_ref("runner.arch", &context), Some("ARM64".to_owned()));
    assert_eq!(resolve_context_ref("strategy.job-total", &context), Some("1".to_owned()));
    assert_eq!(resolve_context_ref("matrix.missing", &context), Some(String::new()));
    assert_eq!(resolve_context_ref("something", &context), None);
    let default_context = ExpressionContext::default();
    assert_eq!(resolve_context_ref("runner.os", &default_context), Some("Linux".to_owned()));
}

#[test]
fn splits_at_top_level_only() {
    assert_eq!(split_top_level("a || (b || c) || 'd || e'", "||"), vec!["a ", " (b || c) ", " 'd || e'"]);
}

/// Decides with a host that answers number questions with `f64` (conditions here hash no files).
fn decide_job_run_with_jobs(job: &PlannedJob, all_jobs: &[PlannedJob], results: &StrMap<JobResultStatus>) -> JobRunDecision {
    let mut facts = EvalFacts { literals: Vec::new(), comparisons: Vec::new(), digests: Vec::new() };
    loop {
        match local_ci::plan::decide_job_run_with_jobs(job, &all_jobs.to_vec(), results, &facts) {
            Ok(decision) => return decision,
            Err(EvalQuery::IsNumber(text)) => {
                let is_number = text.parse::<f64>().is_ok();
                facts.literals.push((text, is_number));
            }
            Err(EvalQuery::Compare(left, right)) => {
                let number = |v: &str| if v.trim().is_empty() { Some(0.0) } else { v.trim().parse::<f64>().ok() };
                let relation = match (number(&left), number(&right)) {
                    (Some(a), Some(b)) => NumberRelation::Ordered { less: a < b, equal: a == b, greater: a > b },
                    _ => NumberRelation::NotNumbers,
                };
                facts.comparisons.push((left, right, relation));
            }
            Err(EvalQuery::HashFiles(patterns)) => {
                facts.digests.push((patterns, "0000000000000000000000000000000000000000".to_owned()));
            }
        }
    }
}

fn decide_job_run(job: &PlannedJob, results: &StrMap<JobResultStatus>) -> JobRunDecision {
    decide_job_run_with_jobs(job, std::slice::from_ref(job), results)
}

fn statuses(entries: &[(&str, JobResultStatus)]) -> StrMap<JobResultStatus> {
    let mut m = StrMap::new();
    for (k, v) in entries {
        m.insert((*k).to_owned(), *v);
    }
    m
}

#[test]
fn dependent_job_skips_when_any_matrix_leg_fails() {
    let leg_1 = matrix_job("test", "local-ci-1-j1-m1", "a");
    let leg_2 = matrix_job("test", "local-ci-1-j1-m2", "b");
    let deploy = planned_job("deploy", &["test"], None);
    let jobs = vec![leg_1, leg_2, deploy.clone()];
    let results = statuses(&[("local-ci-1-j1-m1", JobResultStatus::Failure), ("local-ci-1-j1-m2", JobResultStatus::Success)]);

    assert!(matches!(decide_job_run_with_jobs(&deploy, &jobs, &results), JobRunDecision::Skip { .. }));
}

#[test]
fn status_functions_override_default_needs_success_gate() {
    let default_job = planned_job("deploy", &["test"], None);
    let always_job = planned_job("deploy", &["test"], Some("${{ always() }}"));
    let failure_job = planned_job("deploy", &["test"], Some("${{ failure() }}"));
    let results = statuses(&[("test", JobResultStatus::Failure)]);

    assert!(matches!(decide_job_run(&default_job, &results), JobRunDecision::Skip { .. }));
    assert_eq!(decide_job_run(&always_job, &results), JobRunDecision::Run);
    assert_eq!(decide_job_run(&failure_job, &results), JobRunDecision::Run);
}

#[test]
fn success_status_function_can_run_after_skipped_need() {
    let job = planned_job("deploy", &["test"], Some("${{ !success() }}"));
    let results = statuses(&[("test", JobResultStatus::Skipped)]);

    assert_eq!(decide_job_run(&job, &results), JobRunDecision::Run);
}

#[test]
fn conditions_compare_need_results_and_numbers() {
    let job = planned_job("deploy", &["test"], Some("needs.test.result == 'SUCCESS' && 10 > 9.5"));
    let results = statuses(&[("test", JobResultStatus::Success)]);
    assert_eq!(decide_job_run(&job, &results), JobRunDecision::Run);
    let skipped = planned_job("deploy", &["test"], Some("needs.test.result == 'failure'"));
    assert_eq!(
        decide_job_run(&skipped, &results),
        JobRunDecision::Skip { reason: "job condition evaluated to false: needs.test.result == 'failure'".to_owned() }
    );
}
