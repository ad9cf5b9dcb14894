use local_ci::expr::eval::{
    evaluate_expr_value as evaluate_with_facts, evaluate_job_if, expand_expressions as expand_with_facts, EvalFacts, EvalQuery,
    NumberRelation,
};
use local_ci::strmap::StrMap;
use local_ci::expr::hash::{hash_files_digest, hash_files_selection};
use local_ci::expr::ExpressionContext;

fn to_number(value: &str) -> Option<f64> {
    let trimmed = value.trim();
    if trimmed.is_empty() {
        return Some(0.0);
    }
    trimmed.parse::<f64>().ok()
}

/// Answers one question of the evaluator as a host that compares numbers with `f64` and hashes
/// an in-memory repository of (path, content) files, sorted by path.
fn answer(query: EvalQuery, facts: &mut EvalFacts, files: &[(&str, &str)]) {
    match query {
        EvalQuery::IsNumber(text) => {
            let is_number = text.parse::<f64>().is_ok();
            facts.literals.push((text, is_number));
        }
        EvalQuery::Compare(left, right) => {
            let relation = match (to_number(&left), to_number(&right)) {
                (Some(a), Some(b)) => NumberRelation::Ordered { less: a < b, equal: a == b, greater: a > b },
                _ => NumberRelation::NotNumbers,
            };
            facts.comparisons.push((left, right, relation));
        }
        EvalQuery::HashFiles(patterns) => {
            let mut sorted = files.to_vec();
            sorted.sort();
            let paths = sorted.iter().map(|(path, _)| path.to_string()).collect::<Vec<_>>();
            let selected = hash_files_selection(&paths, &patterns);
            let contents = selected
                .iter()
                .map(|path| sorted.iter().find(|(p, _)| p == path).map(|(_, c)| c.as_bytes().to_vec()))
                .collect::<Vec<_>>();
            let digest = hash_files_digest(&contents);
            facts.digests.push((patterns, digest));
        }
    }
}

fn no_facts() -> EvalFacts {
    EvalFacts { literals: Vec::new(), comparisons: Vec::new(), digests: Vec::new() }
}

/// Evaluates one expression, answering the evaluator's questions until it has a value.
fn evaluate_in(expression: &str, context: &ExpressionContext, files: &[(&str, &str)]) -> String {
    let mut facts = no_facts();
    loop {
        match evaluate_with_facts(expression, context, &facts) {
            Ok(value) => return value,
            Err(query) => answer(query, &mut facts, files),
        }
    }
}

fn evaluate_expr_value(expression: &str, context: &ExpressionContext) -> String {
    evaluate_in(expression, context, &[])
}

/// Expands a template with the library's expansion, answering its questions until it is done.
fn expand_in(value: &str, context: &ExpressionContext, files: &[(&str, &str)]) -> String {
    let mut facts = no_facts();
    loop {
        match expand_with_facts(value, context, &facts) {
            Ok(text) => return text,
            Err(query) => answer(query, &mut facts, files),
        }
    }
}

fn expand_expressions(value: &str, context: &ExpressionContext) -> String {
    expand_in(value, context, &[])
}

#[test]
fn expands_string_functions_and_json_arrays() {
    let context = ExpressionContext::default();

    assert_eq!(expand_expressions("${{ format('{0}-{1}', 'foo', 'bar') }}", &context), "foo-bar");
    assert_eq!(expand_expressions("${{ join(fromJSON('[\"a\",\"b\",\"c\"]'), ',') }}", &context), "a,b,c");
    assert_eq!(expand_expressions("${{ contains(fromJSON('[\"a\",\"b\"]'), 'b') }}", &context), "true");
    assert_eq!(expand_expressions("${{ startsWith('hello-world', 'hello') }}", &context), "true");
    assert_eq!(expand_expressions("${{ endsWith('hello-world', 'world') }}", &context), "true");
}

#[test]
fn resolves_contexts_and_strategy_values() {
    let mut context = ExpressionContext::default();
    context.matrix.insert("shard".to_owned(), "2".to_owned());
    context.matrix.insert("__job_total".to_owned(), "3".to_owned());
    context.vars.insert("ENV".to_owned(), "test".to_owned());

    assert_eq!(expand_expressions("${{ matrix.shard }}", &context), "2");
    assert_eq!(expand_expressions("${{ strategy.job-total }}", &context), "3");
    assert_eq!(expand_expressions("${{ vars.ENV }}", &context), "test");
    assert_eq!(expand_expressions("${{ runner.arch }}", &context), "X64");
}

#[test]
fn supports_boolean_logic_and_comparison_coercion() {
    let context = ExpressionContext::default();

    assert_eq!(expand_expressions("${{ true && 'yes' || 'no' }}", &context), "yes");
    assert_eq!(expand_expressions("${{ '' == 0 }}", &context), "true");
    assert_eq!(expand_expressions("${{ null == 0 }}", &context), "true");
    assert_eq!(expand_expressions("${{ '0' == 0 }}", &context), "true");
    assert_eq!(expand_expressions("${{ 'x' == 0 }}", &context), "false");
}

#[test]
fn pretty_prints_to_json() {
    let context = ExpressionContext::default();
    let value = expand_expressions("${{ toJSON(fromJSON('{\"a\":1,\"b\":\"x\"}')) }}", &context);

    assert!(value.contains('\n'));
    assert!(value.contains("  \"a\": 1"));
}

#[test]
fn hashes_files_and_applies_negation_patterns() {
    let files = [(".github/workflows/a.yml", "a"), (".github/workflows/b.yml", "b")];
    let mut context = ExpressionContext::default();
    context.repo_path = Some("/repo".to_owned());

    let one = expand_in("${{ hashFiles('.github/workflows/a.yml') }}", &context, &files);
    let all = expand_in("${{ hashFiles('.github/workflows/*.yml') }}", &context, &files);
    let excluded =
        expand_in("${{ hashFiles('.github/workflows/*.yml', '!.github/workflows/b.yml') }}", &context, &files);

    assert_eq!(one.len(), 64);
    assert_eq!(all.len(), 64);
    assert_eq!(excluded, one);
    assert_ne!(all, excluded);
}

#[test]
fn evaluates_smoke_job_if_condition_as_true_for_owner() {
    let context = ExpressionContext::default();
    let expression = "!github.event.pull_request.draft && (contains(fromJSON('[\"MEMBER\", \"OWNER\", \"COLLABORATOR\"]'), github.event.pull_request.author_association) || contains(github.event.pull_request.labels.*.name, 'safe-to-run'))";

    assert_eq!(evaluate_expr_value(expression, &context), "true");
}

#[test]
fn evaluation_names_the_facts_it_still_needs() {
    let context = ExpressionContext::default();
    let facts = EvalFacts { literals: Vec::new(), comparisons: Vec::new(), digests: Vec::new() };
    assert_eq!(evaluate_with_facts("matrix.os", &context, &facts), Err(EvalQuery::IsNumber("matrix.os".to_owned())));
    assert_eq!(evaluate_with_facts("'1.0' < '2'", &context, &facts), Err(EvalQuery::Compare("1.0".to_owned(), "2".to_owned())));
    let answered = EvalFacts {
        literals: Vec::new(),
        comparisons: vec![(
            "1.0".to_owned(),
            "2".to_owned(),
            NumberRelation::Ordered { less: true, equal: false, greater: false },
        )],
        digests: Vec::new(),
    };
    assert_eq!(evaluate_with_facts("'1.0' < '2'", &context, &answered), Ok("true".to_owned()));
    assert_eq!(evaluate_with_facts("'B' == 'b' && !''", &context, &facts), Err(EvalQuery::Compare("B".to_owned(), "b".to_owned())));
    assert_eq!(evaluate_with_facts("hashFiles('*.rs')", &context, &facts), Err(EvalQuery::IsNumber("hashFiles('*.rs')".to_owned())));
    let calls = EvalFacts {
        literals: vec![("hashFiles('*.rs')".to_owned(), false), ("format('{0}{1}{0}', 'a', 'b')".to_owned(), false)],
        comparisons: Vec::new(),
        digests: Vec::new(),
    };
    assert_eq!(evaluate_with_facts("hashFiles('*.rs')", &context, &calls), Ok("0000000000000000000000000000000000000000".to_owned()));
    assert_eq!(evaluate_with_facts("format('{0}{1}{0}', 'a', 'b')", &context, &calls), Ok("aba".to_owned()));
}

fn job_if(expression: &str, results: &[(&str, &str)]) -> bool {
    let mut job_results = StrMap::new();
    for (job, result) in results {
        job_results.insert(job.to_string(), result.to_string());
    }
    let mut facts = no_facts();
    loop {
        match evaluate_job_if(expression, &job_results, StrMap::new(), &facts) {
            Ok(holds) => return holds,
            Err(query) => answer(query, &mut facts, &[]),
        }
    }
}

#[test]
fn job_conditions_see_the_status_functions_of_their_needs() {
    for results in [
        vec![("a", "success"), ("b", "failure")],
        vec![("a", "success"), ("b", "success")],
        vec![("a", "cancelled"), ("b", "skipped")],
        vec![],
    ] {
        let all_success = results.iter().all(|(_, r)| *r == "success");
        let any_failure = results.iter().any(|(_, r)| *r == "failure");
        assert_eq!(job_if("success()", &results), all_success, "{results:?}");
        assert_eq!(job_if("failure()", &results), any_failure, "{results:?}");
        assert!(job_if("always()", &results));
        assert!(!job_if("cancelled()", &results));
        assert_eq!(job_if("!success()", &results), !job_if("success()", &results));
    }
}
