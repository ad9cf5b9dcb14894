use local_ci::matrix::{
    collapse_matrix_to_single, expand_matrix_combinations, expand_workflow_jobs, matrix_contexts, parse_matrix_def,
    runner_name, MatrixDefinition,
};
use local_ci::strmap::StrMap;
use local_ci::workflow::{parse_workflow_value, WorkflowDocument};
use local_ci::yaml::YamlValue;

fn rendered(value: &serde_yaml::Value) -> String {
    serde_yaml::to_string(value).unwrap_or_else(|_| "<unprintable>".to_owned())
}

fn node(value: &serde_yaml::Value) -> YamlValue {
    match value {
        serde_yaml::Value::Null => YamlValue::Null,
        serde_yaml::Value::Bool(b) => YamlValue::Bool(*b),
        serde_yaml::Value::Number(n) => YamlValue::Number(n.to_string()),
        serde_yaml::Value::String(s) => YamlValue::Str(s.clone()),
        serde_yaml::Value::Sequence(items) => YamlValue::Sequence(items.iter().map(node).collect(), rendered(value)),
        serde_yaml::Value::Mapping(entries) => {
            YamlValue::Mapping(entries.iter().map(|(k, v)| (node(k), node(v))).collect(), rendered(value))
        }
        serde_yaml::Value::Tagged(_) => YamlValue::Tagged(rendered(value)),
    }
}

fn workflow_from_yaml(yaml: &str) -> WorkflowDocument {
    let raw: serde_yaml::Value = serde_yaml::from_str(yaml).unwrap();
    parse_workflow_value("matrix.yml", node(&raw)).unwrap()
}

fn matrix_from_yaml(yaml: &str) -> MatrixDefinition {
    let workflow = workflow_from_yaml(yaml);
    parse_matrix_def(workflow.jobs.get("test").unwrap()).unwrap()
}

#[test]
fn expands_cartesian_product() {
    let matrix = matrix_from_yaml(
        r#"on: push
jobs:
  test:
    runs-on: ubuntu-latest
    strategy:
      matrix:
        os: [ubuntu, macos]
        node: [20, 22]
"#,
    );

    let combos = expand_matrix_combinations(&matrix);

    assert_eq!(combos.len(), 4);
    assert_eq!(combos[0].get("node"), Some(&"20".to_owned()));
    assert_eq!(combos[0].get("os"), Some(&"ubuntu".to_owned()));
}

#[test]
fn applies_exclude_and_include_rules() {
    let matrix = matrix_from_yaml(
        r#"on: push
jobs:
  test:
    runs-on: ubuntu-latest
    strategy:
      matrix:
        os: [ubuntu, macos]
        node: [20, 22]
        exclude:
          - os: macos
            node: 20
        include:
          - os: ubuntu
            node: 22
            experimental: true
          - os: windows
            node: 22
"#,
    );

    let combos = expand_matrix_combinations(&matrix);

    assert_eq!(combos.len(), 4);
    assert!(!combos
        .iter()
        .any(|combo| combo.get("os") == Some(&"macos".to_owned()) && combo.get("node") == Some(&"20".to_owned())));
    assert!(combos.iter().any(|combo| combo.get("experimental") == Some(&"true".to_owned())));
    assert!(combos.iter().any(|combo| combo.get("os") == Some(&"windows".to_owned())));
}

#[test]
fn collapse_uses_first_axis_values_and_sets_strategy_metadata() {
    let matrix = matrix_from_yaml(
        r#"on: push
jobs:
  test:
    runs-on: ubuntu-latest
    strategy:
      matrix:
        shard: [1, 2, 3]
"#,
    );

    let combos = collapse_matrix_to_single(&matrix);

    assert_eq!(combos.len(), 1);
    assert_eq!(combos[0].get("shard"), Some(&"1".to_owned()));
    assert_eq!(combos[0].get("__job_total"), Some(&"1".to_owned()));
    assert_eq!(combos[0].get("__job_index"), Some(&"0".to_owned()));
}

#[test]
fn expanded_contexts_get_strategy_metadata() {
    let matrix = matrix_from_yaml(
        r#"on: push
jobs:
  test:
    runs-on: ubuntu-latest
    strategy:
      matrix:
        shard: [1, 2, 3]
"#,
    );

    let combos = matrix_contexts(&matrix, false);

    assert_eq!(combos[2].get("__job_total"), Some(&"3".to_owned()));
    assert_eq!(combos[2].get("__job_index"), Some(&"2".to_owned()));
}

#[test]
fn generates_runner_names_for_matrix_jobs() {
    let workflow = workflow_from_yaml(
        r#"on: push
jobs:
  test:
    runs-on: ubuntu-latest
    strategy:
      matrix:
        shard: [1, 2]
"#,
    );

    let jobs = expand_workflow_jobs(&workflow, false, 12);

    assert_eq!(jobs[0].runner_name, "local-ci-12-j1-m1");
    assert_eq!(jobs[1].runner_name, "local-ci-12-j1-m2");
}

#[test]
fn an_empty_matrix_has_one_empty_leg() {
    let matrix = MatrixDefinition { axes: StrMap::new(), includes: vec![], exclude: vec![] };
    let combos = expand_matrix_combinations(&matrix);
    assert_eq!(combos.len(), 1);
    assert!(combos[0].is_empty());
    let excluded_all = matrix_from_yaml(
        r#"on: push
jobs:
  test:
    runs-on: ubuntu-latest
    strategy:
      matrix:
        os: [a]
        exclude:
          - os: a
"#,
    );
    assert_eq!(expand_matrix_combinations(&excluded_all).len(), 1);
    assert_eq!(runner_name(12, 1, None), "local-ci-12-j2");
}

#[test]
fn jobs_without_a_matrix_expand_to_one_leg() {
    let workflow = workflow_from_yaml(
        r#"on: push
jobs:
  build:
    runs-on: ubuntu-latest
  test:
    runs-on: ubuntu-latest
    strategy:
      fail-fast: false
"#,
    );
    assert!(parse_matrix_def(workflow.jobs.get("test").unwrap()).is_none());
    let jobs = expand_workflow_jobs(&workflow, false, 3);
    assert_eq!(jobs.len(), 2);
    assert_eq!(jobs[0].job_id, "build");
    assert_eq!(jobs[0].runner_name, "local-ci-3-j1");
    assert!(jobs[0].matrix_context.is_none());
    assert_eq!(jobs[1].runner_name, "local-ci-3-j2");
}

#[test]
fn no_matrix_collapses_each_job_to_its_first_leg() {
    let workflow = workflow_from_yaml(
        r#"on: push
jobs:
  test:
    runs-on: ubuntu-latest
    strategy:
      matrix:
        shard: [1, 2, 3]
"#,
    );
    let jobs = expand_workflow_jobs(&workflow, true, 7);
    assert_eq!(jobs.len(), 1);
    assert_eq!(jobs[0].runner_name, "local-ci-7-j1-m1");
    assert_eq!(jobs[0].matrix_context.as_ref().unwrap().get("shard"), Some(&"1".to_owned()));
}
