use local_ci::runner_image::{
    detect_missing_tool_hint, detect_toolcache_hint, discover_runner_image, docker_build_command, ensure_runner_image,
    find_missing_tool, image_step, runner_image_hash, ImageAction, ImageOps, ImageStage, ResolvedRunnerImage, RunnerDockerfiles, RunnerImageSource,
    UPSTREAM_RUNNER_IMAGE,
};
use local_ci::strmap::StrMap;

#[derive(Default)]
struct FakeOps {
    existing: Vec<String>,
    calls: Vec<String>,
}

impl ImageOps for FakeOps {
    fn image_exists(&mut self, image: &str) -> Result<bool, String> {
        self.calls.push(format!("inspect {image}"));
        Ok(self.existing.iter().any(|e| e == image))
    }

    fn pull_image(&mut self, image: &str) -> Result<(), String> {
        self.calls.push(format!("pull {image}"));
        Ok(())
    }

    fn build_image(&mut self, image: &str, dockerfile: &str, context: Option<&str>) -> Result<(), String> {
        self.calls.push(format!("build {image} {dockerfile} {}", context.unwrap_or("-")));
        self.existing.push(image.to_owned());
        Ok(())
    }
}

fn no_dockerfiles() -> RunnerDockerfiles {
    RunnerDockerfiles { dir_dockerfile: None, simple_dockerfile: None, legacy_dir_dockerfile: None, legacy_simple_dockerfile: None }
}

#[test]
fn ensure_pulls_missing_non_build_images() {
    let mut ops = FakeOps::default();
    let resolved = ResolvedRunnerImage {
        image: "custom:tag".to_owned(),
        source: RunnerImageSource::Env,
        source_label: "env".to_owned(),
        needs_build: false,
        dockerfile_path: None,
        context_dir: None,
    };

    let image = ensure_runner_image(&mut ops, &resolved).unwrap();

    assert_eq!(image, "custom:tag");
    assert_eq!(ops.calls, vec!["inspect custom:tag", "pull custom:tag"]);
}

#[test]
fn ensure_reuses_existing_non_build_images_without_pulling() {
    let mut ops = FakeOps::default();
    ops.existing.push("custom:tag".to_owned());
    let resolved = ResolvedRunnerImage {
        image: "custom:tag".to_owned(),
        source: RunnerImageSource::Env,
        source_label: "env".to_owned(),
        needs_build: false,
        dockerfile_path: None,
        context_dir: None,
    };

    let image = ensure_runner_image(&mut ops, &resolved).unwrap();

    assert_eq!(image, "custom:tag");
    assert_eq!(ops.calls, vec!["inspect custom:tag"]);
}

#[test]
fn skips_build_when_hash_tag_exists() {
    let resolved = ResolvedRunnerImage {
        image: "local-ci-runner:abc".to_owned(),
        source: RunnerImageSource::DockerfileFile,
        source_label: "Dockerfile".to_owned(),
        needs_build: true,
        dockerfile_path: Some("Dockerfile".to_owned()),
        context_dir: None,
    };
    let mut ops = FakeOps::default();
    ops.existing.push("local-ci-runner:abc".to_owned());

    ensure_runner_image(&mut ops, &resolved).unwrap();

    assert_eq!(ops.calls, vec!["inspect local-ci-runner:abc"]);
}

#[test]
fn docker_build_command_uses_context_when_available() {
    let resolved = ResolvedRunnerImage {
        image: "local-ci-runner:abc".to_owned(),
        source: RunnerImageSource::DockerfileDir,
        source_label: "Dockerfile".to_owned(),
        needs_build: true,
        dockerfile_path: Some("/repo/.github/local-ci/Dockerfile".to_owned()),
        context_dir: Some("/repo/.github/local-ci".to_owned()),
    };

    let command = docker_build_command(&resolved).unwrap();

    assert_eq!(
        command,
        vec!["docker", "build", "-t", "local-ci-runner:abc", "-f", "/repo/.github/local-ci/Dockerfile", "/repo/.github/local-ci"]
    );
}

#[test]
fn toolcache_hint_points_at_host_dir() {
    let hint = detect_toolcache_hint("tar: bin/npm: Cannot open: Permission denied", Some("/tmp/tool cache")).unwrap();
    assert!(hint.contains("sudo rm -rf '/tmp/tool cache'"));
}

#[test]
fn builds_missing_dockerfile_image_after_pulling_upstream() {
    let resolved = ResolvedRunnerImage {
        image: "local-ci-runner:abc".to_owned(),
        source: RunnerImageSource::DockerfileFile,
        source_label: "Dockerfile".to_owned(),
        needs_build: true,
        dockerfile_path: Some("/repo/Dockerfile".to_owned()),
        context_dir: None,
    };
    let mut ops = FakeOps::default();

    let image = ensure_runner_image(&mut ops, &resolved).unwrap();

    assert_eq!(image, "local-ci-runner:abc");
    assert_eq!(ops.calls[0], "inspect local-ci-runner:abc");
    assert_eq!(ops.calls[1], format!("pull {UPSTREAM_RUNNER_IMAGE}"));
    assert!(ops.calls[2].starts_with("build local-ci-runner:abc"));
}

#[test]
fn chooses_env_then_dockerfiles_then_upstream() {
    let env = discover_runner_image("/repo", Some(" custom:tag "), &no_dockerfiles());
    assert_eq!(env.image, "custom:tag");
    assert_eq!(env.source, RunnerImageSource::Env);
    assert!(!env.needs_build);

    let mut files = no_dockerfiles();
    files.dir_dockerfile = Some("0123456789ab".to_owned());
    files.simple_dockerfile = Some("ffffffffffff".to_owned());
    let dir = discover_runner_image("/repo", None, &files);
    assert_eq!(dir.source, RunnerImageSource::DockerfileDir);
    assert_eq!(dir.image, "local-ci-runner:0123456789ab");
    assert_eq!(dir.context_dir, Some("/repo/.github/local-ci".to_owned()));
    assert_eq!(dir.source_label, ".github/local-ci/Dockerfile");

    let default = discover_runner_image("/repo", None, &no_dockerfiles());
    assert_eq!(default.image, UPSTREAM_RUNNER_IMAGE);
    assert_eq!(default.source, RunnerImageSource::Default);
}

#[test]
fn missing_tool_hint_names_the_tool_for_the_default_image() {
    let default = discover_runner_image("/repo", None, &no_dockerfiles());
    let hint = detect_missing_tool_hint("sh: 1: cargo: not found", &default).unwrap();
    assert!(hint.contains("`cargo`"));
    let custom = ResolvedRunnerImage { source: RunnerImageSource::Env, ..default };
    assert!(detect_missing_tool_hint("cargo: not found", &custom).is_none());
    assert_eq!(find_missing_tool("bash: line 3: make: command not found"), Some("make".to_owned()));
    assert_eq!(find_missing_tool("all good"), None);
}

#[test]
fn image_tags_hash_the_dockerfile_and_context() {
    let plain = runner_image_hash(&b"FROM base\n".to_vec(), &StrMap::new());
    assert_eq!(plain.len(), 12);
    assert!(plain.chars().all(|c| c.is_ascii_hexdigit()));
    let mut context = StrMap::new();
    context.insert("file".to_owned(), b"hello".to_vec());
    let with_context = runner_image_hash(&b"FROM base\n".to_vec(), &context);
    assert_ne!(plain, with_context);
    // SHA-256 of the empty input starts with e3b0c44298fc.
    assert_eq!(runner_image_hash(&Vec::new(), &StrMap::new()), "e3b0c44298fc");
}

#[test]
fn image_steps_inspect_then_pull_or_build() {
    let mut resolved = ResolvedRunnerImage {
        image: "local-ci-runner:abc".to_owned(),
        source: RunnerImageSource::DockerfileDir,
        source_label: ".github/local-ci/Dockerfile".to_owned(),
        needs_build: true,
        dockerfile_path: Some("/repo/.github/local-ci/Dockerfile".to_owned()),
        context_dir: Some("/repo/.github/local-ci".to_owned()),
    };
    assert!(matches!(image_step(&resolved, ImageStage::Start), ImageAction::Inspect(i) if i == "local-ci-runner:abc"));
    assert!(matches!(image_step(&resolved, ImageStage::Inspected(true)), ImageAction::Finish(Ok(i)) if i == "local-ci-runner:abc"));
    assert!(matches!(image_step(&resolved, ImageStage::Inspected(false)), ImageAction::Pull(i) if i == UPSTREAM_RUNNER_IMAGE));
    assert!(matches!(
        image_step(&resolved, ImageStage::Pulled),
        ImageAction::Build(i, d, Some(c)) if i == "local-ci-runner:abc" && d == "/repo/.github/local-ci/Dockerfile" && c == "/repo/.github/local-ci"
    ));
    assert!(matches!(image_step(&resolved, ImageStage::Built), ImageAction::Finish(Ok(i)) if i == "local-ci-runner:abc"));
    resolved.dockerfile_path = None;
    assert!(matches!(
        image_step(&resolved, ImageStage::Pulled),
        ImageAction::Finish(Err(e)) if e == "runner image build requires a Dockerfile path"
    ));
    resolved.needs_build = false;
    assert!(matches!(image_step(&resolved, ImageStage::Inspected(false)), ImageAction::Pull(i) if i == "local-ci-runner:abc"));
    assert!(matches!(image_step(&resolved, ImageStage::Pulled), ImageAction::Finish(Ok(i)) if i == "local-ci-runner:abc"));
}

#[test]
fn missing_dockerfile_path_fails_after_pulling_the_base() {
    let mut ops = FakeOps::default();
    let resolved = ResolvedRunnerImage {
        image: "local-ci-runner:abc".to_owned(),
        source: RunnerImageSource::DockerfileFile,
        source_label: ".github/local-ci.Dockerfile".to_owned(),
        needs_build: true,
        dockerfile_path: None,
        context_dir: None,
    };
    assert_eq!(
        ensure_runner_image(&mut ops, &resolved),
        Err("runner image build requires a Dockerfile path".to_owned())
    );
    assert_eq!(ops.calls, vec!["inspect local-ci-runner:abc".to_owned(), format!("pull {UPSTREAM_RUNNER_IMAGE}")]);
}
