//! Choosing, pulling and building the runner container image.
use crate::text::{
    ascii_lower, bounded, cat, cat3, contains, contains_seq, first_occurrence, first_word,
    find_chars, join, join_strings, lines, lines_of, owned, parse_u32, second_piece,
    second_piece_str, shell_quote, shell_quoted, split_char, split_on_char, to_ascii_lower, trim,
    trim_end_matches, trim_end_matches_str, trim_quotes, trim_quotes_str, trim_str,
    unsigned_literal, views, words, chars_of, slice_string, first_index_of,
};
use crate::strmap::StrMap;
use sha2::Digest;
use vstd::prelude::*;

verus! {

/// The upstream actions runner image, used when the repository does not provide its own.
pub const UPSTREAM_RUNNER_IMAGE: &'static str = "ghcr.io/actions/actions-runner:latest";

/// Where the runner image came from.
#[derive(Debug, Clone, Copy, PartialEq, Eq, Structural)]
pub enum RunnerImageSource {
    Env,
    DockerfileDir,
    DockerfileFile,
    Default,
}

/// The runner image to use and how to obtain it.
#[derive(Debug, Clone, PartialEq, Eq)]
pub struct ResolvedRunnerImage {
    pub image: String,
    pub source: RunnerImageSource,
    pub source_label: String,
    pub needs_build: bool,
    pub dockerfile_path: Option<String>,
    pub context_dir: Option<String>,
}

/// The repository's runner Dockerfiles, each with the content hash (first twelve hex digits,
/// or `unknown` when it could not be read) when the file exists: `.github/local-ci/Dockerfile`,
/// `.github/local-ci.Dockerfile`, `.github/agent-ci/Dockerfile`, `.github/agent-ci.Dockerfile`.
pub struct RunnerDockerfiles {
    pub dir_dockerfile: Option<String>,
    pub simple_dockerfile: Option<String>,
    pub legacy_dir_dockerfile: Option<String>,
    pub legacy_simple_dockerfile: Option<String>,
}

/// A Dockerfile-built image record: `(image, source, label, dockerfile, context)`.
pub open spec fn built_image(
    hash: Seq<char>,
    source: RunnerImageSource,
    rel: Seq<char>,
    root: Seq<char>,
    with_context: bool,
) -> (Seq<char>, RunnerImageSource, Seq<char>, bool, Option<Seq<char>>, Option<Seq<char>>) {
    let path = crate::text::path_join(root, rel);
    (
        "local-ci-runner:"@ + hash,
        source,
        rel,
        true,
        Some(path),
        if with_context {
            Some(crate::text::path_join(root, rel.take(rel.len() - 11)))
        } else {
            None
        },
    )
}

pub open spec fn resolved_view(r: ResolvedRunnerImage) -> (Seq<char>, RunnerImageSource, Seq<char>, bool, Option<Seq<char>>, Option<Seq<char>>) {
    (r.image@, r.source, r.source_label@, r.needs_build, match r.dockerfile_path {
        Some(p) => Some(p@),
        None => None,
    }, match r.context_dir {
        Some(p) => Some(p@),
        None => None,
    })
}

/// The image the runner uses: a non-blank `LOCAL_CI_RUNNER_IMAGE`, else the first repository
/// Dockerfile (built and tagged by its hash), else the upstream image.
pub open spec fn runner_image_spec(root: Seq<char>, env_image: Option<Seq<char>>, d: RunnerDockerfiles) -> (Seq<char>, RunnerImageSource, Seq<char>, bool, Option<Seq<char>>, Option<Seq<char>>) {
    if env_image matches Some(e) && trim(e).len() > 0 {
        (trim(env_image->0), RunnerImageSource::Env, "LOCAL_CI_RUNNER_IMAGE"@, false, None, None)
    } else if d.dir_dockerfile is Some {
        built_image(d.dir_dockerfile->0@, RunnerImageSource::DockerfileDir, ".github/local-ci/Dockerfile"@, root, true)
    } else if d.simple_dockerfile is Some {
        built_image(d.simple_dockerfile->0@, RunnerImageSource::DockerfileFile, ".github/local-ci.Dockerfile"@, root, false)
    } else if d.legacy_dir_dockerfile is Some {
        built_image(d.legacy_dir_dockerfile->0@, RunnerImageSource::DockerfileDir, ".github/agent-ci/Dockerfile"@, root, true)
    } else if d.legacy_simple_dockerfile is Some {
        built_image(d.legacy_simple_dockerfile->0@, RunnerImageSource::DockerfileFile, ".github/agent-ci.Dockerfile"@, root, false)
    } else {
        (UPSTREAM_RUNNER_IMAGE@, RunnerImageSource::Default, "built-in default"@, false, None, None)
    }
}

fn built(hash: &str, source: RunnerImageSource, rel: &str, context_rel: Option<&str>, root: &str) -> (r: ResolvedRunnerImage)
    requires
        context_rel matches Some(c) ==> rel@.len() >= 11 && c@ == rel@.take(rel@.len() - 11),
    ensures
        resolved_view(r) == built_image(hash@, source, rel@, root@, context_rel is Some),
{
    ResolvedRunnerImage {
        image: cat("local-ci-runner:", hash),
        source,
        source_label: owned(rel),
        needs_build: true,
        dockerfile_path: Some(crate::text::join_path(root, rel)),
        context_dir: match context_rel {
            Some(c) => Some(crate::text::join_path(root, c)),
            None => None,
        },
    }
}

/// Chooses the runner image for a repository.
pub fn discover_runner_image(repo_root: &str, env_image: Option<&str>, dockerfiles: &RunnerDockerfiles) -> (r: ResolvedRunnerImage)
    ensures
        resolved_view(r) == runner_image_spec(repo_root@, match env_image {
            Some(e) => Some(e@),
            None => None,
        }, *dockerfiles),
{
    if let Some(e) = env_image {
        let image = trim_str(e);
        if !image.as_str().is_empty() {
            return ResolvedRunnerImage {
                image,
                source: RunnerImageSource::Env,
                source_label: owned("LOCAL_CI_RUNNER_IMAGE"),
                needs_build: false,
                dockerfile_path: None,
                context_dir: None,
            };
        }
    }
    proof {
        reveal_strlit(".github/local-ci/Dockerfile");
        reveal_strlit(".github/local-ci");
        reveal_strlit(".github/agent-ci/Dockerfile");
        reveal_strlit(".github/agent-ci");
    }
    assert(".github/local-ci"@ =~= ".github/local-ci/Dockerfile"@.take(".github/local-ci/Dockerfile"@.len() - 11));
    assert(".github/agent-ci"@ =~= ".github/agent-ci/Dockerfile"@.take(".github/agent-ci/Dockerfile"@.len() - 11));
    if let Some(h) = &dockerfiles.dir_dockerfile {
        return built(h.as_str(), RunnerImageSource::DockerfileDir, ".github/local-ci/Dockerfile", Some(".github/local-ci"), repo_root);
    }
    if let Some(h) = &dockerfiles.simple_dockerfile {
        return built(h.as_str(), RunnerImageSource::DockerfileFile, ".github/local-ci.Dockerfile", None, repo_root);
    }
    if let Some(h) = &dockerfiles.legacy_dir_dockerfile {
        return built(h.as_str(), RunnerImageSource::DockerfileDir, ".github/agent-ci/Dockerfile", Some(".github/agent-ci"), repo_root);
    }
    if let Some(h) = &dockerfiles.legacy_simple_dockerfile {
        return built(h.as_str(), RunnerImageSource::DockerfileFile, ".github/agent-ci.Dockerfile", None, repo_root);
    }
    ResolvedRunnerImage {
        image: owned(UPSTREAM_RUNNER_IMAGE),
        source: RunnerImageSource::Default,
        source_label: owned("built-in default"),
        needs_build: false,
        dockerfile_path: None,
        context_dir: None,
    }
}

/// How far making the runner image available has got: nothing done yet; the image was
/// inspected and found present or not; the pull succeeded; the build succeeded.
#[derive(Debug, Clone, Copy, PartialEq, Eq, Structural)]
pub enum ImageStage {
    Start,
    Inspected(bool),
    Pulled,
    Built,
}

/// The next thing to do for the runner image: inspect it, pull an image, build the image from
/// a Dockerfile and context, or finish with a result.
#[derive(Debug)]
pub enum ImageAction {
    Inspect(String),
    Pull(String),
    Build(String, String, Option<String>),
    Finish(Result<String, String>),
}

/// The mathematical form of an image action.
pub enum ImageActionView {
    Inspect(Seq<char>),
    Pull(Seq<char>),
    Build(Seq<char>, Seq<char>, Option<Seq<char>>),
    Finish(Result<Seq<char>, Seq<char>>),
}

pub open spec fn opt_view(o: Option<String>) -> Option<Seq<char>> {
    match o {
        Some(s) => Some(s@),
        None => None,
    }
}

pub open spec fn image_action_view(a: ImageAction) -> ImageActionView {
    match a {
        ImageAction::Inspect(i) => ImageActionView::Inspect(i@),
        ImageAction::Pull(i) => ImageActionView::Pull(i@),
        ImageAction::Build(i, d, c) => ImageActionView::Build(i@, d@, opt_view(c)),
        ImageAction::Finish(Ok(i)) => ImageActionView::Finish(Ok(i@)),
        ImageAction::Finish(Err(e)) => ImageActionView::Finish(Err(e@)),
    }
}

/// What to do next for the image: inspect `resolved.image` first; an image that is present is
/// done; a missing ready-made image is pulled; for a missing Dockerfile image the upstream base
/// is pulled and then the image is built from its Dockerfile and context, which fails when
/// there is no Dockerfile path. Every success names `resolved.image`.
pub open spec fn image_step_spec(r: ResolvedRunnerImage, stage: ImageStage) -> ImageActionView {
    match stage {
        ImageStage::Start => ImageActionView::Inspect(r.image@),
        ImageStage::Inspected(true) => ImageActionView::Finish(Ok(r.image@)),
        ImageStage::Inspected(false) => if r.needs_build {
            ImageActionView::Pull(UPSTREAM_RUNNER_IMAGE@)
        } else {
            ImageActionView::Pull(r.image@)
        },
        ImageStage::Pulled => if !r.needs_build {
            ImageActionView::Finish(Ok(r.image@))
        } else {
            match r.dockerfile_path {
                None => ImageActionView::Finish(Err("runner image build requires a Dockerfile path"@)),
                Some(d) => ImageActionView::Build(r.image@, d@, opt_view(r.context_dir)),
            }
        },
        ImageStage::Built => ImageActionView::Finish(Ok(r.image@)),
    }
}

/// Decides the next step in making the runner image available.
pub fn image_step(resolved: &ResolvedRunnerImage, stage: ImageStage) -> (r: ImageAction)
    ensures
        image_action_view(r) == image_step_spec(*resolved, stage),
{
    match stage {
        ImageStage::Start => ImageAction::Inspect(resolved.image.clone()),
        ImageStage::Inspected(true) => ImageAction::Finish(Ok(resolved.image.clone())),
        ImageStage::Inspected(false) => if resolved.needs_build {
            ImageAction::Pull(owned(UPSTREAM_RUNNER_IMAGE))
        } else {
            ImageAction::Pull(resolved.image.clone())
        },
        ImageStage::Pulled => if !resolved.needs_build {
            ImageAction::Finish(Ok(resolved.image.clone()))
        } else {
            match &resolved.dockerfile_path {
                None => ImageAction::Finish(Err(owned("runner image build requires a Dockerfile path"))),
                Some(d) => ImageAction::Build(resolved.image.clone(), d.clone(), resolved.context_dir.clone()),
            }
        },
        ImageStage::Built => ImageAction::Finish(Ok(resolved.image.clone())),
    }
}

/// How many steps are left at most from a stage.
pub open spec fn image_stage_rank(stage: ImageStage) -> nat {
    match stage {
        ImageStage::Start => 3,
        ImageStage::Inspected(_) => 2,
        ImageStage::Pulled => 1,
        ImageStage::Built => 0,
    }
}

/// Image inspection, pulling and building, supplied by the caller (docker on a real host).
pub trait ImageOps {
    fn image_exists(&mut self, image: &str) -> Result<bool, String>;

    fn pull_image(&mut self, image: &str) -> Result<(), String>;

    fn build_image(&mut self, image: &str, dockerfile: &str, context: Option<&str>) -> Result<(), String>;
}

/// Makes the runner image available by carrying out the steps `image_step` decides, stopping
/// at the first failed operation: pulls a missing ready-made image; for a Dockerfile image
/// that is missing, pulls the upstream base image and builds it.
pub fn ensure_runner_image<O: ImageOps>(ops: &mut O, resolved: &ResolvedRunnerImage) -> (r: Result<String, String>)
    ensures
        r matches Ok(image) ==> image@ == resolved.image@,
{
    let mut stage = ImageStage::Start;
    loop
        decreases image_stage_rank(stage),
    {
        let action = image_step(resolved, stage);
        match action {
            ImageAction::Inspect(image) => {
                let exists = ops.image_exists(image.as_str())?;
                stage = ImageStage::Inspected(exists);
            },
            ImageAction::Pull(image) => {
                ops.pull_image(image.as_str())?;
                stage = ImageStage::Pulled;
            },
            ImageAction::Build(image, dockerfile, context) => {
                let ctx: Option<&str> = match &context {
                    Some(c) => Some(c.as_str()),
                    None => None,
                };
                ops.build_image(image.as_str(), dockerfile.as_str(), ctx)?;
                stage = ImageStage::Built;
            },
            ImageAction::Finish(result) => {
                return result;
            },
        }
    }
}

/// The `docker build` command line for an image that needs building.
pub open spec fn build_command_spec(r: ResolvedRunnerImage) -> Option<Seq<Seq<char>>> {
    if !r.needs_build {
        None
    } else {
        match r.dockerfile_path {
            None => None,
            Some(d) => match r.context_dir {
                Some(c) => Some(seq!["docker"@, "build"@, "-t"@, r.image@, "-f"@, d@, c@]),
                None => Some(seq!["docker"@, "build"@, "-t"@, r.image@, "-"@]),
            },
        }
    }
}

/// The `docker build` command for the resolved image, if it needs building.
pub fn docker_build_command(resolved: &ResolvedRunnerImage) -> (r: Option<Vec<String>>)
    ensures
        match r {
            Some(v) => build_command_spec(*resolved) == Some(views(v@)),
            None => build_command_spec(*resolved) is None,
        },
{
    if !resolved.needs_build {
        return None;
    }
    let dockerfile = match &resolved.dockerfile_path {
        Some(d) => d,
        None => {
            return None;
        },
    };
    let mut v: Vec<String> = Vec::new();
    v.push(owned("docker"));
    v.push(owned("build"));
    v.push(owned("-t"));
    v.push(resolved.image.clone());
    match &resolved.context_dir {
        Some(c) => {
            v.push(owned("-f"));
            v.push(dockerfile.clone());
            v.push(c.clone());
        },
        None => {
            v.push(owned("-"));
        },
    }
    assert(views(v@) =~= build_command_spec(*resolved)->0);
    Some(v)
}

// ---------------------------------------------------------------------------
// Hints for failed jobs
// ---------------------------------------------------------------------------

/// The tool named in the ':'-separated segments before "not found", taken from the right:
/// the first trimmed segment that is non-empty and not a number, without a trailing
/// "command", when that leaves something.
pub open spec fn tool_from_segments(segs: Seq<Seq<char>>) -> Option<Seq<char>>
    decreases segs.len(),
{
    if segs.len() == 0 {
        None
    } else {
        let seg = trim(segs.last());
        let candidate = trim(trim_end_matches(seg, "command"@));
        if seg.len() == 0 || bounded(unsigned_literal(seg), u32::MAX as nat) is Some {
            tool_from_segments(segs.drop_last())
        } else if candidate.len() > 0 {
            Some(candidate)
        } else {
            tool_from_segments(segs.drop_last())
        }
    }
}

/// The verdict on one line of output: `None` to go on with the next line, `Some(r)` to stop
/// with result `r`.
pub open spec fn missing_tool_in_line(line: Seq<char>) -> Option<Option<Seq<char>>> {
    let lower = ascii_lower(line);
    if contains_seq(lower, "command not found"@) || contains_seq(lower, ": not found"@) {
        let at = choose|i: int| first_occurrence(lower, "not found"@, i);
        Some(tool_from_segments(split_char(line.take(at), ':')))
    } else {
        match second_piece(lower, "linker "@) {
            Some(after) => Some(if words(trim_quotes(after)).len() > 0 {
                Some(trim_quotes(words(trim_quotes(after))[0]))
            } else {
                None
            }),
            None => match second_piece(lower, "you do not have '"@) {
                Some(after) => Some(Some(split_char(after, '\'')[0])),
                None => None,
            },
        }
    }
}

/// The missing tool reported in the first line that reports one.
pub open spec fn missing_tool_spec(ls: Seq<Seq<char>>) -> Option<Seq<char>>
    decreases ls.len(),
{
    if ls.len() == 0 {
        None
    } else {
        match missing_tool_in_line(ls[0]) {
            Some(r) => r,
            None => missing_tool_spec(ls.skip(1)),
        }
    }
}

fn tool_from_segments_exec(segs: &Vec<String>) -> (r: Option<String>)
    ensures
        match r {
            Some(t) => tool_from_segments(views(segs@)) == Some(t@),
            None => tool_from_segments(views(segs@)) is None,
        },
{
    let mut i: usize = segs.len();
    assert(segs@.take(i as int) =~= segs@);
    while i > 0
        invariant
            i <= segs.len(),
            tool_from_segments(views(segs@)) == tool_from_segments(views(segs@.take(i as int))),
        decreases i,
    {
        let ghost pre = views(segs@.take(i as int));
        assert(pre.drop_last() =~= views(segs@.take(i - 1)));
        assert(pre.last() == segs@[i - 1]@);
        let seg = trim_str(segs[i - 1].as_str());
        let numeric = parse_u32(seg.as_str()).is_some();
        if !seg.as_str().is_empty() && !numeric {
            let stripped = trim_end_matches_str(seg.as_str(), "command");
            let candidate = trim_str(stripped.as_str());
            if !candidate.as_str().is_empty() {
                return Some(candidate);
            }
        }
        i -= 1;
    }
    None
}

/// The verdict on one line.
fn missing_tool_in_line_exec(line: &str) -> (r: Option<Option<String>>)
    ensures
        match r {
            Some(Some(t)) => missing_tool_in_line(line@) == Some(Some(t@)),
            Some(None) => missing_tool_in_line(line@) == Some(None::<Seq<char>>),
            None => missing_tool_in_line(line@) is None,
        },
{
    let lower = to_ascii_lower(line);
    proof {
        reveal_strlit("not found");
        reveal_strlit("command not found");
        reveal_strlit(": not found");
        reveal_strlit("linker ");
        reveal_strlit("you do not have '");
    }
    if contains(lower.as_str(), "command not found") || contains(lower.as_str(), ": not found") {
        let lc = chars_of(lower.as_str());
        let nf = chars_of("not found");
        let at = match find_chars(lc.as_slice(), nf.as_slice()) {
            Some(i) => i,
            None => {
                proof {
                    assert(contains_seq(lower@, "not found"@)) by {
                        if contains_seq(lower@, "command not found"@) {
                            let k = choose|k: int| crate::text::occurs_at(lower@, "command not found"@, k);
                            assert(lower@.subrange(k + 8, k + 17) =~= lower@.subrange(k, k + 17).subrange(8, 17));
                            assert("command not found"@.subrange(8, 17) =~= "not found"@);
                            assert(crate::text::occurs_at(lower@, "not found"@, k + 8));
                        } else {
                            let k = choose|k: int| crate::text::occurs_at(lower@, ": not found"@, k);
                            assert(lower@.subrange(k + 2, k + 11) =~= lower@.subrange(k, k + 11).subrange(2, 11));
                            assert(": not found"@.subrange(2, 11) =~= "not found"@);
                            assert(crate::text::occurs_at(lower@, "not found"@, k + 2));
                        }
                    }
                }
                return Some(None);
            },
        };
        proof {
            crate::text::lemma_first_occurrence_unique(lower@, "not found"@, at as int);
        }
        let lx = chars_of(line);
        assert(lx@.len() == lc@.len());
        let before = slice_string(lx.as_slice(), 0, at);
        assert(before@ =~= line@.take(at as int));
        let segs = split_on_char(before.as_str(), ':');
        return Some(tool_from_segments_exec(&segs));
    }
    if let Some(after) = second_piece_str(lower.as_str(), "linker ") {
        let trimmed = trim_quotes_str(after.as_str());
        return match first_word(trimmed.as_str()) {
            Some(w) => Some(Some(trim_quotes_str(w.as_str()))),
            None => Some(None),
        };
    }
    if let Some(after) = second_piece_str(lower.as_str(), "you do not have '") {
        let pieces = split_on_char(after.as_str(), '\'');
        proof {
            crate::text::lemma_split_char_nonempty(after@, '\'');
        }
        return Some(Some(pieces[0].clone()));
    }
    None
}

/// The tool that a failing job reported as missing, if any.
pub fn find_missing_tool(error_content: &str) -> (r: Option<String>)
    ensures
        match r {
            Some(t) => missing_tool_spec(lines_of(error_content@)) == Some(t@),
            None => missing_tool_spec(lines_of(error_content@)) is None,
        },
{
    let ls = lines(error_content);
    let ghost all = views(ls@);
    let mut i: usize = 0;
    assert(all.skip(0) =~= all);
    while i < ls.len()
        invariant
            all == views(ls@),
            all == lines_of(error_content@),
            i <= ls.len(),
            missing_tool_spec(all) == missing_tool_spec(all.skip(i as int)),
        decreases ls.len() - i,
    {
        let ghost rest = all.skip(i as int);
        assert(rest[0] == ls@[i as int]@);
        assert(rest.skip(1) =~= all.skip(i + 1));
        match missing_tool_in_line_exec(ls[i].as_str()) {
            Some(r) => {
                return r;
            },
            None => {},
        }
        i += 1;
    }
    None
}

/// The hint for a tool missing from the default image.
pub open spec fn missing_tool_hint_spec(tool: Seq<char>) -> Seq<char> {
    join(seq![
        "Hint: `"@ + tool + "` is not in local-ci's default runner image."@,
        Seq::empty(),
        "The default image (ghcr.io/actions/actions-runner:latest) is a minimal"@,
        "container and does not ship system build tools — unlike GitHub's hosted"@,
        "ubuntu-latest, which is a full VM image that is not published as a"@,
        "container and cannot be pulled."@,
        Seq::empty(),
        "To fix this, create a .github/local-ci.Dockerfile in your repo that"@,
        "installs the missing tool. See the runner image docs for recipes:"@,
        "https://github.com/redwoodjs/local-ci/blob/main/packages/cli/runner-image.md"@,
    ], "\n"@)
}

/// Formats the hint for a missing tool.
pub fn format_missing_tool_hint(tool: &str) -> (h: String)
    ensures
        h@ == missing_tool_hint_spec(tool@),
{
    let mut v: Vec<String> = Vec::new();
    v.push(cat3("Hint: `", tool, "` is not in local-ci's default runner image."));
    v.push(String::new());
    v.push(owned("The default image (ghcr.io/actions/actions-runner:latest) is a minimal"));
    v.push(owned("container and does not ship system build tools — unlike GitHub's hosted"));
    v.push(owned("ubuntu-latest, which is a full VM image that is not published as a"));
    v.push(owned("container and cannot be pulled."));
    v.push(String::new());
    v.push(owned("To fix this, create a .github/local-ci.Dockerfile in your repo that"));
    v.push(owned("installs the missing tool. See the runner image docs for recipes:"));
    v.push(owned("https://github.com/redwoodjs/local-ci/blob/main/packages/cli/runner-image.md"));
    assert(views(v@) =~= seq![
        "Hint: `"@ + tool@ + "` is not in local-ci's default runner image."@,
        Seq::empty(),
        "The default image (ghcr.io/actions/actions-runner:latest) is a minimal"@,
        "container and does not ship system build tools — unlike GitHub's hosted"@,
        "ubuntu-latest, which is a full VM image that is not published as a"@,
        "container and cannot be pulled."@,
        Seq::empty(),
        "To fix this, create a .github/local-ci.Dockerfile in your repo that"@,
        "installs the missing tool. See the runner image docs for recipes:"@,
        "https://github.com/redwoodjs/local-ci/blob/main/packages/cli/runner-image.md"@,
    ]);
    join_strings(&v, "\n")
}

/// A hint for a job that failed on a tool missing from the default image.
pub fn detect_missing_tool_hint(error_content: &str, resolved: &ResolvedRunnerImage) -> (r: Option<String>)
    ensures
        match r {
            Some(h) => resolved.source == RunnerImageSource::Default && (missing_tool_spec(lines_of(error_content@)) matches Some(t) && h@ == missing_tool_hint_spec(t)),
            None => resolved.source != RunnerImageSource::Default || missing_tool_spec(lines_of(error_content@)) is None,
        },
{
    let is_default = match resolved.source {
        RunnerImageSource::Default => true,
        _ => false,
    };
    if !is_default {
        return None;
    }
    match find_missing_tool(error_content) {
        Some(tool) => Some(format_missing_tool_hint(tool.as_str())),
        None => None,
    }
}

/// The hint for a tool cache left owned by another user.
pub open spec fn toolcache_hint_spec(dir: Seq<char>) -> Seq<char> {
    join(seq![
        "Hint: extraction under /opt/hostedtoolcache failed because files from a"@,
        "previous run are owned by a user this run can't overwrite. Delete the"@,
        "host-side toolcache and re-run:"@,
        Seq::empty(),
        "    sudo rm -rf "@ + shell_quoted(dir),
    ], "\n"@)
}

/// A hint for tar permission failures in the host-side tool cache.
pub fn detect_toolcache_hint(error_content: &str, tool_cache_dir: Option<&str>) -> (r: Option<String>)
    ensures
        match r {
            Some(h) => (tool_cache_dir matches Some(d) && contains_seq(error_content@, "tar: "@)
                && contains_seq(error_content@, "Cannot open: Permission denied"@) && h@ == toolcache_hint_spec(d@)),
            None => tool_cache_dir is None || !contains_seq(error_content@, "tar: "@)
                || !contains_seq(error_content@, "Cannot open: Permission denied"@),
        },
{
    let dir = match tool_cache_dir {
        Some(d) => d,
        None => {
            return None;
        },
    };
    if !contains(error_content, "tar: ") || !contains(error_content, "Cannot open: Permission denied") {
        return None;
    }
    let mut v: Vec<String> = Vec::new();
    v.push(owned("Hint: extraction under /opt/hostedtoolcache failed because files from a"));
    v.push(owned("previous run are owned by a user this run can't overwrite. Delete the"));
    v.push(owned("host-side toolcache and re-run:"));
    v.push(String::new());
    v.push(cat("    sudo rm -rf ", shell_quote(dir).as_str()));
    assert(views(v@) =~= seq![
        "Hint: extraction under /opt/hostedtoolcache failed because files from a"@,
        "previous run are owned by a user this run can't overwrite. Delete the"@,
        "host-side toolcache and re-run:"@,
        Seq::empty(),
        "    sudo rm -rf "@ + shell_quoted(dir@),
    ]);
    Some(join_strings(&v, "\n"))
}

// ---------------------------------------------------------------------------
// Image tags
// ---------------------------------------------------------------------------

/// The lowercase hexadecimal SHA-256 digest of some bytes.
pub uninterp spec fn sha256_hex(data: Seq<u8>) -> Seq<char>;

/// A lowercase hexadecimal digit.
pub open spec fn lower_hex_digit(c: char) -> bool {
    ('0' <= c && c <= '9') || ('a' <= c && c <= 'f')
}

/// Hashes the bytes with `sha2::Sha256::digest` and writes the digest with `{:x}`. The
/// contract names the digest text and states what generic-array's lower-hex formatting shows:
/// two lowercase hexadecimal digits for each of the 32 digest bytes.
#[verifier::external_body]
pub(crate) fn sha256_hex_of(data: &[u8]) -> (r: String)
    ensures
        r@ == sha256_hex(data@),
        r@.len() == 64,
        forall|i: int| 0 <= i < 64 ==> lower_hex_digit(#[trigger] r@[i]),
{
    format!("{:x}", sha2::Sha256::digest(data))
}

/// The bytes a runner image tag is hashed from, after the Dockerfile: for each context file in
/// path order, a NUL, its path, a NUL and its content.
pub open spec fn context_bytes(paths: Seq<Seq<char>>, contents: Seq<Vec<u8>>, n: int) -> Seq<u8>
    decreases n,
{
    if n <= 0 {
        Seq::empty()
    } else {
        context_bytes(paths, contents, n - 1) + seq![0u8] + vstd::utf8::encode_utf8(paths[n - 1]) + seq![0u8]
            + contents[n - 1]@
    }
}

/// The tag hash of a runner Dockerfile and its build context (empty for a Dockerfile used
/// without one): the first twelve hex digits of the SHA-256 of the Dockerfile followed by the
/// context bytes.
pub open spec fn image_tag_hash(dockerfile: Seq<u8>, context: StrMap<Vec<u8>>) -> Seq<char> {
    sha256_hex(dockerfile + context_bytes(context.keys(), context.values(), context.keys().len() as int)).take(12)
}

/// The hash that tags a runner image built from `dockerfile` with the given context files
/// (path to content).
pub fn runner_image_hash(dockerfile: &Vec<u8>, context: &StrMap<Vec<u8>>) -> (r: String)
    ensures
        r@ == image_tag_hash(dockerfile@, *context),
        r@.len() == 12,
{
    let mut data: Vec<u8> = Vec::new();
    let mut k: usize = 0;
    while k < dockerfile.len()
        invariant
            k <= dockerfile.len(),
            data@ == dockerfile@.take(k as int),
        decreases dockerfile.len() - k,
    {
        data.push(dockerfile[k]);
        k += 1;
        assert(data@ =~= dockerfile@.take(k as int));
    }
    assert(dockerfile@.take(dockerfile.len() as int) =~= dockerfile@);
    let n = context.len();
    let mut i: usize = 0;
    assert(data@ =~= dockerfile@ + context_bytes(context.keys(), context.values(), 0));
    while i < n
        invariant
            i <= n,
            n == context.keys().len(),
            data@ == dockerfile@ + context_bytes(context.keys(), context.values(), i as int),
        decreases n - i,
    {
        let path = context.key_at(i);
        let content = context.value_at(i);
        let path_bytes = path.as_str().as_bytes();
        let ghost before = data@;
        data.push(0u8);
        let mut j: usize = 0;
        while j < path_bytes.len()
            invariant
                j <= path_bytes@.len(),
                data@ == before + seq![0u8] + path_bytes@.take(j as int),
            decreases path_bytes@.len() - j,
        {
            data.push(path_bytes[j]);
            j += 1;
            assert(data@ =~= before + seq![0u8] + path_bytes@.take(j as int));
        }
        assert(path_bytes@.take(path_bytes@.len() as int) =~= path_bytes@);
        data.push(0u8);
        let ghost mid = data@;
        let mut m: usize = 0;
        while m < content.len()
            invariant
                m <= content@.len(),
                data@ == mid + content@.take(m as int),
            decreases content@.len() - m,
        {
            data.push(content[m]);
            m += 1;
            assert(data@ =~= mid + content@.take(m as int));
        }
        assert(content@.take(content@.len() as int) =~= content@);
        proof {
            assert(path_bytes@ == vstd::utf8::encode_utf8(context.keys()[i as int]));
            assert(data@ =~= dockerfile@ + context_bytes(context.keys(), context.values(), i + 1));
        }
        i += 1;
    }
    let digest = sha256_hex_of(data.as_slice());
    let chars = crate::text::chars_of(digest.as_str());
    crate::text::slice_string(chars.as_slice(), 0, 12)
}

} // verus!
