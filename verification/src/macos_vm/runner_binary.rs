use crate::macos_vm::DEFAULT_MACOS_RUNNER_VERSION;
use crate::text::{cat, cat3, cat5, join_path, owned, path_join, trim, trim_str};
use vstd::prelude::*;

verus! {

/// The runner version: a non-blank override, else the default version.
pub fn resolve_macos_runner_version(env_value: Option<&str>) -> (v: String)
    ensures
        v@ == match env_value {
            Some(e) if trim(e@).len() > 0 => trim(e@),
            _ => DEFAULT_MACOS_RUNNER_VERSION@,
        },
{
    if let Some(e) = env_value {
        let t = trim_str(e);
        if !t.as_str().is_empty() {
            return t;
        }
    }
    owned(DEFAULT_MACOS_RUNNER_VERSION)
}

/// The release tarball URL of the macOS arm64 runner.
pub fn macos_runner_tarball_url(version: &str) -> (url: String)
    ensures
        url@ == "https://github.com/actions/runner/releases/download/v"@ + version@
            + "/actions-runner-osx-arm64-"@ + version@ + ".tar.gz"@,
{
    cat5(
        "https://github.com/actions/runner/releases/download/v",
        version,
        "/actions-runner-osx-arm64-",
        version,
        ".tar.gz",
    )
}

/// The file name of the downloaded runner tarball.
pub fn runner_tarball_name(version: &str) -> (name: String)
    ensures
        name@ == "actions-runner-osx-arm64-"@ + version@ + ".tar.gz"@,
{
    cat3("actions-runner-osx-arm64-", version, ".tar.gz")
}

/// The error reported when an extracted runner lacks `run.sh`.
pub fn missing_run_sh_message(dir: &str) -> (m: String)
    ensures
        m@ == "Extracted runner at "@ + dir@ + " does not contain run.sh — tarball structure changed?"@,
{
    cat3("Extracted runner at ", dir, " does not contain run.sh — tarball structure changed?")
}

/// A runner unpacked in the local cache.
#[derive(Debug, Clone, PartialEq, Eq)]
pub struct CachedRunner {
    pub version: String,
    pub dir: String,
}

/// Downloading and unpacking of runner releases, supplied by the caller.
pub trait RunnerBinaryIo {
    fn download_to_file(&mut self, url: &str, dst: &str) -> Result<(), String>;

    fn extract_tarball(&mut self, tarball: &str, dst: &str) -> Result<(), String>;
}

/// How far preparing the cached runner has got: the last thing asked of the host.
#[derive(Debug, Clone, Copy, PartialEq, Eq, Structural)]
pub enum CacheStage {
    Start,
    CheckMarker,
    CheckRunSh,
    MakeDir,
    CheckTarball,
    Download,
    Extract,
    CheckExtracted,
    WriteMarker,
    Done,
}

/// What the host answered: whether a path exists, or how an operation went.
#[derive(Debug)]
pub enum CacheOutcome {
    Nothing,
    Exists(bool),
    Done(Result<(), String>),
}

/// The next thing to do: test whether a path exists, create a directory, download a URL to a
/// file, extract a tarball into a directory, write the marker file, or finish.
#[derive(Debug)]
pub enum CacheAction {
    Exists(String),
    CreateDir(String),
    Download(String, String),
    Extract(String, String),
    WriteMarker(String),
    Finish(Result<CachedRunner, String>),
}

/// The mathematical form of a cache action.
pub enum CacheActionView {
    Exists(Seq<char>),
    CreateDir(Seq<char>),
    Download(Seq<char>, Seq<char>),
    Extract(Seq<char>, Seq<char>),
    WriteMarker(Seq<char>),
    Finish(Result<(Seq<char>, Seq<char>), Seq<char>>),
}

pub open spec fn cache_action_view(a: CacheAction) -> CacheActionView {
    match a {
        CacheAction::Exists(p) => CacheActionView::Exists(p@),
        CacheAction::CreateDir(p) => CacheActionView::CreateDir(p@),
        CacheAction::Download(u, p) => CacheActionView::Download(u@, p@),
        CacheAction::Extract(t, d) => CacheActionView::Extract(t@, d@),
        CacheAction::WriteMarker(p) => CacheActionView::WriteMarker(p@),
        CacheAction::Finish(Ok(c)) => CacheActionView::Finish(Ok((c.version@, c.dir@))),
        CacheAction::Finish(Err(e)) => CacheActionView::Finish(Err(e@)),
    }
}

/// The cache directory of a version.
pub open spec fn cache_dir(root: Seq<char>, version: Seq<char>) -> Seq<char> {
    path_join(root, version)
}

/// The tarball URL of a version.
pub open spec fn tarball_url(version: Seq<char>) -> Seq<char> {
    "https://github.com/actions/runner/releases/download/v"@ + version + "/actions-runner-osx-arm64-"@ + version + ".tar.gz"@
}

/// One step of preparing the cached runner of `version` under `root`. A runner whose
/// directory holds the `.extracted` marker and `run.sh` is reused. Otherwise the directory is
/// created, the release tarball downloaded into it unless it is already there, and extracted;
/// an extraction without `run.sh` fails, else the marker is written. Every failed operation
/// ends with its error; every success names the version and its directory.
pub open spec fn cache_step_spec(root: Seq<char>, version: Seq<char>, stage: CacheStage, o: CacheOutcome) -> (CacheStage, CacheActionView) {
    let dir = cache_dir(root, version);
    let marker = path_join(dir, ".extracted"@);
    let run_sh = path_join(dir, "run.sh"@);
    let tarball = path_join(dir, "actions-runner-osx-arm64-"@ + version + ".tar.gz"@);
    let done = CacheActionView::Finish(Ok((version, dir)));
    match stage {
        CacheStage::Start => (CacheStage::CheckMarker, CacheActionView::Exists(marker)),
        CacheStage::CheckMarker => if o matches CacheOutcome::Exists(true) {
            (CacheStage::CheckRunSh, CacheActionView::Exists(run_sh))
        } else {
            (CacheStage::MakeDir, CacheActionView::CreateDir(dir))
        },
        CacheStage::CheckRunSh => if o matches CacheOutcome::Exists(true) {
            (CacheStage::Done, done)
        } else {
            (CacheStage::MakeDir, CacheActionView::CreateDir(dir))
        },
        CacheStage::MakeDir => match o {
            CacheOutcome::Done(Err(e)) => (CacheStage::Done, CacheActionView::Finish(Err(e@))),
            _ => (CacheStage::CheckTarball, CacheActionView::Exists(tarball)),
        },
        CacheStage::CheckTarball => if o matches CacheOutcome::Exists(true) {
            (CacheStage::Extract, CacheActionView::Extract(tarball, dir))
        } else {
            (CacheStage::Download, CacheActionView::Download(tarball_url(version), tarball))
        },
        CacheStage::Download => match o {
            CacheOutcome::Done(Err(e)) => (CacheStage::Done, CacheActionView::Finish(Err(e@))),
            _ => (CacheStage::Extract, CacheActionView::Extract(tarball, dir)),
        },
        CacheStage::Extract => match o {
            CacheOutcome::Done(Err(e)) => (CacheStage::Done, CacheActionView::Finish(Err(e@))),
            _ => (CacheStage::CheckExtracted, CacheActionView::Exists(run_sh)),
        },
        CacheStage::CheckExtracted => if o matches CacheOutcome::Exists(true) {
            (CacheStage::WriteMarker, CacheActionView::WriteMarker(marker))
        } else {
            (CacheStage::Done, CacheActionView::Finish(Err(
                "Extracted runner at "@ + dir + " does not contain run.sh — tarball structure changed?"@,
            )))
        },
        CacheStage::WriteMarker => match o {
            CacheOutcome::Done(Err(e)) => (CacheStage::Done, CacheActionView::Finish(Err(e@))),
            _ => (CacheStage::Done, done),
        },
        CacheStage::Done => (CacheStage::Done, done),
    }
}

/// Decides the next step in preparing the cached runner.
pub fn runner_cache_step(cache_root: &str, version: &str, stage: CacheStage, outcome: CacheOutcome) -> (r: (CacheStage, CacheAction))
    ensures
        (r.0, cache_action_view(r.1)) == cache_step_spec(cache_root@, version@, stage, outcome),
{
    let dir = join_path(cache_root, version);
    let done = CachedRunner { version: owned(version), dir: dir.clone() };
    match stage {
        CacheStage::Start => (CacheStage::CheckMarker, CacheAction::Exists(join_path(dir.as_str(), ".extracted"))),
        CacheStage::CheckMarker => if let CacheOutcome::Exists(true) = outcome {
            (CacheStage::CheckRunSh, CacheAction::Exists(join_path(dir.as_str(), "run.sh")))
        } else {
            (CacheStage::MakeDir, CacheAction::CreateDir(dir))
        },
        CacheStage::CheckRunSh => if let CacheOutcome::Exists(true) = outcome {
            (CacheStage::Done, CacheAction::Finish(Ok(done)))
        } else {
            (CacheStage::MakeDir, CacheAction::CreateDir(dir))
        },
        CacheStage::MakeDir => match outcome {
            CacheOutcome::Done(Err(e)) => (CacheStage::Done, CacheAction::Finish(Err(e))),
            _ => (CacheStage::CheckTarball, CacheAction::Exists(join_path(dir.as_str(), runner_tarball_name(version).as_str()))),
        },
        CacheStage::CheckTarball => {
            let tarball = join_path(dir.as_str(), runner_tarball_name(version).as_str());
            if let CacheOutcome::Exists(true) = outcome {
                (CacheStage::Extract, CacheAction::Extract(tarball, dir))
            } else {
                (CacheStage::Download, CacheAction::Download(macos_runner_tarball_url(version), tarball))
            }
        },
        CacheStage::Download => match outcome {
            CacheOutcome::Done(Err(e)) => (CacheStage::Done, CacheAction::Finish(Err(e))),
            _ => {
                let tarball = join_path(dir.as_str(), runner_tarball_name(version).as_str());
                (CacheStage::Extract, CacheAction::Extract(tarball, dir))
            },
        },
        CacheStage::Extract => match outcome {
            CacheOutcome::Done(Err(e)) => (CacheStage::Done, CacheAction::Finish(Err(e))),
            _ => (CacheStage::CheckExtracted, CacheAction::Exists(join_path(dir.as_str(), "run.sh"))),
        },
        CacheStage::CheckExtracted => if let CacheOutcome::Exists(true) = outcome {
            (CacheStage::WriteMarker, CacheAction::WriteMarker(join_path(dir.as_str(), ".extracted")))
        } else {
            (CacheStage::Done, CacheAction::Finish(Err(missing_run_sh_message(dir.as_str()))))
        },
        CacheStage::WriteMarker => match outcome {
            CacheOutcome::Done(Err(e)) => (CacheStage::Done, CacheAction::Finish(Err(e))),
            _ => (CacheStage::Done, CacheAction::Finish(Ok(done))),
        },
        CacheStage::Done => (CacheStage::Done, CacheAction::Finish(Ok(done))),
    }
}

} // verus!
