use crate::docker::config::DEFAULT_SOCKET;
use crate::strmap::{StrMap, StrSet};
use crate::text::{
    cat, contains, join, join_path, join_strings, owned, path_join, strip_prefix, trim, trim_str,
    views, is_prefix,
};
use vstd::prelude::*;

verus! {

/// Documentation page about the Docker socket requirements.
pub const DOCS_URL: &'static str = "https://github.com/redwoodjs/local-ci/blob/main/packages/cli/docs/docker-socket.md";

/// A usable Docker endpoint.
#[derive(Debug, Clone, PartialEq, Eq)]
pub struct DockerSocket {
    pub socket_path: String,
    pub uri: String,
    pub bind_mount_path: String,
}

/// Why no Docker socket could be used.
#[derive(Debug, Clone, PartialEq, Eq)]
pub struct DockerSocketError {
    message: String,
}

impl DockerSocketError {
    pub closed spec fn text(self) -> Seq<char> {
        self.message@
    }

    /// An error with the given message.
    pub fn new(message: String) -> (e: Self)
        ensures
            e.text() == message@,
    {
        DockerSocketError { message }
    }

    /// The message contains `needle`.
    pub fn contains(&self, needle: &str) -> (b: bool)
        ensures
            b == crate::text::contains_seq(self.text(), needle@),
    {
        contains(self.message.as_str(), needle)
    }

    /// The full message.
    pub fn message(&self) -> (m: &String)
        ensures
            m@ == self.text(),
    {
        &self.message
    }
}

/// What the host reports about Docker sockets: environment, which paths exist, which
/// resolved paths can be opened, symlink resolutions, the active docker context's host,
/// and the home directory.
#[derive(Debug, Clone, PartialEq, Eq)]
pub struct DockerSocketProbe {
    pub env: StrMap<String>,
    pub existing_paths: StrSet,
    pub accessible_paths: StrSet,
    pub realpaths: StrMap<String>,
    pub docker_context_host: Option<String>,
    pub home: Option<String>,
}

impl DockerSocketProbe {
    pub open spec fn wf(self) -> bool {
        self.env.wf() && self.existing_paths.wf() && self.accessible_paths.wf() && self.realpaths.wf()
    }

    pub open spec fn exists_spec(self, path: Seq<char>) -> bool {
        self.existing_paths.members().contains(path)
    }

    /// The path after symlink resolution.
    pub open spec fn resolved_spec(self, path: Seq<char>) -> Seq<char> {
        match self.realpaths.lookup(path) {
            Some(r) => r@,
            None => path,
        }
    }

    /// The resolved path when `path` exists and its resolution can be opened.
    pub open spec fn resolve_spec(self, path: Seq<char>) -> Option<Seq<char>> {
        if self.exists_spec(path) && self.accessible_paths.members().contains(self.resolved_spec(path)) {
            Some(self.resolved_spec(path))
        } else {
            None
        }
    }

    /// Docker Desktop is running with its own socket but not the default one.
    pub open spec fn desktop_without_default_spec(self) -> bool {
        match self.home {
            Some(h) => self.exists_spec(path_join(h@, ".docker/run/docker.sock"@)),
            None => false,
        }
    }

    /// `path` exists.
    pub fn path_exists(&self, path: &str) -> (b: bool)
        requires
            self.wf(),
        ensures
            b == self.exists_spec(path@),
    {
        self.existing_paths.contains(path)
    }

    /// The resolved path, when `path` exists and the resolution is accessible.
    pub fn resolve_if_exists(&self, path: &str) -> (r: Option<String>)
        requires
            self.wf(),
        ensures
            match r {
                Some(x) => self.resolve_spec(path@) == Some(x@),
                None => self.resolve_spec(path@) is None,
            },
    {
        let resolved = match self.realpaths.get(path) {
            Some(r) => r.clone(),
            None => owned(path),
        };
        if self.path_exists(path) && self.accessible_paths.contains(resolved.as_str()) {
            Some(resolved)
        } else {
            None
        }
    }

    /// Docker Desktop's own socket exists under the home directory.
    pub fn docker_desktop_running_without_default_socket(&self) -> (b: bool)
        requires
            self.wf(),
        ensures
            b == self.desktop_without_default_spec(),
    {
        match &self.home {
            Some(h) => {
                let p = join_path(h.as_str(), ".docker/run/docker.sock");
                self.path_exists(p.as_str())
            },
            None => false,
        }
    }
}

/// The lines of the error explaining that no socket could be used.
pub open spec fn unusable_lines(probe: DockerSocketProbe, detail: Seq<char>) -> Seq<Seq<char>> {
    seq![
        "local-ci couldn't use a Docker socket at /var/run/docker.sock."@,
        detail,
        Seq::empty(),
        "A working Docker socket is required there (or set LOCAL_CI_DOCKER_HOST explicitly)."@,
    ] + (if probe.desktop_without_default_spec() {
        seq![
            Seq::empty(),
            "Docker Desktop is running but the default socket is disabled."@,
            "Enable it: Docker Desktop → Settings → Advanced →"@,
            "  \"Allow the default Docker socket to be used (requires password)\" → Apply & Restart."@,
        ]
    } else {
        Seq::empty()
    }) + seq![Seq::empty(), "See: "@ + DOCS_URL@]
}

pub open spec fn unusable_message(probe: DockerSocketProbe, detail: Seq<char>) -> Seq<char> {
    join(unusable_lines(probe, detail), "\n"@)
}

/// Builds the error for an unusable socket.
pub fn unusable_socket_error(probe: &DockerSocketProbe, detail: &str) -> (e: DockerSocketError)
    requires
        probe.wf(),
    ensures
        e.text() == unusable_message(*probe, detail@),
{
    let mut lines: Vec<String> = Vec::new();
    lines.push(owned("local-ci couldn't use a Docker socket at /var/run/docker.sock."));
    lines.push(owned(detail));
    lines.push(String::new());
    lines.push(owned("A working Docker socket is required there (or set LOCAL_CI_DOCKER_HOST explicitly)."));
    if probe.docker_desktop_running_without_default_socket() {
        lines.push(String::new());
        lines.push(owned("Docker Desktop is running but the default socket is disabled."));
        lines.push(owned("Enable it: Docker Desktop → Settings → Advanced →"));
        lines.push(owned("  \"Allow the default Docker socket to be used (requires password)\" → Apply & Restart."));
    }
    lines.push(String::new());
    lines.push(cat("See: ", DOCS_URL));
    assert(views(lines@) =~= unusable_lines(*probe, detail@));
    DockerSocketError::new(join_strings(&lines, "\n"))
}

/// A socket record.
pub open spec fn socket_of(path: Seq<char>, uri: Seq<char>, bind: Seq<char>) -> (Seq<char>, Seq<char>, Seq<char>) {
    (path, uri, bind)
}

/// Which Docker endpoint to use, or the error message, as a function of the probe.
pub open spec fn socket_resolution(p: DockerSocketProbe) -> Result<(Seq<char>, Seq<char>, Seq<char>), Seq<char>> {
    let env_host = match p.env.lookup("LOCAL_CI_DOCKER_HOST"@) {
        Some(v) => trim(v@),
        None => Seq::empty(),
    };
    if env_host.len() > 0 {
        let h = env_host;
        if !is_prefix("unix://"@, h) {
            Ok(socket_of(Seq::empty(), h, Seq::empty()))
        } else {
            let path = h.skip(7);
            match p.resolve_spec(path) {
                Some(r) => Ok(socket_of(r, "unix://"@ + r, path)),
                None => Err(unusable_message(
                    p,
                    "LOCAL_CI_DOCKER_HOST="@ + h + " does not resolve to a working socket."@,
                )),
            }
        }
    } else if !p.exists_spec(DEFAULT_SOCKET@) {
        Err(unusable_message(p, DEFAULT_SOCKET@ + " is missing or a dangling symlink."@))
    } else {
        match p.resolve_spec(DEFAULT_SOCKET@) {
            Some(r) => Ok(socket_of(r, "unix://"@ + r, DEFAULT_SOCKET@)),
            None => {
                let fallback = match p.docker_context_host {
                    Some(c) => if is_prefix("unix://"@, c@) && p.exists_spec(c@.skip(7)) {
                        Some(c@.skip(7))
                    } else {
                        None
                    },
                    None => None,
                };
                match fallback {
                    Some(path) => Ok(socket_of(path, "unix://"@ + path, DEFAULT_SOCKET@)),
                    None => Err(unusable_message(
                        p,
                        DEFAULT_SOCKET@
                            + " exists but is not readable, and no active docker context provides an alternative."@,
                    )),
                }
            },
        }
    }
}

fn socket(path: String, bind: &str) -> (s: DockerSocket)
    ensures
        s.socket_path@ == path@,
        s.uri@ == "unix://"@ + path@,
        s.bind_mount_path@ == bind@,
{
    let uri = cat("unix://", path.as_str());
    DockerSocket { socket_path: path, uri, bind_mount_path: owned(bind) }
}

/// Chooses the Docker endpoint: an explicit `LOCAL_CI_DOCKER_HOST`, the default socket, or
/// the active docker context's socket.
pub fn resolve_docker_socket(probe: &DockerSocketProbe) -> (r: Result<DockerSocket, DockerSocketError>)
    requires
        probe.wf(),
    ensures
        match r {
            Ok(s) => socket_resolution(*probe) == Ok::<_, Seq<char>>(
                socket_of(s.socket_path@, s.uri@, s.bind_mount_path@),
            ),
            Err(e) => socket_resolution(*probe) == Err::<(Seq<char>, Seq<char>, Seq<char>), _>(e.text()),
        },
{
    proof {
        reveal_strlit("unix://");
    }
    let env_host = match probe.env.get("LOCAL_CI_DOCKER_HOST") {
        Some(v) => Some(trim_str(v.as_str())),
        None => None,
    };
    if let Some(h) = env_host {
        if !h.as_str().is_empty() {
            match strip_prefix(h.as_str(), "unix://") {
                None => {
                    return Ok(DockerSocket { socket_path: String::new(), uri: h, bind_mount_path: String::new() });
                },
                Some(path) => {
                    match probe.resolve_if_exists(path.as_str()) {
                        Some(resolved) => {
                            return Ok(socket(resolved, path.as_str()));
                        },
                        None => {
                            let detail = crate::text::cat3("LOCAL_CI_DOCKER_HOST=", h.as_str(), " does not resolve to a working socket.");
                            return Err(unusable_socket_error(probe, detail.as_str()));
                        },
                    }
                },
            }
        }
    }
    if !probe.path_exists(DEFAULT_SOCKET) {
        let detail = cat(DEFAULT_SOCKET, " is missing or a dangling symlink.");
        return Err(unusable_socket_error(probe, detail.as_str()));
    }
    if let Some(resolved) = probe.resolve_if_exists(DEFAULT_SOCKET) {
        return Ok(socket(resolved, DEFAULT_SOCKET));
    }
    if let Some(context_host) = &probe.docker_context_host {
        if let Some(path) = strip_prefix(context_host.as_str(), "unix://") {
            if probe.path_exists(path.as_str()) {
                let copy = path.clone();
                return Ok(socket(path, DEFAULT_SOCKET));
            }
        }
    }
    let detail = cat(
        DEFAULT_SOCKET,
        " exists but is not readable, and no active docker context provides an alternative.",
    );
    Err(unusable_socket_error(probe, detail.as_str()))
}

} // verus!
