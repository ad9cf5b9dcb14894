use crate::strmap::StrMap;
use crate::text::{
    cat, contains_seq, first_index_of, first_occurrence, owned, split_on_char, split_once_char,
    split_once_str, split_whitespace, str_eq, trim, trim_str, views, words, is_ws, join,
    join_strings, push_char, chars_of, char_is_ws,
};
use vstd::prelude::*;

verus! {

/// The Docker socket path used when nothing else is configured.
pub const DEFAULT_SOCKET: &'static str = "/var/run/docker.sock";

/// Host name under which containers reach the DTU server by default.
pub const DEFAULT_DTU_HOST_ALIAS: &'static str = "host.docker.internal";

/// Docker's special gateway value for `--add-host`.
pub const DEFAULT_DOCKER_HOST_GATEWAY: &'static str = "host-gateway";

// ---------------------------------------------------------------------------
// Container options
// ---------------------------------------------------------------------------

/// The `--env` and `--label` values found in a container `options` string.
#[derive(Debug, Clone, PartialEq, Eq)]
pub struct ParsedContainerOptions {
    pub env: Vec<String>,
    pub labels: StrMap<String>,
}

/// Scans option words from index `i`: collects `--env`/`-e` values and `--label`/`-l` entries.
pub open spec fn env_option_values(w: Seq<Seq<char>>, i: int) -> Seq<Seq<char>>
    decreases w.len() - i,
{
    if i >= w.len() {
        Seq::empty()
    } else if (w[i] == "--env"@ || w[i] == "-e"@) && i + 1 < w.len() {
        seq![w[i + 1]] + env_option_values(w, i + 2)
    } else if (w[i] == "--label"@ || w[i] == "-l"@) && i + 1 < w.len() {
        env_option_values(w, i + 2)
    } else {
        env_option_values(w, i + 1)
    }
}

/// The label tokens (`key=value` or bare keys) in order.
pub open spec fn label_option_tokens(w: Seq<Seq<char>>, i: int) -> Seq<Seq<char>>
    decreases w.len() - i,
{
    if i >= w.len() {
        Seq::empty()
    } else if (w[i] == "--env"@ || w[i] == "-e"@) && i + 1 < w.len() {
        label_option_tokens(w, i + 2)
    } else if (w[i] == "--label"@ || w[i] == "-l"@) && i + 1 < w.len() {
        seq![w[i + 1]] + label_option_tokens(w, i + 2)
    } else {
        label_option_tokens(w, i + 1)
    }
}

/// The key of a label token: the text before the first `=`, or the whole token.
pub open spec fn label_key(t: Seq<char>) -> Seq<char> {
    if t.contains('=') {
        t.take(choose|i: int| first_index_of(t, '=', i))
    } else {
        t
    }
}

/// The value of a label token: the text after the first `=`, or empty.
pub open spec fn label_value(t: Seq<char>) -> Seq<char> {
    if t.contains('=') {
        t.skip((choose|i: int| first_index_of(t, '=', i)) + 1)
    } else {
        Seq::empty()
    }
}

/// The label map after inserting the first `n` label tokens in order.
pub open spec fn labels_after(tokens: Seq<Seq<char>>, n: int, m: StrMap<String>) -> bool {
    &&& m.wf()
    &&& forall|k: Seq<char>|
        #![trigger m.lookup(k)]
        (m.lookup(k) is Some <==> exists|j: int| 0 <= j < n && label_key(tokens[j]) == k)
    &&& forall|k: Seq<char>, j: int|
        #![trigger m.lookup(k), label_key(tokens[j])]
        0 <= j < n && label_key(tokens[j]) == k && (forall|l: int|
            j < l < n ==> label_key(#[trigger] tokens[l]) != k) ==> m.lookup(k)->0@ == label_value(
            tokens[j],
        )
}

fn is_env_flag(w: &str) -> (b: bool)
    ensures
        b == (w@ == "--env"@ || w@ == "-e"@),
{
    str_eq(w, "--env") || str_eq(w, "-e")
}

fn is_label_flag(w: &str) -> (b: bool)
    ensures
        b == (w@ == "--label"@ || w@ == "-l"@),
{
    str_eq(w, "--label") || str_eq(w, "-l")
}

/// Splits a label token at its first `=`.
fn split_label(t: &str) -> (r: (String, String))
    ensures
        r.0@ == label_key(t@),
        r.1@ == label_value(t@),
{
    match split_once_char(t, '=') {
        Some(p) => {
            proof {
                let i = choose|i: int|
                    first_index_of(t@, '=', i) && p.0@ == t@.take(i) && p.1@ == t@.skip(i + 1);
                let j = choose|j: int| first_index_of(t@, '=', j);
                assert(i == j);
            }
            p
        },
        None => (owned(t), String::new()),
    }
}

/// Collects `--env`/`-e` values and `--label`/`-l` key/value pairs from an options string.
pub fn parse_container_options(options: Option<&str>) -> (parsed: ParsedContainerOptions)
    ensures
        parsed.labels.wf(),
        options is None ==> parsed.env@.len() == 0 && parsed.labels.pairs().len() == 0,
        options matches Some(o) ==> views(parsed.env@) == env_option_values(words(o@), 0),
        options matches Some(o) ==> labels_after(
            label_option_tokens(words(o@), 0),
            label_option_tokens(words(o@), 0).len() as int,
            parsed.labels,
        ),
{
    let mut env: Vec<String> = Vec::new();
    let mut labels: StrMap<String> = StrMap::new();
    let options = match options {
        Some(o) => o,
        None => {
            return ParsedContainerOptions { env, labels };
        },
    };
    let tokens = split_whitespace(options);
    let ghost w = words(options@);
    let ghost all_labels = label_option_tokens(w, 0);
    let mut index: usize = 0;
    let ghost mut seen: int = 0;
    while index < tokens.len()
        invariant
            views(tokens@) == w,
            index <= tokens@.len() + 1,
            views(env@) + env_option_values(w, index as int) == env_option_values(w, 0),
            0 <= seen <= all_labels.len(),
            all_labels.subrange(seen, all_labels.len() as int) == label_option_tokens(w, index as int),
            labels_after(all_labels, seen, labels),
        decreases tokens.len() + 1 - index,
    {
        assert(tokens@[index as int]@ == w[index as int]);
        if is_env_flag(tokens[index].as_str()) && index + 1 < tokens.len() {
            index += 1;
            let value = tokens[index].clone();
            proof {
                assert(views(env@.push(value)) =~= views(env@).push(value@));
                assert(value@ == w[index as int]);
            }
            env.push(value);
        } else if is_label_flag(tokens[index].as_str()) && index + 1 < tokens.len() {
            index += 1;
            let (key, value) = split_label(tokens[index].as_str());
            proof {
                assert(label_option_tokens(w, index - 1) == seq![w[index as int]]
                    + label_option_tokens(w, index + 1));
                assert(all_labels[seen] == w[index as int]) by {
                    assert(all_labels.subrange(seen, all_labels.len() as int)[0] == w[index as int]);
                }
                assert(all_labels.subrange(seen + 1, all_labels.len() as int) =~= all_labels.subrange(
                    seen,
                    all_labels.len() as int,
                ).skip(1));
            }
            let ghost old_labels = labels;
            labels.insert(key, value);
            proof {
                let n = seen + 1;
                assert forall|k: Seq<char>|
                    #![trigger labels.lookup(k)]
                    (labels.lookup(k) is Some <==> exists|j: int|
                        0 <= j < n && label_key(all_labels[j]) == k) by {
                    if k == key@ {
                        assert(label_key(all_labels[seen]) == k);
                    } else {
                        if exists|j: int| 0 <= j < n && label_key(all_labels[j]) == k {
                            let j = choose|j: int| 0 <= j < n && label_key(all_labels[j]) == k;
                            assert(j < seen);
                        }
                    }
                }
                assert forall|k: Seq<char>, j: int|
                    #![trigger labels.lookup(k), label_key(all_labels[j])]
                    0 <= j < n && label_key(all_labels[j]) == k && (forall|l: int|
                        j < l < n ==> label_key(#[trigger] all_labels[l]) != k) implies labels.lookup(
                    k,
                )->0@ == label_value(all_labels[j]) by {
                    if k == key@ {
                        if j < seen {
                            assert(label_key(all_labels[seen]) != k);
                        }
                    } else {
                        assert(j < seen);
                        assert(old_labels.lookup(k) == labels.lookup(k));
                        assert(forall|l: int| j < l < seen ==> label_key(#[trigger] all_labels[l]) != k);
                    }
                }
                seen = n;
            }
        }
        index += 1;
    }
    proof {
        assert(env_option_values(w, index as int) == Seq::<Seq<char>>::empty());
        assert(views(env@) =~= env_option_values(w, 0));
        assert(label_option_tokens(w, index as int) == Seq::<Seq<char>>::empty());
        assert(seen == all_labels.len());
    }
    ParsedContainerOptions { env, labels }
}

// ---------------------------------------------------------------------------
// Runner container environment
// ---------------------------------------------------------------------------

/// Inputs for the runner container's environment.
#[derive(Debug, Clone, PartialEq, Eq)]
pub struct ContainerEnvOpts {
    pub container_name: String,
    pub registration_token: String,
    pub repo_url: String,
    pub docker_api_url: String,
    pub github_repo: String,
    pub head_sha: Option<String>,
    pub dtu_host: String,
    pub use_direct_container: bool,
}

pub open spec fn head_sha_or_head(o: ContainerEnvOpts) -> Seq<char> {
    match o.head_sha {
        Some(s) => s@,
        None => "HEAD"@,
    }
}

/// The runner container's environment, in order.
pub open spec fn container_env_spec(o: ContainerEnvOpts) -> Seq<Seq<char>> {
    seq![
        "RUNNER_NAME="@ + o.container_name@,
        "RUNNER_TOKEN="@ + o.registration_token@,
        "RUNNER_REPOSITORY_URL="@ + o.repo_url@,
        "GITHUB_API_URL="@ + o.docker_api_url@,
        "GITHUB_SERVER_URL="@ + o.repo_url@,
        "GITHUB_REPOSITORY="@ + o.github_repo@,
        "LOCAL_CI_LOCAL=true"@,
        "LOCAL_CI_LOCAL_SYNC=true"@,
        "LOCAL_CI_HEAD_SHA="@ + head_sha_or_head(o),
        "LOCAL_CI_DTU_HOST="@ + o.dtu_host@,
        "AGENT_CI_LOCAL=true"@,
        "AGENT_CI_LOCAL_SYNC=true"@,
        "AGENT_CI_HEAD_SHA="@ + head_sha_or_head(o),
        "AGENT_CI_DTU_HOST="@ + o.dtu_host@,
        "ACTIONS_CACHE_URL="@ + o.docker_api_url@ + "/"@,
        "ACTIONS_RESULTS_URL="@ + o.docker_api_url@ + "/"@,
        "ACTIONS_RUNTIME_TOKEN=mock_cache_token_123"@,
        "RUNNER_TOOL_CACHE=/opt/hostedtoolcache"@,
        "PATH=/home/runner/externals/node24/bin:/home/runner/externals/node20/bin:/usr/local/sbin:/usr/local/bin:/usr/sbin:/usr/bin:/sbin:/bin"@,
        "FORCE_COLOR=1"@,
    ] + if o.use_direct_container {
        seq!["RUNNER_ALLOW_RUNASROOT=1"@, "DOTNET_SYSTEM_GLOBALIZATION_INVARIANT=1"@]
    } else {
        Seq::empty()
    }
}

/// Builds the runner container's environment variables.
pub fn build_container_env(opts: &ContainerEnvOpts) -> (env: Vec<String>)
    ensures
        views(env@) == container_env_spec(*opts),
{
    let sha: &str = match &opts.head_sha {
        Some(s) => s.as_str(),
        None => "HEAD",
    };
    let mut env: Vec<String> = Vec::new();
    env.push(cat("RUNNER_NAME=", opts.container_name.as_str()));
    env.push(cat("RUNNER_TOKEN=", opts.registration_token.as_str()));
    env.push(cat("RUNNER_REPOSITORY_URL=", opts.repo_url.as_str()));
    env.push(cat("GITHUB_API_URL=", opts.docker_api_url.as_str()));
    env.push(cat("GITHUB_SERVER_URL=", opts.repo_url.as_str()));
    env.push(cat("GITHUB_REPOSITORY=", opts.github_repo.as_str()));
    env.push(owned("LOCAL_CI_LOCAL=true"));
    env.push(owned("LOCAL_CI_LOCAL_SYNC=true"));
    env.push(cat("LOCAL_CI_HEAD_SHA=", sha));
    env.push(cat("LOCAL_CI_DTU_HOST=", opts.dtu_host.as_str()));
    env.push(owned("AGENT_CI_LOCAL=true"));
    env.push(owned("AGENT_CI_LOCAL_SYNC=true"));
    env.push(cat("AGENT_CI_HEAD_SHA=", sha));
    env.push(cat("AGENT_CI_DTU_HOST=", opts.dtu_host.as_str()));
    env.push(crate::text::cat3("ACTIONS_CACHE_URL=", opts.docker_api_url.as_str(), "/"));
    env.push(crate::text::cat3("ACTIONS_RESULTS_URL=", opts.docker_api_url.as_str(), "/"));
    env.push(owned("ACTIONS_RUNTIME_TOKEN=mock_cache_token_123"));
    env.push(owned("RUNNER_TOOL_CACHE=/opt/hostedtoolcache"));
    env.push(
        owned(
            "PATH=/home/runner/externals/node24/bin:/home/runner/externals/node20/bin:/usr/local/sbin:/usr/local/bin:/usr/sbin:/usr/bin:/sbin:/bin",
        ),
    );
    env.push(owned("FORCE_COLOR=1"));
    if opts.use_direct_container {
        env.push(owned("RUNNER_ALLOW_RUNASROOT=1"));
        env.push(owned("DOTNET_SYSTEM_GLOBALIZATION_INVARIANT=1"));
    }
    assert(views(env@) =~= container_env_spec(*opts));
    env
}

} // verus!

verus! {

// ---------------------------------------------------------------------------
// Bind mounts
// ---------------------------------------------------------------------------

/// Inputs for the runner container's bind mounts.
#[derive(Debug, Clone, PartialEq, Eq)]
pub struct ContainerBindsOpts {
    pub host_work_dir: String,
    pub shims_dir: String,
    pub signals_dir: Option<String>,
    pub diag_dir: String,
    pub tool_cache_dir: String,
    pub pnpm_store_dir: Option<String>,
    pub npm_cache_dir: Option<String>,
    pub yarn_cache_dir: Option<String>,
    pub bun_cache_dir: Option<String>,
    pub playwright_cache_dir: String,
    pub cypress_cache_dir: Option<String>,
    pub host_runner_dir: String,
    pub use_direct_container: bool,
    pub github_repo: String,
    pub docker_socket_path: Option<String>,
}

/// `[dir + suffix]` when the directory is given, else nothing.
pub open spec fn opt_bind(dir: Option<String>, suffix: Seq<char>) -> Seq<Seq<char>> {
    match dir {
        Some(d) => seq![d@ + suffix],
        None => Seq::empty(),
    }
}

/// The runner container's bind mounts, in order.
pub open spec fn container_binds_spec(o: ContainerBindsOpts) -> Seq<Seq<char>> {
    let sock = match o.docker_socket_path {
        Some(p) => p@,
        None => DEFAULT_SOCKET@,
    };
    (if o.use_direct_container {
        seq![o.host_runner_dir@ + ":/home/runner"@]
    } else {
        Seq::empty()
    }) + seq![
        o.host_work_dir@ + ":/home/runner/_work"@,
        sock + ":/var/run/docker.sock"@,
        o.shims_dir@ + ":/tmp/local-ci-shims"@,
    ] + opt_bind(o.signals_dir, ":/tmp/local-ci-signals"@) + seq![
        o.diag_dir@ + ":/home/runner/_diag"@,
        o.tool_cache_dir@ + ":/opt/hostedtoolcache"@,
    ] + opt_bind(o.pnpm_store_dir, ":/home/runner/_work/.pnpm-store"@) + opt_bind(
        o.npm_cache_dir,
        ":/home/runner/.npm"@,
    ) + opt_bind(o.yarn_cache_dir, ":/home/runner/.cache/yarn"@) + opt_bind(
        o.bun_cache_dir,
        ":/home/runner/.bun"@,
    ) + seq![o.playwright_cache_dir@ + ":/home/runner/.cache/ms-playwright"@] + opt_bind(
        o.cypress_cache_dir,
        ":/home/runner/.cache/Cypress"@,
    )
}

fn push_opt_bind(binds: &mut Vec<String>, dir: &Option<String>, suffix: &str)
    ensures
        views(final(binds)@) == views(old(binds)@) + opt_bind(*dir, suffix@),
{
    match dir {
        Some(d) => {
            let b = cat(d.as_str(), suffix);
            binds.push(b);
            assert(views(final(binds)@) =~= views(old(binds)@) + opt_bind(*dir, suffix@));
        },
        None => {
            assert(views(final(binds)@) =~= views(old(binds)@) + opt_bind(*dir, suffix@));
        },
    }
}

fn push_str(v: &mut Vec<String>, s: String)
    ensures
        views(final(v)@) == views(old(v)@).push(s@),
{
    v.push(s);
    assert(views(final(v)@) =~= views(old(v)@).push(s@));
}

/// Builds the runner container's bind mounts.
pub fn build_container_binds(opts: &ContainerBindsOpts) -> (binds: Vec<String>)
    ensures
        views(binds@) == container_binds_spec(*opts),
{
    let sock: &str = match &opts.docker_socket_path {
        Some(p) => p.as_str(),
        None => DEFAULT_SOCKET,
    };
    let mut binds: Vec<String> = Vec::new();
    if opts.use_direct_container {
        push_str(&mut binds, cat(opts.host_runner_dir.as_str(), ":/home/runner"));
    }
    let ghost a = views(binds@);
    push_str(&mut binds, cat(opts.host_work_dir.as_str(), ":/home/runner/_work"));
    push_str(&mut binds, cat(sock, ":/var/run/docker.sock"));
    push_str(&mut binds, cat(opts.shims_dir.as_str(), ":/tmp/local-ci-shims"));
    let ghost b = views(binds@);
    push_opt_bind(&mut binds, &opts.signals_dir, ":/tmp/local-ci-signals");
    let ghost c = views(binds@);
    push_str(&mut binds, cat(opts.diag_dir.as_str(), ":/home/runner/_diag"));
    push_str(&mut binds, cat(opts.tool_cache_dir.as_str(), ":/opt/hostedtoolcache"));
    let ghost d = views(binds@);
    push_opt_bind(&mut binds, &opts.pnpm_store_dir, ":/home/runner/_work/.pnpm-store");
    push_opt_bind(&mut binds, &opts.npm_cache_dir, ":/home/runner/.npm");
    push_opt_bind(&mut binds, &opts.yarn_cache_dir, ":/home/runner/.cache/yarn");
    push_opt_bind(&mut binds, &opts.bun_cache_dir, ":/home/runner/.bun");
    push_str(&mut binds, cat(opts.playwright_cache_dir.as_str(), ":/home/runner/.cache/ms-playwright"));
    push_opt_bind(&mut binds, &opts.cypress_cache_dir, ":/home/runner/.cache/Cypress");
    assert(views(binds@) =~= container_binds_spec(*opts));
    binds
}

/// Commands that make the runner's cache directories writable.
pub fn cache_permission_fix_commands() -> (cmds: Vec<String>)
    ensures
        views(cmds@) == seq![
            "MAYBE_SUDO chmod 1777 /home/runner/.cache 2>/dev/null || true"@,
            "MAYBE_SUDO chmod 1777 /home/runner/_work 2>/dev/null || true"@,
        ],
{
    // Playwright and Cypress live under /home/runner/.cache. Bind mounts can create that
    // parent as root, so it is made writable before package installers populate it.
    let mut cmds: Vec<String> = Vec::new();
    push_str(&mut cmds, owned("MAYBE_SUDO chmod 1777 /home/runner/.cache 2>/dev/null || true"));
    push_str(&mut cmds, owned("MAYBE_SUDO chmod 1777 /home/runner/_work 2>/dev/null || true"));
    cmds
}

/// Command that lets the runner user use the mounted Docker socket.
pub fn docker_socket_permission_fix_command() -> (cmd: String)
    ensures
        cmd@ == "MAYBE_SUDO chmod 666 /var/run/docker.sock 2>/dev/null || true"@,
{
    owned("MAYBE_SUDO chmod 666 /var/run/docker.sock 2>/dev/null || true")
}

// ---------------------------------------------------------------------------
// Container command
// ---------------------------------------------------------------------------

/// Inputs for the runner container's command.
#[derive(Debug, Clone, PartialEq, Eq)]
pub struct ContainerCmdOpts {
    pub dtu_port: String,
    pub dtu_host: String,
    pub use_direct_container: bool,
    pub container_name: String,
}

/// The `http://host:port` base URL of the DTU server as seen from the container.
pub open spec fn dtu_base_url_spec(o: ContainerCmdOpts) -> Seq<char> {
    "http://"@ + o.dtu_host@ + ":"@ + o.dtu_port@
}

/// Shell snippet that pre-writes runner credentials (empty for direct containers).
pub open spec fn credential_snippet_spec(o: ContainerCmdOpts) -> Seq<char> {
    if o.use_direct_container {
        Seq::empty()
    } else {
        let u = dtu_base_url_spec(o);
        "echo '{\"agentId\":1,\"agentName\":\""@ + o.container_name@ + "\",\"poolId\":1,\"poolName\":\"Default\",\"serverUrl\":\""@ + u + "\",\"gitHubUrl\":\""@ + u + "/'$GITHUB_REPOSITORY'\",\"workFolder\":\"_work\",\"ephemeral\":true}' > /home/runner/.runner && echo '{\"scheme\":\"OAuth\",\"data\":{\"clientId\":\"00000000-0000-0000-0000-000000000000\",\"authorizationUrl\":\""@ + u + "/_apis/oauth2/token\",\"oAuthEndpointUrl\":\""@ + u + "/_apis/oauth2/token\",\"requireFipsCryptography\":\"False\"}}' > /home/runner/.credentials && echo '{\"d\":\"CQpCI+sO2GD1N/JsHHI9zEhMlu5Fcc8mU4O2bO6iscOsagFjvEnTesJgydC/Go1HuOBlx+GT9EG2h7+juS0z2o5n8Mvt5BBxlK+tqoDOs8VfQ9CSUl3hqYRPeNdBfnA1w8ovLW0wqfPO08FWTLI0urYsnwjZ5BQrBM+D7zYeA0aCsKdo75bKmaEKnmqrtIEhb7hE45XQa32Yt0RPCPi8QcQAY2HLHbdWdZYDj6k/UuDvz9H/xlDzwYq6Yikk2RSMArFzaufxCGS9tBZNEACDPYgnZnEMXRcvsnZ9FYbq81KOSifCmq7Yocq+j3rY5zJCD+PIDY9QJwPxB4PGasRKAQ==\",\"dp\":\"A0sY1oOz1+3uUMiy+I5xGuHGHOrEQPYspd1xGClBYYsa/Za0UDWS7V0Tn1cbRWfWtNe5vTpxcvwQd6UZBwrtHF6R2zyXFhE++PLPhCe0tH4C5FY9i9jUw9Vo8t44i/s5JUHU2B1mEptXFUA0GcVrLKS8toZSgqELSS2Q/YLRxoE=\",\"dq\":\"GrLC9dPJ5n3VYw51ghCH7tybUN9/Oe4T8d9v4dLQ34RQEWHwRd4g3U3zkvuhpXFPloUTMmkxS7MF5pS1evrtzkay4QUTDv+28s0xRuAsw5qNTzuFygg8t93MvpvTVZ2TNApW6C7NFvkL9NbxAnU8+I61/3ow7i6a7oYJJ0hWAxE=\",\"exponent\":\"AQAB\",\"inverseQ\":\"8DVz9FSvEdt5W4B9OjgakZHwGfnhn2VLDUxrsR5ilC5tPC/IgA8C2xEfKQM1t+K/N3pAYHBYQ6EPgtW4kquBS/Sy102xbRI7GSCnUbRtTpWYPOaCn6EaxBNzwWzbp5vCbCGvFqlSu4+OBYRVe+iCj+gAnkmT/TKPhHHbTjJHvw==\",\"modulus\":\"x0eoW2DD7xsW5YiorMN8pNHVvZk4ED1SHlA/bmVnRz5FjEDnQloMn0nBgIUHxoNArksknrp/FOVJv5sJHJTiRZkOp+ZmH7d3W3gmw63IxK2C5pV+6xfav9jR2+Wt/6FMYMgG2utBdF95oif1f2XREFovHoXkWms2l0CPLLHVPO44Hh9EEmBmjOeMJEZkulHJ44z9y8e+GZ2nYqO0ZiRWQcRObZ0vlRaGg6PPOl4ltay0BfNksMB3NDtlhkdVkAEFQxEaZZDK9NtkvNljXCioP3TyTAbqNUGsYCA5D+IHGZT9An99J9vUqTFP6TKjqUvy9WNiIzaUksCySA0a4SVBkQ==\",\"p\":\"8fgAdmWy+sTzAN19fYkWMQqeC7t1BCQMo5z5knfVLg8TtwP9ZGqDtoe+r0bGv3UgVsvvDdP/QwRvRVP+5G9l999Y6b4VbSdUbrfPfOgjpPDmRTQzHDve5jh5xBENQoRXYm7PMgHGmjwuFsE/tKtSGTrvt2Z3qcYAo0IOqLLhYmE=\",\"q\":\"0tXx4+P7gUWePf92UJLkzhNBClvdnmDbIt52Lui7YCARczbN/asCDJxcMy6Bh3qmIx/bNuOUrfzHkYZHfnRw8AGEK80qmiLLPI6jrUBOGRajmzemGQx0W8FWalEQfGdNIv9R2nsegDRoMq255Zo/qX60xQ6abpp0c6UNhVYSjTE=\"}' > /home/runner/.credentials_rsaparams && "@
    }
}

/// The boot commands of the runner container, joined with ` && ` into its script.
pub open spec fn container_script_parts(o: ContainerCmdOpts) -> Seq<Seq<char>> {
    seq![
        "MAYBE_SUDO() { if command -v sudo >/dev/null 2>&1; then sudo -n \"$@\"; else \"$@\"; fi; }"@,
        "BOOT_T0=$(date +%s%3N); T0=$BOOT_T0"@,
        "if [ -f /usr/bin/git ]; then MAYBE_SUDO mv /usr/bin/git /usr/bin/git.real 2>/dev/null || true; MAYBE_SUDO cp -p /tmp/local-ci-shims/git /usr/bin/git 2>/dev/null; MAYBE_SUDO chmod +x /usr/bin/git 2>/dev/null; fi"@,
        "T1=$(date +%s%3N); echo \"[local-ci:boot] git-shim: $((T1-T0))ms\"; T0=$T1"@,
        "MAYBE_SUDO chmod 666 /var/run/docker.sock 2>/dev/null || true"@,
        "T1=$(date +%s%3N); echo \"[local-ci:boot] docker-sock: $((T1-T0))ms\"; T0=$T1"@,
        "MAYBE_SUDO chmod 1777 /home/runner/.cache 2>/dev/null || true"@,
        "MAYBE_SUDO chmod 1777 /home/runner/_work 2>/dev/null || true"@,
        "MAYBE_SUDO chmod 1777 /home/runner/_diag 2>/dev/null || true"@,
        "cd /home/runner"@,
        credential_snippet_spec(o) + "true"@,
        "T1=$(date +%s%3N); echo \"[local-ci:boot] credentials: $((T1-T0))ms\"; T0=$T1"@,
        "REPO_NAME=$(basename $GITHUB_REPOSITORY)"@,
        "WORKSPACE_PATH=/home/runner/_work/$REPO_NAME/$REPO_NAME"@,
        "mkdir -p $WORKSPACE_PATH /home/runner/_work/_actions /home/runner/_work/_temp /home/runner/_work/_tool"@,
        "T1=$(date +%s%3N); echo \"[local-ci:boot] workspace-setup: $((T1-T0))ms\"; T0=$T1"@,
        "echo \"[local-ci:boot] total: $(($(date +%s%3N)-BOOT_T0))ms\""@,
        "echo \"[local-ci:boot] starting run.sh --once\""@,
        "./run.sh --once"@
    ]
}

/// The container command: `bash -c <script>`, or `-c <script>` for direct containers.
pub open spec fn container_cmd_spec(o: ContainerCmdOpts) -> Seq<Seq<char>> {
    let script = join(container_script_parts(o), " && "@);
    if o.use_direct_container {
        seq!["-c"@, script]
    } else {
        seq!["bash"@, "-c"@, script]
    }
}

fn credential_snippet(opts: &ContainerCmdOpts) -> (s: String)
    ensures
        s@ == credential_snippet_spec(*opts),
{
    if opts.use_direct_container {
        return String::new();
    }
    let url = crate::text::cat4("http://", opts.dtu_host.as_str(), ":", opts.dtu_port.as_str());
    let u = url.as_str();
    let mut s = owned("echo '{\"agentId\":1,\"agentName\":\"");
    s.append(opts.container_name.as_str());
    s.append("\",\"poolId\":1,\"poolName\":\"Default\",\"serverUrl\":\"");
    s.append(u);
    s.append("\",\"gitHubUrl\":\"");
    s.append(u);
    s.append("/'$GITHUB_REPOSITORY'\",\"workFolder\":\"_work\",\"ephemeral\":true}' > /home/runner/.runner && echo '{\"scheme\":\"OAuth\",\"data\":{\"clientId\":\"00000000-0000-0000-0000-000000000000\",\"authorizationUrl\":\"");
    s.append(u);
    s.append("/_apis/oauth2/token\",\"oAuthEndpointUrl\":\"");
    s.append(u);
    s.append("/_apis/oauth2/token\",\"requireFipsCryptography\":\"False\"}}' > /home/runner/.credentials && echo '{\"d\":\"CQpCI+sO2GD1N/JsHHI9zEhMlu5Fcc8mU4O2bO6iscOsagFjvEnTesJgydC/Go1HuOBlx+GT9EG2h7+juS0z2o5n8Mvt5BBxlK+tqoDOs8VfQ9CSUl3hqYRPeNdBfnA1w8ovLW0wqfPO08FWTLI0urYsnwjZ5BQrBM+D7zYeA0aCsKdo75bKmaEKnmqrtIEhb7hE45XQa32Yt0RPCPi8QcQAY2HLHbdWdZYDj6k/UuDvz9H/xlDzwYq6Yikk2RSMArFzaufxCGS9tBZNEACDPYgnZnEMXRcvsnZ9FYbq81KOSifCmq7Yocq+j3rY5zJCD+PIDY9QJwPxB4PGasRKAQ==\",\"dp\":\"A0sY1oOz1+3uUMiy+I5xGuHGHOrEQPYspd1xGClBYYsa/Za0UDWS7V0Tn1cbRWfWtNe5vTpxcvwQd6UZBwrtHF6R2zyXFhE++PLPhCe0tH4C5FY9i9jUw9Vo8t44i/s5JUHU2B1mEptXFUA0GcVrLKS8toZSgqELSS2Q/YLRxoE=\",\"dq\":\"GrLC9dPJ5n3VYw51ghCH7tybUN9/Oe4T8d9v4dLQ34RQEWHwRd4g3U3zkvuhpXFPloUTMmkxS7MF5pS1evrtzkay4QUTDv+28s0xRuAsw5qNTzuFygg8t93MvpvTVZ2TNApW6C7NFvkL9NbxAnU8+I61/3ow7i6a7oYJJ0hWAxE=\",\"exponent\":\"AQAB\",\"inverseQ\":\"8DVz9FSvEdt5W4B9OjgakZHwGfnhn2VLDUxrsR5ilC5tPC/IgA8C2xEfKQM1t+K/N3pAYHBYQ6EPgtW4kquBS/Sy102xbRI7GSCnUbRtTpWYPOaCn6EaxBNzwWzbp5vCbCGvFqlSu4+OBYRVe+iCj+gAnkmT/TKPhHHbTjJHvw==\",\"modulus\":\"x0eoW2DD7xsW5YiorMN8pNHVvZk4ED1SHlA/bmVnRz5FjEDnQloMn0nBgIUHxoNArksknrp/FOVJv5sJHJTiRZkOp+ZmH7d3W3gmw63IxK2C5pV+6xfav9jR2+Wt/6FMYMgG2utBdF95oif1f2XREFovHoXkWms2l0CPLLHVPO44Hh9EEmBmjOeMJEZkulHJ44z9y8e+GZ2nYqO0ZiRWQcRObZ0vlRaGg6PPOl4ltay0BfNksMB3NDtlhkdVkAEFQxEaZZDK9NtkvNljXCioP3TyTAbqNUGsYCA5D+IHGZT9An99J9vUqTFP6TKjqUvy9WNiIzaUksCySA0a4SVBkQ==\",\"p\":\"8fgAdmWy+sTzAN19fYkWMQqeC7t1BCQMo5z5knfVLg8TtwP9ZGqDtoe+r0bGv3UgVsvvDdP/QwRvRVP+5G9l999Y6b4VbSdUbrfPfOgjpPDmRTQzHDve5jh5xBENQoRXYm7PMgHGmjwuFsE/tKtSGTrvt2Z3qcYAo0IOqLLhYmE=\",\"q\":\"0tXx4+P7gUWePf92UJLkzhNBClvdnmDbIt52Lui7YCARczbN/asCDJxcMy6Bh3qmIx/bNuOUrfzHkYZHfnRw8AGEK80qmiLLPI6jrUBOGRajmzemGQx0W8FWalEQfGdNIv9R2nsegDRoMq255Zo/qX60xQ6abpp0c6UNhVYSjTE=\"}' > /home/runner/.credentials_rsaparams && ");
    s
}

/// Builds the runner container's command line.
pub fn build_container_cmd(opts: &ContainerCmdOpts) -> (cmd: Vec<String>)
    ensures
        views(cmd@) == container_cmd_spec(*opts),
{
    let snippet = credential_snippet(opts);
    let mut parts: Vec<String> = Vec::new();
    parts.push(owned("MAYBE_SUDO() { if command -v sudo >/dev/null 2>&1; then sudo -n \"$@\"; else \"$@\"; fi; }"));
    parts.push(owned("BOOT_T0=$(date +%s%3N); T0=$BOOT_T0"));
    parts.push(owned("if [ -f /usr/bin/git ]; then MAYBE_SUDO mv /usr/bin/git /usr/bin/git.real 2>/dev/null || true; MAYBE_SUDO cp -p /tmp/local-ci-shims/git /usr/bin/git 2>/dev/null; MAYBE_SUDO chmod +x /usr/bin/git 2>/dev/null; fi"));
    parts.push(owned("T1=$(date +%s%3N); echo \"[local-ci:boot] git-shim: $((T1-T0))ms\"; T0=$T1"));
    parts.push(docker_socket_permission_fix_command());
    parts.push(owned("T1=$(date +%s%3N); echo \"[local-ci:boot] docker-sock: $((T1-T0))ms\"; T0=$T1"));
    parts.push(owned("MAYBE_SUDO chmod 1777 /home/runner/.cache 2>/dev/null || true"));
    parts.push(owned("MAYBE_SUDO chmod 1777 /home/runner/_work 2>/dev/null || true"));
    parts.push(owned("MAYBE_SUDO chmod 1777 /home/runner/_diag 2>/dev/null || true"));
    parts.push(owned("cd /home/runner"));
    parts.push(cat(snippet.as_str(), "true"));
    parts.push(owned("T1=$(date +%s%3N); echo \"[local-ci:boot] credentials: $((T1-T0))ms\"; T0=$T1"));
    parts.push(owned("REPO_NAME=$(basename $GITHUB_REPOSITORY)"));
    parts.push(owned("WORKSPACE_PATH=/home/runner/_work/$REPO_NAME/$REPO_NAME"));
    parts.push(owned("mkdir -p $WORKSPACE_PATH /home/runner/_work/_actions /home/runner/_work/_temp /home/runner/_work/_tool"));
    parts.push(owned("T1=$(date +%s%3N); echo \"[local-ci:boot] workspace-setup: $((T1-T0))ms\"; T0=$T1"));
    parts.push(owned("echo \"[local-ci:boot] total: $(($(date +%s%3N)-BOOT_T0))ms\""));
    parts.push(owned("echo \"[local-ci:boot] starting run.sh --once\""));
    parts.push(owned("./run.sh --once"));
    assert(views(parts@) =~= container_script_parts(*opts));
    let script = join_strings(&parts, " && ");
    let mut cmd: Vec<String> = Vec::new();
    if !opts.use_direct_container {
        cmd.push(owned("bash"));
    }
    cmd.push(owned("-c"));
    cmd.push(script);
    assert(views(cmd@) =~= container_cmd_spec(*opts));
    cmd
}


// ---------------------------------------------------------------------------
// DTU URL and extra hosts
// ---------------------------------------------------------------------------

/// Host names that address the local machine itself.
pub open spec fn is_loopback(h: Seq<char>) -> bool {
    h == "localhost"@ || h == "127.0.0.1"@ || h == "::1"@
}

/// Splits `s` at the first `c`; without `c`, the whole of `s` and an empty rest.
pub open spec fn split_or_all(s: Seq<char>, c: char) -> (Seq<char>, Seq<char>) {
    if s.contains(c) {
        let i = choose|i: int| first_index_of(s, c, i);
        (s.take(i), s.skip(i + 1))
    } else {
        (s, Seq::empty())
    }
}

/// The DTU URL with a loopback host replaced by `dtu_host`.
pub open spec fn docker_api_url_spec(url: Seq<char>, dtu_host: Seq<char>) -> Seq<char> {
    if !contains_seq(url, "://"@) {
        url
    } else {
        let i = choose|i: int| first_occurrence(url, "://"@, i);
        let scheme = url.take(i);
        let rest = url.skip(i + 3);
        let (authority, suffix) = split_or_all(rest, '/');
        let (host, port) = split_or_all(authority, ':');
        let new_host = if is_loopback(host) {
            dtu_host
        } else {
            host
        };
        let auth = if port.len() == 0 {
            new_host
        } else {
            new_host + ":"@ + port
        };
        if suffix.len() == 0 {
            scheme + "://"@ + auth
        } else {
            scheme + "://"@ + auth + "/"@ + suffix
        }
    }
}

fn split_or_all_exec(s: &str, c: char) -> (r: (String, String))
    ensures
        (r.0@, r.1@) == split_or_all(s@, c),
{
    match split_once_char(s, c) {
        Some(p) => {
            proof {
                let i = choose|i: int| first_index_of(s@, c, i) && p.0@ == s@.take(i) && p.1@ == s@.skip(i + 1);
                let j = choose|j: int| first_index_of(s@, c, j);
                assert(i == j);
            }
            p
        },
        None => (owned(s), String::new()),
    }
}

/// Rewrites a loopback DTU URL so that containers can reach it through `dtu_host`.
pub fn resolve_docker_api_url(dtu_url: &str, dtu_host: &str) -> (r: String)
    ensures
        r@ == docker_api_url_spec(dtu_url@, dtu_host@),
{
    let (scheme, rest) = match split_once_str(dtu_url, "://") {
        Some(p) => p,
        None => {
            return owned(dtu_url);
        },
    };
    proof {
        reveal_strlit("://");
        let i = choose|i: int|
            first_occurrence(dtu_url@, "://"@, i) && scheme@ == dtu_url@.take(i) && rest@ == dtu_url@.skip(i + "://"@.len());
        let j = choose|j: int| first_occurrence(dtu_url@, "://"@, j);
        assert(i == j);
    }
    let (authority, suffix) = split_or_all_exec(rest.as_str(), '/');
    let (host, port) = split_or_all_exec(authority.as_str(), ':');
    let loopback = str_eq(host.as_str(), "localhost") || str_eq(host.as_str(), "127.0.0.1") || str_eq(host.as_str(), "::1");
    let new_host: &str = if loopback {
        dtu_host
    } else {
        host.as_str()
    };
    let auth = if port.as_str().is_empty() {
        owned(new_host)
    } else {
        crate::text::cat3(new_host, ":", port.as_str())
    };
    if suffix.as_str().is_empty() {
        crate::text::cat3(scheme.as_str(), "://", auth.as_str())
    } else {
        crate::text::cat5(scheme.as_str(), "://", auth.as_str(), "/", suffix.as_str())
    }
}

/// The comma-separated, trimmed, non-empty entries of a host list.
pub open spec fn host_list(s: Seq<char>) -> Seq<Seq<char>> {
    crate::text::split_char(s, ',').map_values(|e: Seq<char>| trim(e)).filter(|e: Seq<char>| e.len() > 0)
}

/// The `--add-host` entries for runner containers.
pub open spec fn extra_hosts_spec(env: StrMap<String>, dtu_host: Seq<char>) -> Option<Seq<Seq<char>>> {
    match env.lookup("LOCAL_CI_DOCKER_EXTRA_HOSTS"@) {
        Some(configured) => {
            let parsed = host_list(configured@);
            if parsed.len() > 0 {
                Some(parsed)
            } else {
                None
            }
        },
        None => {
            if env.lookup("LOCAL_CI_DOCKER_DISABLE_DEFAULT_EXTRA_HOSTS"@) matches Some(v) && v@ == "1"@ {
                None
            } else if dtu_host != DEFAULT_DTU_HOST_ALIAS@ {
                None
            } else {
                let gateway = match env.lookup("LOCAL_CI_DOCKER_HOST_GATEWAY"@) {
                    Some(g) => g@,
                    None => DEFAULT_DOCKER_HOST_GATEWAY@,
                };
                Some(seq![DEFAULT_DTU_HOST_ALIAS@ + ":"@ + gateway])
            }
        },
    }
}

/// Trims every entry and keeps the non-empty ones.
fn trimmed_non_empty(v: &Vec<String>) -> (r: Vec<String>)
    ensures
        views(r@) == views(v@).map_values(|e: Seq<char>| trim(e)).filter(|e: Seq<char>| e.len() > 0),
{
    let mut r: Vec<String> = Vec::new();
    let mut i: usize = 0;
    while i < v.len()
        invariant
            i <= v.len(),
            views(r@) == views(v@.take(i as int)).map_values(|e: Seq<char>| trim(e)).filter(
                |e: Seq<char>| e.len() > 0,
            ),
        decreases v.len() - i,
    {
        let t = trim_str(v[i].as_str());
        proof {
            let f = |e: Seq<char>| trim(e);
            let p = |e: Seq<char>| e.len() > 0;
            let before = views(v@.take(i as int)).map_values(f);
            let after = views(v@.take(i + 1)).map_values(f);
            assert(after =~= before.push(t@));
            reveal(Seq::filter);
            assert(after.filter(p) == if p(t@) { before.filter(p).push(t@) } else { before.filter(p) }) by {
                assert(after.drop_last() =~= before);
            }
        }
        if !t.as_str().is_empty() {
            proof {
                assert(views(r@.push(t)) =~= views(r@).push(t@));
            }
            r.push(t);
        }
        i += 1;
    }
    assert(v@.take(v.len() as int) =~= v@);
    r
}

fn env_is(env: &StrMap<String>, key: &str, value: &str) -> (b: bool)
    requires
        env.wf(),
    ensures
        b == (env.lookup(key@) matches Some(v) && v@ == value@),
{
    match env.get(key) {
        Some(v) => str_eq(v.as_str(), value),
        None => false,
    }
}

/// Resolves the `--add-host` entries for runner containers from the environment.
pub fn resolve_docker_extra_hosts(env: &StrMap<String>, dtu_host: &str) -> (r: Option<Vec<String>>)
    requires
        env.wf(),
    ensures
        match r {
            Some(v) => extra_hosts_spec(*env, dtu_host@) == Some(views(v@)),
            None => extra_hosts_spec(*env, dtu_host@) is None,
        },
{
    if let Some(configured) = env.get("LOCAL_CI_DOCKER_EXTRA_HOSTS") {
        let pieces = split_on_char(configured.as_str(), ',');
        let parsed = trimmed_non_empty(&pieces);
        if parsed.len() > 0 {
            return Some(parsed);
        } else {
            return None;
        }
    }
    if env_is(env, "LOCAL_CI_DOCKER_DISABLE_DEFAULT_EXTRA_HOSTS", "1") {
        return None;
    }
    if !str_eq(dtu_host, DEFAULT_DTU_HOST_ALIAS) {
        return None;
    }
    let gateway: &str = match env.get("LOCAL_CI_DOCKER_HOST_GATEWAY") {
        Some(g) => g.as_str(),
        None => DEFAULT_DOCKER_HOST_GATEWAY,
    };
    let mut v: Vec<String> = Vec::new();
    push_str(&mut v, crate::text::cat3(DEFAULT_DTU_HOST_ALIAS, ":", gateway));
    Some(v)
}

// ---------------------------------------------------------------------------
// docker run arguments
// ---------------------------------------------------------------------------

/// Everything needed to start one container with `docker run`.
#[derive(Debug, Clone, PartialEq, Eq)]
pub struct DockerRunConfig {
    pub name: String,
    pub image: String,
    pub network: String,
    pub env: Vec<String>,
    pub binds: Vec<String>,
    pub extra_hosts: Vec<String>,
    pub ports: StrMap<String>,
    pub options: Option<String>,
    pub health_cmd: Option<String>,
    pub detach: bool,
    pub command: Vec<String>,
}

/// Words of a shell-like string: whitespace separates words outside quotes, quotes group,
/// and a backslash takes the next character literally. `cur` is the word being built and
/// `quote` the open quote character.
pub open spec fn shell_words_acc(s: Seq<char>, cur: Seq<char>, quote: Option<char>) -> Seq<Seq<char>>
    decreases s.len(),
{
    if s.len() == 0 {
        if cur.len() > 0 {
            seq![cur]
        } else {
            Seq::empty()
        }
    } else {
        let ch = s[0];
        if quote matches Some(q) && ch == q {
            shell_words_acc(s.skip(1), cur, None)
        } else if quote is None && (ch == '\'' || ch == '"') {
            shell_words_acc(s.skip(1), cur, Some(ch))
        } else if quote is None && is_ws(ch) {
            (if cur.len() > 0 {
                seq![cur]
            } else {
                Seq::empty()
            }) + shell_words_acc(s.skip(1), Seq::empty(), quote)
        } else if ch == '\\' {
            if s.len() >= 2 {
                shell_words_acc(s.skip(2), cur.push(s[1]), quote)
            } else {
                shell_words_acc(s.skip(1), cur, quote)
            }
        } else {
            shell_words_acc(s.skip(1), cur.push(ch), quote)
        }
    }
}

/// Shell-like word splitting of an options string.
pub fn split_shell_words(input: &str) -> (words: Vec<String>)
    ensures
        views(words@) == shell_words_acc(input@, Seq::empty(), None),
{
    let x = chars_of(input);
    let mut words: Vec<String> = Vec::new();
    let mut cur: Vec<char> = Vec::new();
    let mut quote: Option<char> = None;
    let mut i: usize = 0;
    assert(input@.skip(0) =~= input@);
    while i < x.len()
        invariant
            x@ == input@,
            i <= x.len(),
            views(words@) + shell_words_acc(input@.skip(i as int), cur@, quote) == shell_words_acc(
                input@,
                Seq::empty(),
                None,
            ),
        decreases x.len() - i,
    {
        let ghost rest = input@.skip(i as int);
        let ghost old_words = views(words@);
        let ch = x[i];
        assert(rest[0] == ch);
        assert(rest.skip(1) =~= input@.skip(i + 1));
        let closes = match quote {
            Some(q) => ch == q,
            None => false,
        };
        if closes {
            quote = None;
            i += 1;
        } else if quote.is_none() && (ch == '\'' || ch == '"') {
            quote = Some(ch);
            i += 1;
        } else if quote.is_none() && char_is_ws(ch) {
            if cur.len() > 0 {
                let w = crate::text::from_chars(cur.as_slice());
                proof {
                    assert(shell_words_acc(rest, cur@, quote) == seq![cur@] + shell_words_acc(
                        input@.skip(i + 1),
                        Seq::empty(),
                        quote,
                    ));
                }
                push_str(&mut words, w);
                cur = Vec::new();
                proof {
                    assert(views(words@) + shell_words_acc(input@.skip(i + 1), cur@, quote) =~= old_words + shell_words_acc(rest, w@, quote));
                }
            } else {
                proof {
                    assert(shell_words_acc(rest, cur@, quote) == Seq::<Seq<char>>::empty() + shell_words_acc(
                        input@.skip(i + 1),
                        Seq::empty(),
                        quote,
                    ));
                    assert(cur@ =~= Seq::<char>::empty());
                    assert(views(words@) + shell_words_acc(input@.skip(i + 1), cur@, quote) =~= old_words + shell_words_acc(rest, cur@, quote));
                }
            }
            i += 1;
        } else if ch == '\\' {
            if i + 1 < x.len() {
                cur.push(x[i + 1]);
                proof {
                    assert(rest[1] == x@[i + 1]);
                    assert(rest.skip(2) =~= input@.skip(i + 2));
                }
                i += 2;
            } else {
                i += 1;
            }
        } else {
            cur.push(ch);
            i += 1;
        }
    }
    if cur.len() > 0 {
        let w = crate::text::from_chars(cur.as_slice());
        push_str(&mut words, w);
    }
    proof {
        assert(views(words@) =~= shell_words_acc(input@, Seq::empty(), None));
    }
    words
}

/// `[flag, v]` for every `v`, concatenated.
pub open spec fn flagged(flag: Seq<char>, vs: Seq<Seq<char>>) -> Seq<Seq<char>>
    decreases vs.len(),
{
    if vs.len() == 0 {
        Seq::empty()
    } else {
        flagged(flag, vs.drop_last()) + seq![flag, vs.last()]
    }
}

/// `-p host:container` for every port pair, in key order of the container ports.
pub open spec fn port_flags(pairs: Seq<(Seq<char>, String)>) -> Seq<Seq<char>>
    decreases pairs.len(),
{
    if pairs.len() == 0 {
        Seq::empty()
    } else {
        port_flags(pairs.drop_last()) + seq!["-p"@, pairs.last().1@ + ":"@ + pairs.last().0]
    }
}

/// The full `docker run` argument list.
pub open spec fn docker_run_args_spec(c: DockerRunConfig) -> Seq<Seq<char>> {
    seq!["run"@] + (if c.detach {
        seq!["-d"@]
    } else {
        Seq::empty()
    }) + seq!["--name"@, c.name@, "--network"@, c.network@] + flagged("-e"@, views(c.env@))
        + flagged("-v"@, views(c.binds@)) + flagged("--add-host"@, views(c.extra_hosts@))
        + port_flags(c.ports.pairs()) + (match c.health_cmd {
        Some(h) => seq!["--health-cmd"@, h@],
        None => Seq::empty(),
    }) + (match c.options {
        Some(o) => shell_words_acc(o@, Seq::empty(), None),
        None => Seq::empty(),
    }) + seq![c.image@] + views(c.command@)
}

fn push_flagged(args: &mut Vec<String>, flag: &str, vs: &Vec<String>)
    ensures
        views(final(args)@) == views(old(args)@) + flagged(flag@, views(vs@)),
{
    let mut i: usize = 0;
    while i < vs.len()
        invariant
            i <= vs.len(),
            views(args@) == views(old(args)@) + flagged(flag@, views(vs@.take(i as int))),
        decreases vs.len() - i,
    {
        proof {
            assert(views(vs@.take(i + 1)).drop_last() =~= views(vs@.take(i as int)));
        }
        push_str(args, owned(flag));
        push_str(args, vs[i].clone());
        i += 1;
        proof {
            assert(views(args@) =~= views(old(args)@) + flagged(flag@, views(vs@.take(i as int))));
        }
    }
    assert(vs@.take(vs.len() as int) =~= vs@);
}

fn push_all(args: &mut Vec<String>, vs: Vec<String>)
    ensures
        views(final(args)@) == views(old(args)@) + views(vs@),
{
    let mut i: usize = 0;
    while i < vs.len()
        invariant
            i <= vs.len(),
            views(args@) == views(old(args)@) + views(vs@.take(i as int)),
        decreases vs.len() - i,
    {
        push_str(args, vs[i].clone());
        i += 1;
        proof {
            assert(views(args@) =~= views(old(args)@) + views(vs@.take(i as int)));
        }
    }
    assert(vs@.take(vs.len() as int) =~= vs@);
}

/// Builds the `docker run` arguments for one container.
pub fn docker_run_args(config: &DockerRunConfig) -> (args: Vec<String>)
    requires
        config.ports.wf(),
    ensures
        views(args@) == docker_run_args_spec(*config),
{
    let mut args: Vec<String> = Vec::new();
    push_str(&mut args, owned("run"));
    if config.detach {
        push_str(&mut args, owned("-d"));
    }
    push_str(&mut args, owned("--name"));
    push_str(&mut args, config.name.clone());
    push_str(&mut args, owned("--network"));
    push_str(&mut args, config.network.clone());
    let ghost a = views(args@);
    push_flagged(&mut args, "-e", &config.env);
    push_flagged(&mut args, "-v", &config.binds);
    push_flagged(&mut args, "--add-host", &config.extra_hosts);
    let ghost b = views(args@);
    let mut i: usize = 0;
    while i < config.ports.len()
        invariant
            i <= config.ports.pairs().len(),
            views(args@) == b + port_flags(config.ports.pairs().take(i as int)),
        decreases config.ports.pairs().len() - i,
    {
        proof {
            assert(config.ports.pairs().take(i + 1).drop_last() =~= config.ports.pairs().take(i as int));
        }
        let container_port = config.ports.key_at(i);
        let host_port = config.ports.value_at(i);
        push_str(&mut args, owned("-p"));
        push_str(&mut args, crate::text::cat3(host_port.as_str(), ":", container_port.as_str()));
        i += 1;
        proof {
            assert(config.ports.keys()[i - 1] == config.ports.pairs()[i - 1].0);
            assert(config.ports.values()[i - 1] == config.ports.pairs()[i - 1].1);
            assert(views(args@) =~= b + port_flags(config.ports.pairs().take(i as int)));
        }
    }
    assert(config.ports.pairs().take(config.ports.pairs().len() as int) =~= config.ports.pairs());
    let ghost c = views(args@);
    if let Some(h) = &config.health_cmd {
        push_str(&mut args, owned("--health-cmd"));
        push_str(&mut args, h.clone());
    }
    let ghost d = views(args@);
    if let Some(o) = &config.options {
        push_all(&mut args, split_shell_words(o.as_str()));
    }
    let ghost e = views(args@);
    push_str(&mut args, config.image.clone());
    push_all(&mut args, config.command.clone());
    assert(views(args@) =~= docker_run_args_spec(*config));
    args
}

fn three(a: &str, b: &str, c: &str) -> (v: Vec<String>)
    ensures
        views(v@) == seq![a@, b@, c@],
{
    let mut v: Vec<String> = Vec::new();
    push_str(&mut v, owned(a));
    push_str(&mut v, owned(b));
    push_str(&mut v, owned(c));
    assert(views(v@) =~= seq![a@, b@, c@]);
    v
}

/// `docker network create <name>` arguments.
pub fn docker_network_create_args(name: &str) -> (args: Vec<String>)
    ensures
        views(args@) == seq!["network"@, "create"@, name@],
{
    three("network", "create", name)
}

/// `docker network rm <name>` arguments.
pub fn docker_network_remove_args(name: &str) -> (args: Vec<String>)
    ensures
        views(args@) == seq!["network"@, "rm"@, name@],
{
    three("network", "rm", name)
}

/// `docker rm -f <name>` arguments.
pub fn docker_rm_force_args(name: &str) -> (args: Vec<String>)
    ensures
        views(args@) == seq!["rm"@, "-f"@, name@],
{
    three("rm", "-f", name)
}

} // verus!
