//! Which handler of the DTU server answers a request: the routing tables of the runner API, the
//! GitHub API, the cache service and the artifact services.
use crate::json::{in_get, out_entries, out_of, push_entry, string, value_entries_view, JIn, Json, JsonInput, JsonValue};
use crate::text::{bounded, parse_u64, str_eq, unsigned_literal, views};
use vstd::prelude::*;

verus! {

/// A handler of the runner (Azure DevOps style) API.
#[derive(Debug, Clone, Copy, PartialEq, Eq, Structural)]
pub enum RunnerRoute {
    ServiceDiscovery,
    ListPools,
    ListAgents,
    CreateAgent,
    CreateSession,
    DeleteSession,
    DeleteMessage,
    PollMessage,
    RenewJobRequest,
    EchoJobRequest,
    CreateLog,
    AppendLogLines,
    TimelineFeed,
    TimelineRecords,
    TimelineGet,
    CaptureOutputs,
    ActionDownloadInfo,
}

/// A handler of the GitHub REST API.
#[derive(Debug, Clone, Copy, PartialEq, Eq, Structural)]
pub enum GithubRoute {
    InstallationAccessToken,
    RepoInstallation,
    RepoRegistrationToken,
    RepoJob,
    Compare,
    CommitPulls,
    Tarball,
    ApiRegistrationToken,
    RunnerRegistration,
    ApiRunnerRegistration,
}

/// A handler of the cache service.
#[derive(Debug, Clone, Copy, PartialEq, Eq, Structural)]
pub enum CacheRoute {
    Lookup,
    Reserve,
    Upload,
    Commit,
    Download,
}

/// A handler of the artifact services (twirp and REST).
#[derive(Debug, Clone, Copy, PartialEq, Eq, Structural)]
pub enum ArtifactRoute {
    TwirpCreate,
    TwirpFinalize,
    TwirpList,
    TwirpSignedUrl,
    BlobUpload,
    BlobDownload,
    RestCreate,
    RestUpload,
    RestFinalize,
    RestList,
    RestDownload,
}

/// The path segments begin with the three given ones.
pub open spec fn starts3(s: Seq<Seq<char>>, a: Seq<char>, b: Seq<char>, c: Seq<char>) -> bool {
    s.len() >= 3 && s[0] == a && s[1] == b && s[2] == c
}

/// The runner API's routing table.
pub open spec fn runner_route_of(method: Seq<char>, path: Seq<char>, s: Seq<Seq<char>>) -> Option<RunnerRoute> {
    let pools = starts3(s, "_apis"@, "distributedtask"@, "pools"@);
    let hubs = starts3(s, "_apis"@, "distributedtask"@, "hubs"@);
    let write = method == "PATCH"@ || method == "POST"@;
    if method == "GET"@ && (path == "/_apis/pipelines"@ || path == "/_apis/connectionData"@) {
        Some(RunnerRoute::ServiceDiscovery)
    } else if method == "GET"@ && pools && s.len() == 3 {
        Some(RunnerRoute::ListPools)
    } else if pools && s.len() == 5 && s[4] == "agents"@ && method == "GET"@ {
        Some(RunnerRoute::ListAgents)
    } else if pools && s.len() == 5 && s[4] == "agents"@ && method == "POST"@ {
        Some(RunnerRoute::CreateAgent)
    } else if pools && s.len() == 5 && s[4] == "sessions"@ && method == "POST"@ {
        Some(RunnerRoute::CreateSession)
    } else if pools && s.len() == 6 && s[4] == "sessions"@ && method == "DELETE"@ {
        Some(RunnerRoute::DeleteSession)
    } else if pools && s.len() == 5 && s[4] == "messages"@ && method == "DELETE"@ {
        Some(RunnerRoute::DeleteMessage)
    } else if pools && s.len() == 5 && s[4] == "messages"@ && method == "GET"@ {
        Some(RunnerRoute::PollMessage)
    } else if starts3(s, "_apis"@, "distributedtask"@, "jobrequests"@) && method == "PATCH"@ {
        Some(RunnerRoute::RenewJobRequest)
    } else if path == "/_apis/distributedtask/jobrequests"@ && method == "PATCH"@ {
        Some(RunnerRoute::EchoJobRequest)
    } else if method == "POST"@ && hubs && s.len() == 7 && s[4] == "plans"@ && s[6] == "logs"@ {
        Some(RunnerRoute::CreateLog)
    } else if write && hubs && s.len() == 9 && s[4] == "plans"@ && s[6] == "logs"@ && s[8] == "lines"@ {
        Some(RunnerRoute::AppendLogLines)
    } else if write && hubs && s.len() == 11 && s[4] == "plans"@ && s[6] == "timelines"@ && s[8] == "records"@
        && s[10] == "feed"@ {
        Some(RunnerRoute::TimelineFeed)
    } else if write && starts3(s, "_apis"@, "distributedtask"@, "timelines"@) && s.len() == 5 && s[4] == "records"@ {
        Some(RunnerRoute::TimelineRecords)
    } else if method == "GET"@ && starts3(s, "_apis"@, "distributedtask"@, "timelines"@) && s.len() == 4 {
        Some(RunnerRoute::TimelineGet)
    } else if method == "POST"@ && hubs && s.len() == 7 && s[4] == "plans"@ && s[6] == "outputs"@ {
        Some(RunnerRoute::CaptureOutputs)
    } else if method == "POST"@ && hubs && s.len() == 7 && s[4] == "plans"@ && s[6] == "actiondownloadinfo"@ {
        Some(RunnerRoute::ActionDownloadInfo)
    } else {
        None
    }
}

/// The GitHub API's routing table.
pub open spec fn github_route_of(method: Seq<char>, s: Seq<Seq<char>>) -> Option<GithubRoute> {
    let repos = s.len() >= 4 && s[0] == "repos"@;
    if method == "POST"@ && s.len() == 4 && s[0] == "app"@ && s[1] == "installations"@ && s[3] == "access_tokens"@ {
        Some(GithubRoute::InstallationAccessToken)
    } else if repos && method == "GET"@ && s.len() == 4 && s[3] == "installation"@ {
        Some(GithubRoute::RepoInstallation)
    } else if repos && method == "POST"@ && s.len() == 6 && s[3] == "actions"@ && s[4] == "runners"@
        && s[5] == "registration-token"@ {
        Some(GithubRoute::RepoRegistrationToken)
    } else if repos && method == "GET"@ && s.len() == 6 && s[3] == "actions"@ && s[4] == "jobs"@ {
        Some(GithubRoute::RepoJob)
    } else if repos && method == "GET"@ && s.len() == 5 && s[3] == "compare"@ {
        Some(GithubRoute::Compare)
    } else if repos && method == "GET"@ && s.len() == 6 && s[3] == "commits"@ && s[5] == "pulls"@ {
        Some(GithubRoute::CommitPulls)
    } else if repos && method == "GET"@ && s.len() == 6 && s[3] == "tarball"@ {
        Some(GithubRoute::Tarball)
    } else if method == "POST"@ && s.len() == 7 && s[0] == "api"@ && s[1] == "v3"@ && s[2] == "repos"@
        && s[5] == "runners"@ && s[6] == "registration-token"@ {
        Some(GithubRoute::ApiRegistrationToken)
    } else if method == "POST"@ && s.len() == 2 && s[0] == "actions"@ && s[1] == "runner-registration"@ {
        Some(GithubRoute::RunnerRegistration)
    } else if method == "POST"@ && s.len() == 4 && s[0] == "api"@ && s[1] == "v3"@ && s[2] == "actions"@
        && s[3] == "runner-registration"@ {
        Some(GithubRoute::ApiRunnerRegistration)
    } else {
        None
    }
}

/// The cache service's routing table.
pub open spec fn cache_route_of(method: Seq<char>, path: Seq<char>, s: Seq<Seq<char>>) -> Option<CacheRoute> {
    let caches = starts3(s, "_apis"@, "artifactcache"@, "caches"@);
    if method == "GET"@ && (path == "/_apis/artifactcache/caches"@ || path == "/_apis/artifactcache/cache"@) {
        Some(CacheRoute::Lookup)
    } else if method == "POST"@ && caches && s.len() == 3 {
        Some(CacheRoute::Reserve)
    } else if caches && s.len() == 4 && method == "PATCH"@ {
        Some(CacheRoute::Upload)
    } else if caches && s.len() == 4 && method == "POST"@ {
        Some(CacheRoute::Commit)
    } else if method == "GET"@ && starts3(s, "_apis"@, "artifactcache"@, "artifacts"@) && s.len() == 4 {
        Some(CacheRoute::Download)
    } else {
        None
    }
}

/// The path of a method of the twirp artifact service.
pub open spec fn twirp_path(name: Seq<char>) -> Seq<char> {
    "/twirp/github.actions.results.api.v1.ArtifactService/"@ + name
}

/// The artifact services' routing table.
pub open spec fn artifact_route_of(method: Seq<char>, path: Seq<char>, s: Seq<Seq<char>>) -> Option<ArtifactRoute> {
    let blob = s.len() == 4 && s[0] == "_apis"@ && s[1] == "artifactblob"@;
    if method == "POST"@ && path == twirp_path("CreateArtifact"@) {
        Some(ArtifactRoute::TwirpCreate)
    } else if method == "POST"@ && path == twirp_path("FinalizeArtifact"@) {
        Some(ArtifactRoute::TwirpFinalize)
    } else if method == "POST"@ && path == twirp_path("ListArtifacts"@) {
        Some(ArtifactRoute::TwirpList)
    } else if method == "POST"@ && path == twirp_path("GetSignedArtifactURL"@) {
        Some(ArtifactRoute::TwirpSignedUrl)
    } else if blob && method == "PUT"@ && s[3] == "upload"@ {
        Some(ArtifactRoute::BlobUpload)
    } else if blob && method == "GET"@ && s[3] == "download"@ {
        Some(ArtifactRoute::BlobDownload)
    } else if method == "POST"@ && path == "/_apis/artifacts"@ {
        Some(ArtifactRoute::RestCreate)
    } else if method == "PUT"@ && s.len() == 3 && s[0] == "_apis"@ && s[1] == "artifacts"@ {
        Some(ArtifactRoute::RestUpload)
    } else if method == "PATCH"@ && path == "/_apis/artifacts"@ {
        Some(ArtifactRoute::RestFinalize)
    } else if method == "GET"@ && path == "/_apis/artifacts"@ {
        Some(ArtifactRoute::RestList)
    } else if method == "GET"@ && s.len() == 3 && s[0] == "_apis"@ && s[1] == "artifactfiles"@ {
        Some(ArtifactRoute::RestDownload)
    } else {
        None
    }
}

fn seg_is(s: &Vec<String>, i: usize, lit: &str) -> (r: bool)
    ensures
        r == (i < s@.len() && s@[i as int]@ == lit@),
{
    i < s.len() && str_eq(s[i].as_str(), lit)
}

fn prefix3(s: &Vec<String>, a: &str, b: &str, c: &str) -> (r: bool)
    ensures
        r == starts3(views(s@), a@, b@, c@),
{
    seg_is(s, 0, a) && seg_is(s, 1, b) && seg_is(s, 2, c)
}

/// The runner API handler for a request, if any.
pub fn runner_route(method: &str, path: &str, segments: &Vec<String>) -> (r: Option<RunnerRoute>)
    ensures
        r == runner_route_of(method@, path@, views(segments@)),
{
    let ghost s = views(segments@);
    assert(s.len() == segments@.len());
    assert(forall|i: int| 0 <= i < s.len() ==> #[trigger] s[i] == segments@[i]@);
    let n = segments.len();
    let get = str_eq(method, "GET");
    let post = str_eq(method, "POST");
    let patch = str_eq(method, "PATCH");
    let delete = str_eq(method, "DELETE");
    let write = patch || post;
    let pools = prefix3(segments, "_apis", "distributedtask", "pools");
    let hubs = prefix3(segments, "_apis", "distributedtask", "hubs");
    let timelines = prefix3(segments, "_apis", "distributedtask", "timelines");
    if get && (str_eq(path, "/_apis/pipelines") || str_eq(path, "/_apis/connectionData")) {
        Some(RunnerRoute::ServiceDiscovery)
    } else if get && pools && n == 3 {
        Some(RunnerRoute::ListPools)
    } else if pools && n == 5 && seg_is(segments, 4, "agents") && get {
        Some(RunnerRoute::ListAgents)
    } else if pools && n == 5 && seg_is(segments, 4, "agents") && post {
        Some(RunnerRoute::CreateAgent)
    } else if pools && n == 5 && seg_is(segments, 4, "sessions") && post {
        Some(RunnerRoute::CreateSession)
    } else if pools && n == 6 && seg_is(segments, 4, "sessions") && delete {
        Some(RunnerRoute::DeleteSession)
    } else if pools && n == 5 && seg_is(segments, 4, "messages") && delete {
        Some(RunnerRoute::DeleteMessage)
    } else if pools && n == 5 && seg_is(segments, 4, "messages") && get {
        Some(RunnerRoute::PollMessage)
    } else if prefix3(segments, "_apis", "distributedtask", "jobrequests") && patch {
        Some(RunnerRoute::RenewJobRequest)
    } else if str_eq(path, "/_apis/distributedtask/jobrequests") && patch {
        Some(RunnerRoute::EchoJobRequest)
    } else if post && hubs && n == 7 && seg_is(segments, 4, "plans") && seg_is(segments, 6, "logs") {
        Some(RunnerRoute::CreateLog)
    } else if write && hubs && n == 9 && seg_is(segments, 4, "plans") && seg_is(segments, 6, "logs")
        && seg_is(segments, 8, "lines") {
        Some(RunnerRoute::AppendLogLines)
    } else if write && hubs && n == 11 && seg_is(segments, 4, "plans") && seg_is(segments, 6, "timelines")
        && seg_is(segments, 8, "records") && seg_is(segments, 10, "feed") {
        Some(RunnerRoute::TimelineFeed)
    } else if write && timelines && n == 5 && seg_is(segments, 4, "records") {
        Some(RunnerRoute::TimelineRecords)
    } else if get && timelines && n == 4 {
        Some(RunnerRoute::TimelineGet)
    } else if post && hubs && n == 7 && seg_is(segments, 4, "plans") && seg_is(segments, 6, "outputs") {
        Some(RunnerRoute::CaptureOutputs)
    } else if post && hubs && n == 7 && seg_is(segments, 4, "plans") && seg_is(segments, 6, "actiondownloadinfo") {
        Some(RunnerRoute::ActionDownloadInfo)
    } else {
        None
    }
}

/// The GitHub API handler for a request, if any.
pub fn github_route(method: &str, segments: &Vec<String>) -> (r: Option<GithubRoute>)
    ensures
        r == github_route_of(method@, views(segments@)),
{
    let ghost s = views(segments@);
    assert(s.len() == segments@.len());
    assert(forall|i: int| 0 <= i < s.len() ==> #[trigger] s[i] == segments@[i]@);
    let n = segments.len();
    let get = str_eq(method, "GET");
    let post = str_eq(method, "POST");
    let repos = n >= 4 && seg_is(segments, 0, "repos");
    if post && n == 4 && seg_is(segments, 0, "app") && seg_is(segments, 1, "installations")
        && seg_is(segments, 3, "access_tokens") {
        Some(GithubRoute::InstallationAccessToken)
    } else if repos && get && n == 4 && seg_is(segments, 3, "installation") {
        Some(GithubRoute::RepoInstallation)
    } else if repos && post && n == 6 && seg_is(segments, 3, "actions") && seg_is(segments, 4, "runners")
        && seg_is(segments, 5, "registration-token") {
        Some(GithubRoute::RepoRegistrationToken)
    } else if repos && get && n == 6 && seg_is(segments, 3, "actions") && seg_is(segments, 4, "jobs") {
        Some(GithubRoute::RepoJob)
    } else if repos && get && n == 5 && seg_is(segments, 3, "compare") {
        Some(GithubRoute::Compare)
    } else if repos && get && n == 6 && seg_is(segments, 3, "commits") && seg_is(segments, 5, "pulls") {
        Some(GithubRoute::CommitPulls)
    } else if repos && get && n == 6 && seg_is(segments, 3, "tarball") {
        Some(GithubRoute::Tarball)
    } else if post && n == 7 && seg_is(segments, 0, "api") && seg_is(segments, 1, "v3") && seg_is(segments, 2, "repos")
        && seg_is(segments, 5, "runners") && seg_is(segments, 6, "registration-token") {
        Some(GithubRoute::ApiRegistrationToken)
    } else if post && n == 2 && seg_is(segments, 0, "actions") && seg_is(segments, 1, "runner-registration") {
        Some(GithubRoute::RunnerRegistration)
    } else if post && n == 4 && seg_is(segments, 0, "api") && seg_is(segments, 1, "v3") && seg_is(segments, 2, "actions")
        && seg_is(segments, 3, "runner-registration") {
        Some(GithubRoute::ApiRunnerRegistration)
    } else {
        None
    }
}

/// The cache service handler for a request, if any.
pub fn cache_route(method: &str, path: &str, segments: &Vec<String>) -> (r: Option<CacheRoute>)
    ensures
        r == cache_route_of(method@, path@, views(segments@)),
{
    let ghost s = views(segments@);
    assert(s.len() == segments@.len());
    assert(forall|i: int| 0 <= i < s.len() ==> #[trigger] s[i] == segments@[i]@);
    let n = segments.len();
    let get = str_eq(method, "GET");
    let post = str_eq(method, "POST");
    let caches = prefix3(segments, "_apis", "artifactcache", "caches");
    if get && (str_eq(path, "/_apis/artifactcache/caches") || str_eq(path, "/_apis/artifactcache/cache")) {
        Some(CacheRoute::Lookup)
    } else if post && caches && n == 3 {
        Some(CacheRoute::Reserve)
    } else if caches && n == 4 && str_eq(method, "PATCH") {
        Some(CacheRoute::Upload)
    } else if caches && n == 4 && post {
        Some(CacheRoute::Commit)
    } else if get && prefix3(segments, "_apis", "artifactcache", "artifacts") && n == 4 {
        Some(CacheRoute::Download)
    } else {
        None
    }
}

/// The artifact service handler for a request, if any.
pub fn artifact_route(method: &str, path: &str, segments: &Vec<String>) -> (r: Option<ArtifactRoute>)
    ensures
        r == artifact_route_of(method@, path@, views(segments@)),
{
    let ghost s = views(segments@);
    assert(s.len() == segments@.len());
    assert(forall|i: int| 0 <= i < s.len() ==> #[trigger] s[i] == segments@[i]@);
    proof {
        reveal_strlit("/twirp/github.actions.results.api.v1.ArtifactService/CreateArtifact");
        reveal_strlit("/twirp/github.actions.results.api.v1.ArtifactService/FinalizeArtifact");
        reveal_strlit("/twirp/github.actions.results.api.v1.ArtifactService/ListArtifacts");
        reveal_strlit("/twirp/github.actions.results.api.v1.ArtifactService/GetSignedArtifactURL");
        reveal_strlit("/twirp/github.actions.results.api.v1.ArtifactService/");
        reveal_strlit("CreateArtifact");
        reveal_strlit("FinalizeArtifact");
        reveal_strlit("ListArtifacts");
        reveal_strlit("GetSignedArtifactURL");
        assert(twirp_path("CreateArtifact"@) =~= "/twirp/github.actions.results.api.v1.ArtifactService/CreateArtifact"@);
        assert(twirp_path("FinalizeArtifact"@) =~= "/twirp/github.actions.results.api.v1.ArtifactService/FinalizeArtifact"@);
        assert(twirp_path("ListArtifacts"@) =~= "/twirp/github.actions.results.api.v1.ArtifactService/ListArtifacts"@);
        assert(twirp_path("GetSignedArtifactURL"@) =~= "/twirp/github.actions.results.api.v1.ArtifactService/GetSignedArtifactURL"@);
    }
    let n = segments.len();
    let get = str_eq(method, "GET");
    let post = str_eq(method, "POST");
    let put = str_eq(method, "PUT");
    let blob = n == 4 && seg_is(segments, 0, "_apis") && seg_is(segments, 1, "artifactblob");
    if post && str_eq(path, "/twirp/github.actions.results.api.v1.ArtifactService/CreateArtifact") {
        Some(ArtifactRoute::TwirpCreate)
    } else if post && str_eq(path, "/twirp/github.actions.results.api.v1.ArtifactService/FinalizeArtifact") {
        Some(ArtifactRoute::TwirpFinalize)
    } else if post && str_eq(path, "/twirp/github.actions.results.api.v1.ArtifactService/ListArtifacts") {
        Some(ArtifactRoute::TwirpList)
    } else if post && str_eq(path, "/twirp/github.actions.results.api.v1.ArtifactService/GetSignedArtifactURL") {
        Some(ArtifactRoute::TwirpSignedUrl)
    } else if blob && put && seg_is(segments, 3, "upload") {
        Some(ArtifactRoute::BlobUpload)
    } else if blob && get && seg_is(segments, 3, "download") {
        Some(ArtifactRoute::BlobDownload)
    } else if post && str_eq(path, "/_apis/artifacts") {
        Some(ArtifactRoute::RestCreate)
    } else if put && n == 3 && seg_is(segments, 0, "_apis") && seg_is(segments, 1, "artifacts") {
        Some(ArtifactRoute::RestUpload)
    } else if str_eq(method, "PATCH") && str_eq(path, "/_apis/artifacts") {
        Some(ArtifactRoute::RestFinalize)
    } else if get && str_eq(path, "/_apis/artifacts") {
        Some(ArtifactRoute::RestList)
    } else if get && n == 3 && seg_is(segments, 0, "_apis") && seg_is(segments, 1, "artifactfiles") {
        Some(ArtifactRoute::RestDownload)
    } else {
        None
    }
}

/// A numeric path segment: its value, or `u64::MAX` when it is not a `u64`.
pub fn segment_id(segment: &str) -> (r: u64)
    ensures
        r as nat == match bounded(unsigned_literal(segment@), u64::MAX as nat) {
            Some(v) => v,
            None => u64::MAX as nat,
        },
{
    match parse_u64(segment) {
        Some(v) => v,
        None => u64::MAX,
    }
}

/// The answer to a job request renewal: the request body, with `lockedUntil` set to the given
/// time unless the body reports a result or a finish time; a null body becomes an object
/// holding only `lockedUntil`. A body that is neither an object nor null is answered as it is.
pub open spec fn renewal_spec(p: JIn, locked_until: Seq<char>) -> Json {
    if in_get(p, "result"@) is Some || in_get(p, "finishTime"@) is Some {
        out_of(p)
    } else {
        match p {
            JIn::Null => Json::Object(seq![("lockedUntil"@, Json::Str(locked_until))]),
            JIn::Object(es, _) => Json::Object(out_entries(es).push(("lockedUntil"@, Json::Str(locked_until)))),
            _ => out_of(p),
        }
    }
}

/// Answers a job request renewal.
pub fn renewed_job_request(payload: &JsonInput, locked_until: &str) -> (r: JsonValue)
    ensures
        r@ == renewal_spec(payload@, locked_until@),
{
    proof {
        reveal_strlit("lockedUntil");
    }
    if payload.get("result").is_some() || payload.get("finishTime").is_some() {
        return payload.to_output();
    }
    match payload {
        JsonInput::Null => {
            let mut es: Vec<(String, JsonValue)> = Vec::new();
            proof {
                assert(value_entries_view(es@) =~= Seq::<(Seq<char>, Json)>::empty());
            }
            push_entry(&mut es, "lockedUntil", string(locked_until));
            assert(value_entries_view(es@) =~= seq![("lockedUntil"@, Json::Str(locked_until@))]);
            JsonValue::Object(es)
        },
        JsonInput::Object(_, _) => {
            match payload.to_output() {
                JsonValue::Object(mut es) => {
                    push_entry(&mut es, "lockedUntil", string(locked_until));
                    JsonValue::Object(es)
                },
                other => other,
            }
        },
        _ => payload.to_output(),
    }
}

} // verus!
