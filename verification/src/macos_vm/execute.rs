use crate::macos_vm::command::SshCreds;
use crate::text::{
    cat, cat3, cat4, join, join_strings, owned, parse_usize, shell_quote, shell_quoted, trim,
    trim_str, unsigned_literal, bounded, views,
};
use vstd::prelude::*;

verus! {

/// What a job run in a VM produced.
#[derive(Debug, Clone, PartialEq, Eq)]
pub struct MacosVmJobResult {
    pub vm_name: String,
    pub ip: String,
    pub code: i32,
    pub stdout: String,
    pub stderr: String,
}

/// Everything needed to run one job in a fresh VM.
#[derive(Debug, Clone, PartialEq, Eq)]
pub struct MacosVmJobPlan {
    pub vm_name: String,
    pub image: String,
    pub repo_root: String,
    pub local_runner_dir: String,
    pub remote_workspace: String,
    pub remote_runner_dir: String,
    pub remote_log_dir: String,
    pub local_log_dir: String,
    pub creds: SshCreds,
    pub dtu_url: String,
    pub runner_token: String,
    pub runner_labels: Vec<String>,
    pub job_script: String,
}

/// Exit code and output of a command run in a VM.
#[derive(Debug, Clone, PartialEq, Eq)]
pub struct VmCommandResult {
    pub code: i32,
    pub stdout: String,
    pub stderr: String,
}

/// VM operations, supplied by the caller (tart and ssh on a real host).
pub trait MacosVmRuntime {
    fn image_exists(&mut self, image: &str) -> Result<bool, String>;

    fn pull_image(&mut self, image: &str) -> Result<(), String>;

    fn clone_vm(&mut self, image: &str, name: &str) -> Result<(), String>;

    fn start_vm(&mut self, name: &str) -> Result<(), String>;

    fn get_ip(&mut self, name: &str) -> Result<Option<String>, String>;

    fn ssh_exec(&mut self, ip: &str, creds: &SshCreds, script: &str) -> Result<VmCommandResult, String>;

    fn rsync_to(
        &mut self,
        ip: &str,
        creds: &SshCreds,
        local_src: &str,
        remote_dst: &str,
        exclude: &Vec<String>,
        delete: bool,
    ) -> Result<(), String>;

    fn rsync_from(&mut self, ip: &str, creds: &SshCreds, remote_src: &str, local_dst: &str) -> Result<(), String>;

    fn stop_vm(&mut self, name: &str) -> Result<(), String>;

    fn delete_vm(&mut self, name: &str) -> Result<(), String>;
}

/// What one poll of a wait decides: finish with a result, or poll again.
#[derive(Debug)]
pub enum PollStep<T> {
    Done(Result<T, String>),
    Again,
}

/// The mathematical form of a poll decision.
pub enum PollView<T> {
    Done(Result<T, Seq<char>>),
    Again,
}

pub open spec fn ip_poll_view(p: PollStep<String>) -> PollView<Seq<char>> {
    match p {
        PollStep::Done(Ok(ip)) => PollView::Done(Ok(ip@)),
        PollStep::Done(Err(e)) => PollView::Done(Err(e@)),
        PollStep::Again => PollView::Again,
    }
}

pub open spec fn unit_poll_view(p: PollStep<()>) -> PollView<()> {
    match p {
        PollStep::Done(Ok(())) => PollView::Done(Ok(())),
        PollStep::Done(Err(e)) => PollView::Done(Err(e@)),
        PollStep::Again => PollView::Again,
    }
}

/// The message when a VM never reports an IP.
pub open spec fn ip_timeout_text(vm_name: Seq<char>) -> Seq<char> {
    "Timed out waiting for VM "@ + vm_name + " to get an IP"@
}

/// The message when SSH never answers.
pub open spec fn ssh_timeout_text(ip: Seq<char>) -> Seq<char> {
    "Timed out waiting for SSH on "@ + ip
}

/// After poll number `attempt` (counting from 0) of `max_attempts` for the VM's IP: a reported
/// IP is the result, a runtime error fails the wait, and no IP yet means polling again while
/// polls remain, else the timeout.
pub open spec fn ip_poll_spec(vm_name: Seq<char>, attempt: nat, max_attempts: nat, outcome: Result<Option<Seq<char>>, Seq<char>>) -> PollView<Seq<char>> {
    match outcome {
        Ok(Some(ip)) => PollView::Done(Ok(ip)),
        Err(e) => PollView::Done(Err(e)),
        Ok(None) => if attempt + 1 < max_attempts {
            PollView::Again
        } else {
            PollView::Done(Err(ip_timeout_text(vm_name)))
        },
    }
}

pub open spec fn ip_result_view(r: Result<Option<String>, String>) -> Result<Option<Seq<char>>, Seq<char>> {
    match r {
        Ok(Some(ip)) => Ok(Some(ip@)),
        Ok(None) => Ok(None),
        Err(e) => Err(e@),
    }
}

/// Decides what one poll for the VM's IP leads to.
pub fn ip_poll_step(vm_name: &str, attempt: usize, max_attempts: usize, outcome: Result<Option<String>, String>) -> (r: PollStep<String>)
    ensures
        ip_poll_view(r) == ip_poll_spec(vm_name@, attempt as nat, max_attempts as nat, ip_result_view(outcome)),
{
    match outcome {
        Ok(Some(ip)) => PollStep::Done(Ok(ip)),
        Err(e) => PollStep::Done(Err(e)),
        Ok(None) => if attempt < max_attempts && attempt + 1 < max_attempts {
            PollStep::Again
        } else {
            PollStep::Done(Err(cat3("Timed out waiting for VM ", vm_name, " to get an IP")))
        },
    }
}

/// After SSH probe number `attempt` (counting from 0) of `max_attempts`: a probe that exits
/// with code 0 ends the wait; any other exit code or a runtime error means probing again while
/// probes remain, else the timeout.
pub open spec fn ssh_probe_spec(ip: Seq<char>, attempt: nat, max_attempts: nat, outcome: Result<VmCommandResult, String>) -> PollView<()> {
    if outcome matches Ok(res) && res.code == 0 {
        PollView::Done(Ok(()))
    } else if attempt + 1 < max_attempts {
        PollView::Again
    } else {
        PollView::Done(Err(ssh_timeout_text(ip)))
    }
}

/// Decides what one SSH probe leads to.
pub fn ssh_probe_step(ip: &str, attempt: usize, max_attempts: usize, outcome: &Result<VmCommandResult, String>) -> (r: PollStep<()>)
    ensures
        unit_poll_view(r) == ssh_probe_spec(ip@, attempt as nat, max_attempts as nat, *outcome),
{
    if let Ok(res) = outcome {
        if res.code == 0 {
            return PollStep::Done(Ok(()));
        }
    }
    if attempt < max_attempts && attempt + 1 < max_attempts {
        PollStep::Again
    } else {
        PollStep::Done(Err(cat("Timed out waiting for SSH on ", ip)))
    }
}

/// Polls for the VM's IP address up to `max_attempts` times, as `ip_poll_step` decides.
pub fn wait_for_ip<R: MacosVmRuntime>(runtime: &mut R, vm_name: &str, max_attempts: usize) -> (r: Result<String, String>)
    ensures
        max_attempts == 0 ==> (r matches Err(e) && e@ == ip_timeout_text(vm_name@)),
{
    let mut attempt: usize = 0;
    while attempt < max_attempts
        invariant
            attempt <= max_attempts,
        decreases max_attempts - attempt,
    {
        let outcome = runtime.get_ip(vm_name);
        match ip_poll_step(vm_name, attempt, max_attempts, outcome) {
            PollStep::Done(r) => {
                return r;
            },
            PollStep::Again => {},
        }
        attempt += 1;
    }
    Err(cat3("Timed out waiting for VM ", vm_name, " to get an IP"))
}

/// Probes with `true` over SSH until a probe exits with code 0, up to `max_attempts` times, as
/// `ssh_probe_step` decides.
pub fn wait_for_ssh<R: MacosVmRuntime>(runtime: &mut R, ip: &str, creds: &SshCreds, max_attempts: usize) -> (r: Result<(), String>)
    ensures
        r matches Err(e) ==> e@ == ssh_timeout_text(ip@),
        max_attempts == 0 ==> r is Err,
{
    let mut attempt: usize = 0;
    while attempt < max_attempts
        invariant
            attempt <= max_attempts,
        decreases max_attempts - attempt,
    {
        let outcome = runtime.ssh_exec(ip, creds, "true");
        match ssh_probe_step(ip, attempt, max_attempts, &outcome) {
            PollStep::Done(r) => {
                return r;
            },
            PollStep::Again => {},
        }
        attempt += 1;
    }
    Err(cat("Timed out waiting for SSH on ", ip))
}

/// The script that points the guest's DNS at `dns` and checks resolution.
pub open spec fn dns_script_spec(password: Seq<char>, dns: Seq<Seq<char>>) -> Seq<char> {
    "set -euo pipefail\necho \""@ + password + "\" | sudo -S networksetup -setdnsservers Ethernet "@
        + join(dns, " "@) + "\ndig +short +time=5 +tries=1 github.com >/dev/null\n"@
}

/// Builds the DNS override script.
pub fn dns_override_script(creds: &SshCreds, dns: &Vec<String>) -> (s: String)
    ensures
        s@ == dns_script_spec(creds.password@, views(dns@)),
{
    let servers = join_strings(dns, " ");
    let mut s = cat3("set -euo pipefail\necho \"", creds.password.as_str(), "\" | sudo -S networksetup -setdnsservers Ethernet ");
    s.append(servers.as_str());
    s.append("\ndig +short +time=5 +tries=1 github.com >/dev/null\n");
    s
}

/// The outcome of the DNS override command: success for exit code 0, else an error quoting
/// the trimmed stderr, or the trimmed stdout when stderr is blank.
pub open spec fn dns_outcome_spec(ip: Seq<char>, result: VmCommandResult) -> Result<(), Seq<char>> {
    if result.code == 0 {
        Ok(())
    } else {
        Err("DNS override failed on "@ + ip + ": "@ + if trim(result.stderr@).len() == 0 {
            trim(result.stdout@)
        } else {
            trim(result.stderr@)
        })
    }
}

pub open spec fn unit_result_view(r: Result<(), String>) -> Result<(), Seq<char>> {
    match r {
        Ok(()) => Ok(()),
        Err(e) => Err(e@),
    }
}

/// Judges the result of the DNS override command.
pub fn dns_override_outcome(ip: &str, result: &VmCommandResult) -> (r: Result<(), String>)
    ensures
        unit_result_view(r) == dns_outcome_spec(ip@, *result),
{
    if result.code == 0 {
        return Ok(());
    }
    let err = trim_str(result.stderr.as_str());
    let detail = if err.as_str().is_empty() {
        trim_str(result.stdout.as_str())
    } else {
        err
    };
    Err(cat4("DNS override failed on ", ip, ": ", detail.as_str()))
}

/// Sets the guest's DNS servers and checks that names resolve.
pub fn apply_dns_override<R: MacosVmRuntime>(runtime: &mut R, ip: &str, creds: &SshCreds, dns: &Vec<String>) -> (r: Result<(), String>)
{
    let script = dns_override_script(creds, dns);
    let result = runtime.ssh_exec(ip, creds, script.as_str())?;
    dns_override_outcome(ip, &result)
}

/// The paths never copied to the guest.
pub fn repo_sync_excludes() -> (v: Vec<String>)
    ensures
        views(v@) == seq![".git"@, "node_modules"@, "target"@],
{
    let mut v: Vec<String> = Vec::new();
    v.push(owned(".git"));
    v.push(owned("node_modules"));
    v.push(owned("target"));
    assert(views(v@) =~= seq![".git"@, "node_modules"@, "target"@]);
    v
}

/// What an rsync copy to the guest hands over: source, destination, exclusions, and whether
/// files missing at the source are deleted at the destination.
#[derive(Debug, Clone, PartialEq, Eq)]
pub struct RsyncRequest {
    pub local_src: String,
    pub remote_dst: String,
    pub exclude: Vec<String>,
    pub delete: bool,
}

pub open spec fn rsync_view(r: RsyncRequest) -> (Seq<char>, Seq<char>, Seq<Seq<char>>, bool) {
    (r.local_src@, r.remote_dst@, views(r.exclude@), r.delete)
}

/// The repository copy: the repository root to the guest workspace, without `.git`,
/// `node_modules` and `target`, deleting stale files.
pub open spec fn repo_sync_spec(p: MacosVmJobPlan) -> (Seq<char>, Seq<char>, Seq<Seq<char>>, bool) {
    (p.repo_root@, p.remote_workspace@, seq![".git"@, "node_modules"@, "target"@], true)
}

/// Builds the repository copy request.
pub fn repo_sync_request(plan: &MacosVmJobPlan) -> (r: RsyncRequest)
    ensures
        rsync_view(r) == repo_sync_spec(*plan),
{
    RsyncRequest {
        local_src: plan.repo_root.clone(),
        remote_dst: plan.remote_workspace.clone(),
        exclude: repo_sync_excludes(),
        delete: true,
    }
}

/// The runner copy: the local runner directory to the guest runner directory, excluding
/// nothing, deleting stale files.
pub open spec fn runner_sync_spec(p: MacosVmJobPlan) -> (Seq<char>, Seq<char>, Seq<Seq<char>>, bool) {
    (p.local_runner_dir@, p.remote_runner_dir@, Seq::empty(), true)
}

/// Builds the runner copy request.
pub fn runner_sync_request(plan: &MacosVmJobPlan) -> (r: RsyncRequest)
    ensures
        rsync_view(r) == runner_sync_spec(*plan),
{
    let exclude: Vec<String> = Vec::new();
    assert(views(exclude@) =~= Seq::<Seq<char>>::empty());
    RsyncRequest {
        local_src: plan.local_runner_dir.clone(),
        remote_dst: plan.remote_runner_dir.clone(),
        exclude,
        delete: true,
    }
}

/// Copies the repository into the guest workspace as `repo_sync_request` describes.
pub fn sync_repo_to_vm<R: MacosVmRuntime>(runtime: &mut R, plan: &MacosVmJobPlan, ip: &str) -> Result<(), String> {
    let request = repo_sync_request(plan);
    runtime.rsync_to(ip, &plan.creds, request.local_src.as_str(), request.remote_dst.as_str(), &request.exclude, request.delete)
}

/// The script run in the guest: prepare directories, enter the runner directory, run the job.
pub open spec fn runner_script_spec(p: MacosVmJobPlan) -> Seq<char> {
    "set -euo pipefail\nmkdir -p "@ + shell_quoted(p.remote_runner_dir@) + " "@ + shell_quoted(p.remote_log_dir@)
        + "\ncd "@ + shell_quoted(p.remote_runner_dir@)
        + "\n# Credentials are pre-written by Local CI to avoid config.sh network/bootstrap overhead.\n"@
        + p.job_script@ + "\n"@
}

/// Builds the script that runs the job inside the guest.
pub fn build_macos_runner_script(plan: &MacosVmJobPlan) -> (s: String)
    ensures
        s@ == runner_script_spec(*plan),
{
    let runner_dir = shell_quote(plan.remote_runner_dir.as_str());
    let log_dir = shell_quote(plan.remote_log_dir.as_str());
    let mut s = owned("set -euo pipefail\nmkdir -p ");
    s.append(runner_dir.as_str());
    s.append(" ");
    s.append(log_dir.as_str());
    s.append("\ncd ");
    s.append(runner_dir.as_str());
    s.append("\n# Credentials are pre-written by Local CI to avoid config.sh network/bootstrap overhead.\n");
    s.append(plan.job_script.as_str());
    s.append("\n");
    s
}

/// The script that creates the guest workspace, runner and log directories.
pub fn vm_directories_script(plan: &MacosVmJobPlan) -> (s: String)
    ensures
        s@ == "set -e\nmkdir -p "@ + shell_quoted(plan.remote_workspace@) + " "@ + shell_quoted(
            plan.remote_runner_dir@,
        ) + " "@ + shell_quoted(plan.remote_log_dir@),
{
    let a = shell_quote(plan.remote_workspace.as_str());
    let b = shell_quote(plan.remote_runner_dir.as_str());
    let c = shell_quote(plan.remote_log_dir.as_str());
    let mut s = owned("set -e\nmkdir -p ");
    s.append(a.as_str());
    s.append(" ");
    s.append(b.as_str());
    s.append(" ");
    s.append(c.as_str());
    s
}

/// The default DNS servers set in guests.
pub fn default_dns_servers() -> (v: Vec<String>)
    ensures
        views(v@) == seq!["1.1.1.1"@, "8.8.8.8"@],
{
    let mut v: Vec<String> = Vec::new();
    v.push(owned("1.1.1.1"));
    v.push(owned("8.8.8.8"));
    assert(views(v@) =~= seq!["1.1.1.1"@, "8.8.8.8"@]);
    v
}

/// The outcome of the command that prepares the guest directories: success for exit code 0,
/// else an error quoting its stdout and stderr.
pub open spec fn directories_outcome_spec(result: VmCommandResult) -> Result<(), Seq<char>> {
    if result.code == 0 {
        Ok(())
    } else {
        Err("failed to prepare macOS VM directories: "@ + result.stdout@ + result.stderr@)
    }
}

/// Judges the result of the directory-preparing command.
pub fn vm_directories_outcome(result: &VmCommandResult) -> (r: Result<(), String>)
    ensures
        unit_result_view(r) == directories_outcome_spec(*result),
{
    if result.code != 0 {
        return Err(cat3("failed to prepare macOS VM directories: ", result.stdout.as_str(), result.stderr.as_str()));
    }
    Ok(())
}

/// The job outcome after teardown: teardown errors turn success into failure and are
/// appended to an earlier failure.
pub open spec fn vm_outcome_spec(result: Result<MacosVmJobResult, Seq<char>>, cleanup: Seq<Seq<char>>) -> Result<MacosVmJobResult, Seq<char>> {
    match result {
        Ok(r) => if cleanup.len() == 0 {
            Ok(r)
        } else {
            Err("macOS VM cleanup failed: "@ + join(cleanup, "; "@))
        },
        Err(e) => if cleanup.len() == 0 {
            Err(e)
        } else {
            Err(e + "; cleanup also failed: "@ + join(cleanup, "; "@))
        },
    }
}

pub open spec fn job_result_view(r: Result<MacosVmJobResult, String>) -> Result<MacosVmJobResult, Seq<char>> {
    match r {
        Ok(x) => Ok(x),
        Err(e) => Err(e@),
    }
}

/// Combines the job result with the teardown errors.
pub fn finish_vm_job(result: Result<MacosVmJobResult, String>, cleanup_errors: &Vec<String>) -> (r: Result<MacosVmJobResult, String>)
    ensures
        job_result_view(r) == vm_outcome_spec(job_result_view(result), views(cleanup_errors@)),
{
    let clean = cleanup_errors.len() == 0;
    match result {
        Ok(res) => if clean {
            Ok(res)
        } else {
            Err(cat("macOS VM cleanup failed: ", join_strings(cleanup_errors, "; ").as_str()))
        },
        Err(err) => if clean {
            Err(err)
        } else {
            Err(cat3(err.as_str(), "; cleanup also failed: ", join_strings(cleanup_errors, "; ").as_str()))
        },
    }
}

/// How far a VM job has got: the last operation asked of the runtime, with the number of the
/// poll just made while waiting for the IP or for SSH.
#[derive(Debug, Clone, Copy, PartialEq, Eq, Structural)]
pub enum VmStage {
    Start,
    CheckImage,
    PullImage,
    CloneVm,
    StartVm,
    WaitIp(usize),
    WaitSsh(usize),
    SetDns,
    MakeDirs,
    SyncRepo,
    SyncRunner,
    RunJob,
    CopyLogs,
    StopVm,
    DeleteVm,
    Done,
}

/// The state of a VM job: its stage, the guest IP once known, the job command's result once
/// run, the failure that ended the job early, and the teardown errors so far.
#[derive(Debug)]
pub struct VmJobState {
    pub stage: VmStage,
    pub ip: String,
    pub command: Option<VmCommandResult>,
    pub failure: Option<String>,
    pub cleanup: Vec<String>,
}

/// The mathematical form of a VM job state.
pub struct VmStateView {
    pub stage: VmStage,
    pub ip: String,
    pub command: Option<VmCommandResult>,
    pub failure: Option<Seq<char>>,
    pub cleanup: Seq<Seq<char>>,
}

pub open spec fn vm_state_view(s: VmJobState) -> VmStateView {
    VmStateView {
        stage: s.stage,
        ip: s.ip,
        command: s.command,
        failure: match s.failure {
            Some(e) => Some(e@),
            None => None,
        },
        cleanup: views(s.cleanup@),
    }
}

/// What the runtime answered to the last operation.
#[derive(Debug)]
pub enum VmOutcome {
    Nothing,
    Flag(Result<bool, String>),
    Unit(Result<(), String>),
    Ip(Result<Option<String>, String>),
    Command(Result<VmCommandResult, String>),
}

/// The next operation of a VM job, or its end with the job's result.
#[derive(Debug)]
pub enum VmAction {
    ImageExists(String),
    PullImage(String),
    CloneVm(String, String),
    StartVm(String),
    GetIp(String),
    SshExec(String, String),
    RsyncTo(String, RsyncRequest),
    RsyncFrom(String, String, String),
    StopVm(String),
    DeleteVm(String),
    Finish(Result<MacosVmJobResult, String>),
}

/// The mathematical form of a VM job operation.
pub enum VmActionView {
    ImageExists(Seq<char>),
    PullImage(Seq<char>),
    CloneVm(Seq<char>, Seq<char>),
    StartVm(Seq<char>),
    GetIp(Seq<char>),
    SshExec(Seq<char>, Seq<char>),
    RsyncTo(Seq<char>, (Seq<char>, Seq<char>, Seq<Seq<char>>, bool)),
    RsyncFrom(Seq<char>, Seq<char>, Seq<char>),
    StopVm(Seq<char>),
    DeleteVm(Seq<char>),
    Finish(Result<MacosVmJobResult, Seq<char>>),
}

pub open spec fn vm_action_view(a: VmAction) -> VmActionView {
    match a {
        VmAction::ImageExists(i) => VmActionView::ImageExists(i@),
        VmAction::PullImage(i) => VmActionView::PullImage(i@),
        VmAction::CloneVm(i, n) => VmActionView::CloneVm(i@, n@),
        VmAction::StartVm(n) => VmActionView::StartVm(n@),
        VmAction::GetIp(n) => VmActionView::GetIp(n@),
        VmAction::SshExec(ip, script) => VmActionView::SshExec(ip@, script@),
        VmAction::RsyncTo(ip, r) => VmActionView::RsyncTo(ip@, rsync_view(r)),
        VmAction::RsyncFrom(ip, src, dst) => VmActionView::RsyncFrom(ip@, src@, dst@),
        VmAction::StopVm(n) => VmActionView::StopVm(n@),
        VmAction::DeleteVm(n) => VmActionView::DeleteVm(n@),
        VmAction::Finish(r) => VmActionView::Finish(job_result_view(r)),
    }
}

/// The error an outcome carries, if any.
pub open spec fn outcome_error(o: VmOutcome) -> Option<Seq<char>> {
    match o {
        VmOutcome::Flag(Err(e)) => Some(e@),
        VmOutcome::Unit(Err(e)) => Some(e@),
        VmOutcome::Ip(Err(e)) => Some(e@),
        VmOutcome::Command(Err(e)) => Some(e@),
        _ => None,
    }
}

/// The failure an unusable outcome stands for: its error, or a note that the runtime answered
/// something else than the operation gives.
pub open spec fn outcome_failure(o: VmOutcome) -> Seq<char> {
    match outcome_error(o) {
        Some(e) => e,
        None => "unexpected answer from the VM runtime"@,
    }
}

/// The number of IP polls while a VM boots.
pub const IP_POLLS: usize = 90;

/// The number of SSH probes once the VM has an IP.
pub const SSH_PROBES: usize = 80;

/// The DNS servers set in guests.
pub open spec fn default_dns_spec() -> Seq<Seq<char>> {
    seq!["1.1.1.1"@, "8.8.8.8"@]
}

/// The script that creates the guest directories.
pub open spec fn directories_script_spec(p: MacosVmJobPlan) -> Seq<char> {
    "set -e\nmkdir -p "@ + shell_quoted(p.remote_workspace@) + " "@ + shell_quoted(p.remote_runner_dir@) + " "@
        + shell_quoted(p.remote_log_dir@)
}

/// The job's own result: its failure, else the command's result in this VM at this IP.
pub open spec fn vm_job_result(p: MacosVmJobPlan, s: VmStateView) -> Result<MacosVmJobResult, Seq<char>> {
    match s.failure {
        Some(e) => Err(e),
        None => match s.command {
            Some(c) => Ok(MacosVmJobResult { vm_name: p.vm_name, ip: s.ip, code: c.code, stdout: c.stdout, stderr: c.stderr }),
            None => Err("the job did not run"@),
        },
    }
}

pub open spec fn with_stage(s: VmStateView, stage: VmStage) -> VmStateView {
    VmStateView { stage, ip: s.ip, command: s.command, failure: s.failure, cleanup: s.cleanup }
}

/// A failure: remember it and stop the VM.
pub open spec fn vm_fail(p: MacosVmJobPlan, s: VmStateView, e: Seq<char>) -> (VmStateView, VmActionView) {
    (
        VmStateView { stage: VmStage::StopVm, ip: s.ip, command: s.command, failure: Some(e), cleanup: s.cleanup },
        VmActionView::StopVm(p.vm_name@),
    )
}

/// The teardown errors once the runtime answered a stop or delete.
pub open spec fn with_cleanup(cleanup: Seq<Seq<char>>, o: VmOutcome) -> Seq<Seq<char>> {
    match outcome_error(o) {
        Some(e) => cleanup.push(e),
        None => cleanup,
    }
}

/// One step of running a job in a fresh VM. In order: check the image (pulling it when
/// missing), clone and start the VM, poll up to `IP_POLLS` times for its IP, probe SSH up to
/// `SSH_PROBES` times, set the default DNS servers, create the guest directories, copy the
/// repository and the runner, run the job script, copy the logs back. The first failure is
/// kept and the job goes straight to stopping the VM; every path stops and then deletes the
/// VM, keeping their errors, and finishes with `vm_outcome_spec` of the job's result and
/// those errors.
pub open spec fn vm_job_step_spec(p: MacosVmJobPlan, s: VmStateView, o: VmOutcome) -> (VmStateView, VmActionView) {
    match s.stage {
        VmStage::Start => (with_stage(s, VmStage::CheckImage), VmActionView::ImageExists(p.image@)),
        VmStage::CheckImage => match o {
            VmOutcome::Flag(Ok(true)) => (with_stage(s, VmStage::CloneVm), VmActionView::CloneVm(p.image@, p.vm_name@)),
            VmOutcome::Flag(Ok(false)) => (with_stage(s, VmStage::PullImage), VmActionView::PullImage(p.image@)),
            _ => vm_fail(p, s, outcome_failure(o)),
        },
        VmStage::PullImage => match o {
            VmOutcome::Unit(Ok(())) => (with_stage(s, VmStage::CloneVm), VmActionView::CloneVm(p.image@, p.vm_name@)),
            _ => vm_fail(p, s, outcome_failure(o)),
        },
        VmStage::CloneVm => match o {
            VmOutcome::Unit(Ok(())) => (with_stage(s, VmStage::StartVm), VmActionView::StartVm(p.vm_name@)),
            _ => vm_fail(p, s, outcome_failure(o)),
        },
        VmStage::StartVm => match o {
            VmOutcome::Unit(Ok(())) => (with_stage(s, VmStage::WaitIp(0)), VmActionView::GetIp(p.vm_name@)),
            _ => vm_fail(p, s, outcome_failure(o)),
        },
        VmStage::WaitIp(a) => match o {
            VmOutcome::Ip(Ok(Some(ip))) => (
                VmStateView { stage: VmStage::WaitSsh(0), ip: ip, command: s.command, failure: s.failure, cleanup: s.cleanup },
                VmActionView::SshExec(ip@, "true"@),
            ),
            VmOutcome::Ip(r) => match ip_poll_spec(p.vm_name@, a as nat, IP_POLLS as nat, ip_result_view(r)) {
                PollView::Again => (with_stage(s, VmStage::WaitIp((a + 1) as usize)), VmActionView::GetIp(p.vm_name@)),
                PollView::Done(Err(e)) => vm_fail(p, s, e),
                PollView::Done(Ok(_)) => vm_fail(p, s, outcome_failure(o)),
            },
            _ => vm_fail(p, s, outcome_failure(o)),
        },
        VmStage::WaitSsh(a) => match o {
            VmOutcome::Command(r) => match ssh_probe_spec(s.ip@, a as nat, SSH_PROBES as nat, r) {
                PollView::Done(Ok(())) => (
                    with_stage(s, VmStage::SetDns),
                    VmActionView::SshExec(s.ip@, dns_script_spec(p.creds.password@, default_dns_spec())),
                ),
                PollView::Again => (with_stage(s, VmStage::WaitSsh((a + 1) as usize)), VmActionView::SshExec(s.ip@, "true"@)),
                PollView::Done(Err(e)) => vm_fail(p, s, e),
            },
            _ => vm_fail(p, s, outcome_failure(o)),
        },
        VmStage::SetDns => match o {
            VmOutcome::Command(Ok(res)) => match dns_outcome_spec(s.ip@, res) {
                Ok(()) => (with_stage(s, VmStage::MakeDirs), VmActionView::SshExec(s.ip@, directories_script_spec(p))),
                Err(e) => vm_fail(p, s, e),
            },
            _ => vm_fail(p, s, outcome_failure(o)),
        },
        VmStage::MakeDirs => match o {
            VmOutcome::Command(Ok(res)) => match directories_outcome_spec(res) {
                Ok(()) => (with_stage(s, VmStage::SyncRepo), VmActionView::RsyncTo(s.ip@, repo_sync_spec(p))),
                Err(e) => vm_fail(p, s, e),
            },
            _ => vm_fail(p, s, outcome_failure(o)),
        },
        VmStage::SyncRepo => match o {
            VmOutcome::Unit(Ok(())) => (with_stage(s, VmStage::SyncRunner), VmActionView::RsyncTo(s.ip@, runner_sync_spec(p))),
            _ => vm_fail(p, s, outcome_failure(o)),
        },
        VmStage::SyncRunner => match o {
            VmOutcome::Unit(Ok(())) => (with_stage(s, VmStage::RunJob), VmActionView::SshExec(s.ip@, runner_script_spec(p))),
            _ => vm_fail(p, s, outcome_failure(o)),
        },
        VmStage::RunJob => match o {
            VmOutcome::Command(Ok(c)) => (
                VmStateView { stage: VmStage::CopyLogs, ip: s.ip, command: Some(c), failure: s.failure, cleanup: s.cleanup },
                VmActionView::RsyncFrom(s.ip@, p.remote_log_dir@, p.local_log_dir@),
            ),
            _ => vm_fail(p, s, outcome_failure(o)),
        },
        VmStage::CopyLogs => match o {
            VmOutcome::Unit(Ok(())) => (with_stage(s, VmStage::StopVm), VmActionView::StopVm(p.vm_name@)),
            _ => vm_fail(p, s, outcome_failure(o)),
        },
        VmStage::StopVm => (
            VmStateView { stage: VmStage::DeleteVm, ip: s.ip, command: s.command, failure: s.failure, cleanup: with_cleanup(s.cleanup, o) },
            VmActionView::DeleteVm(p.vm_name@),
        ),
        VmStage::DeleteVm => {
            let cleanup = with_cleanup(s.cleanup, o);
            let next = VmStateView { stage: VmStage::Done, ip: s.ip, command: s.command, failure: s.failure, cleanup };
            (next, VmActionView::Finish(vm_outcome_spec(vm_job_result(p, next), cleanup)))
        },
        VmStage::Done => (s, VmActionView::Finish(vm_outcome_spec(vm_job_result(p, s), s.cleanup))),
    }
}

/// The state a VM job starts in.
pub fn vm_job_start() -> (s: VmJobState)
    ensures
        s.stage == VmStage::Start,
        s.command is None,
        s.failure is None,
        s.cleanup@.len() == 0,
{
    VmJobState { stage: VmStage::Start, ip: String::new(), command: None, failure: None, cleanup: Vec::new() }
}

fn fail_step(plan: &MacosVmJobPlan, state: VmJobState, e: String) -> (r: (VmJobState, VmAction))
    ensures
        (vm_state_view(r.0), vm_action_view(r.1)) == vm_fail(*plan, vm_state_view(state), e@),
{
    (
        VmJobState { stage: VmStage::StopVm, ip: state.ip, command: state.command, failure: Some(e), cleanup: state.cleanup },
        VmAction::StopVm(plan.vm_name.clone()),
    )
}

fn outcome_failure_of(o: VmOutcome) -> (e: String)
    ensures
        e@ == outcome_failure(o),
{
    match o {
        VmOutcome::Flag(Err(e)) => e,
        VmOutcome::Unit(Err(e)) => e,
        VmOutcome::Ip(Err(e)) => e,
        VmOutcome::Command(Err(e)) => e,
        _ => owned("unexpected answer from the VM runtime"),
    }
}

fn staged(state: VmJobState, stage: VmStage) -> (r: VmJobState)
    ensures
        vm_state_view(r) == with_stage(vm_state_view(state), stage),
{
    VmJobState { stage, ip: state.ip, command: state.command, failure: state.failure, cleanup: state.cleanup }
}

fn vm_job_result_of(plan: &MacosVmJobPlan, s: &VmJobState) -> (r: Result<MacosVmJobResult, String>)
    ensures
        job_result_view(r) == vm_job_result(*plan, vm_state_view(*s)),
{
    match &s.failure {
        Some(e) => Err(e.clone()),
        None => match &s.command {
            Some(c) => Ok(MacosVmJobResult {
                vm_name: plan.vm_name.clone(),
                ip: s.ip.clone(),
                code: c.code,
                stdout: c.stdout.clone(),
                stderr: c.stderr.clone(),
            }),
            None => Err(owned("the job did not run")),
        },
    }
}

fn push_cleanup(cleanup: &mut Vec<String>, o: VmOutcome)
    ensures
        views(final(cleanup)@) == with_cleanup(views(old(cleanup)@), o),
{
    let ghost before = views(cleanup@);
    match o {
        VmOutcome::Flag(Err(e)) => cleanup.push(e),
        VmOutcome::Unit(Err(e)) => cleanup.push(e),
        VmOutcome::Ip(Err(e)) => cleanup.push(e),
        VmOutcome::Command(Err(e)) => cleanup.push(e),
        _ => {},
    }
    assert(views(cleanup@) =~= with_cleanup(before, o));
}

/// Decides the next step of a VM job from its state and the runtime's answer to the last
/// operation.
#[verifier::rlimit(40)]
pub fn vm_job_step(plan: &MacosVmJobPlan, state: VmJobState, outcome: VmOutcome) -> (r: (VmJobState, VmAction))
    ensures
        (vm_state_view(r.0), vm_action_view(r.1)) == vm_job_step_spec(*plan, vm_state_view(state), outcome),
{
    proof { reveal_strlit("true"); }
    match state.stage {
        VmStage::Start => {
            let image = plan.image.clone();
            (staged(state, VmStage::CheckImage), VmAction::ImageExists(image))
        },
        VmStage::CheckImage => match outcome {
            VmOutcome::Flag(Ok(true)) => (staged(state, VmStage::CloneVm), VmAction::CloneVm(plan.image.clone(), plan.vm_name.clone())),
            VmOutcome::Flag(Ok(false)) => (staged(state, VmStage::PullImage), VmAction::PullImage(plan.image.clone())),
            o => fail_step(plan, state, outcome_failure_of(o)),
        },
        VmStage::PullImage => match outcome {
            VmOutcome::Unit(Ok(())) => (staged(state, VmStage::CloneVm), VmAction::CloneVm(plan.image.clone(), plan.vm_name.clone())),
            o => fail_step(plan, state, outcome_failure_of(o)),
        },
        VmStage::CloneVm => match outcome {
            VmOutcome::Unit(Ok(())) => (staged(state, VmStage::StartVm), VmAction::StartVm(plan.vm_name.clone())),
            o => fail_step(plan, state, outcome_failure_of(o)),
        },
        VmStage::StartVm => match outcome {
            VmOutcome::Unit(Ok(())) => (staged(state, VmStage::WaitIp(0)), VmAction::GetIp(plan.vm_name.clone())),
            o => fail_step(plan, state, outcome_failure_of(o)),
        },
        VmStage::WaitIp(a) => match outcome {
            VmOutcome::Ip(Ok(Some(ip))) => {
                let probe_ip = ip.clone();
                (
                    VmJobState { stage: VmStage::WaitSsh(0), ip, command: state.command, failure: state.failure, cleanup: state.cleanup },
                    VmAction::SshExec(probe_ip, owned("true")),
                )
            },
            VmOutcome::Ip(r) => match ip_poll_step(plan.vm_name.as_str(), a, IP_POLLS, r) {
                PollStep::Again => (staged(state, VmStage::WaitIp(a + 1)), VmAction::GetIp(plan.vm_name.clone())),
                PollStep::Done(Err(e)) => fail_step(plan, state, e),
                PollStep::Done(Ok(_)) => fail_step(plan, state, owned("unexpected answer from the VM runtime")),
            },
            o => fail_step(plan, state, outcome_failure_of(o)),
        },
        VmStage::WaitSsh(a) => match outcome {
            VmOutcome::Command(r) => match ssh_probe_step(state.ip.as_str(), a, SSH_PROBES, &r) {
                PollStep::Done(Ok(())) => {
                    let script = dns_override_script(&plan.creds, &default_dns_servers());
                    let ip = state.ip.clone();
                    (staged(state, VmStage::SetDns), VmAction::SshExec(ip, script))
                },
                PollStep::Again => {
                    let ip = state.ip.clone();
                    (staged(state, VmStage::WaitSsh(a + 1)), VmAction::SshExec(ip, owned("true")))
                },
                PollStep::Done(Err(e)) => fail_step(plan, state, e),
            },
            o => fail_step(plan, state, outcome_failure_of(o)),
        },
        VmStage::SetDns => match outcome {
            VmOutcome::Command(Ok(res)) => match dns_override_outcome(state.ip.as_str(), &res) {
                Ok(()) => {
                    let ip = state.ip.clone();
                    (staged(state, VmStage::MakeDirs), VmAction::SshExec(ip, vm_directories_script(plan)))
                },
                Err(e) => fail_step(plan, state, e),
            },
            o => fail_step(plan, state, outcome_failure_of(o)),
        },
        VmStage::MakeDirs => match outcome {
            VmOutcome::Command(Ok(res)) => match vm_directories_outcome(&res) {
                Ok(()) => {
                    let ip = state.ip.clone();
                    (staged(state, VmStage::SyncRepo), VmAction::RsyncTo(ip, repo_sync_request(plan)))
                },
                Err(e) => fail_step(plan, state, e),
            },
            o => fail_step(plan, state, outcome_failure_of(o)),
        },
        VmStage::SyncRepo => match outcome {
            VmOutcome::Unit(Ok(())) => {
                let ip = state.ip.clone();
                (staged(state, VmStage::SyncRunner), VmAction::RsyncTo(ip, runner_sync_request(plan)))
            },
            o => fail_step(plan, state, outcome_failure_of(o)),
        },
        VmStage::SyncRunner => match outcome {
            VmOutcome::Unit(Ok(())) => {
                let ip = state.ip.clone();
                (staged(state, VmStage::RunJob), VmAction::SshExec(ip, build_macos_runner_script(plan)))
            },
            o => fail_step(plan, state, outcome_failure_of(o)),
        },
        VmStage::RunJob => match outcome {
            VmOutcome::Command(Ok(c)) => {
                let ip = state.ip.clone();
                (
                    VmJobState { stage: VmStage::CopyLogs, ip: state.ip, command: Some(c), failure: state.failure, cleanup: state.cleanup },
                    VmAction::RsyncFrom(ip, plan.remote_log_dir.clone(), plan.local_log_dir.clone()),
                )
            },
            o => fail_step(plan, state, outcome_failure_of(o)),
        },
        VmStage::CopyLogs => match outcome {
            VmOutcome::Unit(Ok(())) => (staged(state, VmStage::StopVm), VmAction::StopVm(plan.vm_name.clone())),
            o => fail_step(plan, state, outcome_failure_of(o)),
        },
        VmStage::StopVm => {
            let mut cleanup = state.cleanup;
            push_cleanup(&mut cleanup, outcome);
            (
                VmJobState { stage: VmStage::DeleteVm, ip: state.ip, command: state.command, failure: state.failure, cleanup },
                VmAction::DeleteVm(plan.vm_name.clone()),
            )
        },
        VmStage::DeleteVm => {
            let mut cleanup = state.cleanup;
            push_cleanup(&mut cleanup, outcome);
            let next = VmJobState { stage: VmStage::Done, ip: state.ip, command: state.command, failure: state.failure, cleanup };
            let result = finish_vm_job(vm_job_result_of(plan, &next), &next.cleanup);
            (next, VmAction::Finish(result))
        },
        VmStage::Done => {
            let result = finish_vm_job(vm_job_result_of(plan, &state), &state.cleanup);
            (state, VmAction::Finish(result))
        },
    }
}

/// How many steps a VM job has left at most from a stage.
pub open spec fn vm_stage_rank(stage: VmStage) -> nat {
    match stage {
        VmStage::Start => 400,
        VmStage::CheckImage => 390,
        VmStage::PullImage => 380,
        VmStage::CloneVm => 370,
        VmStage::StartVm => 360,
        VmStage::WaitIp(a) => 200 + if a < 100 { (100 - a) as nat } else { 0 },
        VmStage::WaitSsh(a) => 60 + if a < 100 { (100 - a) as nat } else { 0 },
        VmStage::SetDns => 50,
        VmStage::MakeDirs => 45,
        VmStage::SyncRepo => 40,
        VmStage::SyncRunner => 35,
        VmStage::RunJob => 30,
        VmStage::CopyLogs => 25,
        VmStage::StopVm => 20,
        VmStage::DeleteVm => 10,
        VmStage::Done => 0,
    }
}

/// Every step that does not finish the job moves it forward.
pub proof fn lemma_vm_step_progress(p: MacosVmJobPlan, s: VmStateView, o: VmOutcome)
    ensures
        !(vm_job_step_spec(p, s, o).1 is Finish) ==> vm_stage_rank(vm_job_step_spec(p, s, o).0.stage) < vm_stage_rank(s.stage),
{
}

/// A VM job always tears its VM down: a job finishes only after deleting its VM, deleting
/// always follows stopping, stopping always names the plan's VM, and any failed operation
/// before teardown (but for an SSH probe, which is retried) goes straight to stopping it.
pub proof fn lemma_vm_job_always_tears_down(p: MacosVmJobPlan, s: VmStateView, o: VmOutcome)
    ensures
        vm_job_step_spec(p, s, o).1 is Finish ==> (s.stage == VmStage::DeleteVm || s.stage == VmStage::Done),
        s.stage == VmStage::StopVm ==> vm_job_step_spec(p, s, o).1 == VmActionView::DeleteVm(p.vm_name@),
        s.stage == VmStage::DeleteVm ==> vm_job_step_spec(p, s, o).1 is Finish,
        vm_job_step_spec(p, s, o).1 is StopVm ==> vm_job_step_spec(p, s, o).1 == VmActionView::StopVm(p.vm_name@)
            && vm_job_step_spec(p, s, o).0.stage == VmStage::StopVm,
        (outcome_error(o) is Some && vm_stage_rank(s.stage) > vm_stage_rank(VmStage::StopVm)
            && !(s.stage is WaitSsh) && s.stage != VmStage::Start) ==> vm_job_step_spec(p, s, o).1 == VmActionView::StopVm(p.vm_name@),
{
}

/// Runs a job in a fresh VM by carrying out the operations `vm_job_step` decides: pull the
/// image if needed, clone and boot the VM, wait for its IP and SSH, set DNS, prepare
/// directories, copy the repository and runner, run the job, copy the logs back; then always
/// stop and delete the VM. The caller creates the local log directory and holds a VM slot for
/// the duration.
pub fn execute_macos_vm_job<R: MacosVmRuntime>(runtime: &mut R, plan: &MacosVmJobPlan) -> (r: Result<MacosVmJobResult, String>)
    ensures
        r matches Ok(res) ==> res.vm_name@ == plan.vm_name@,
{
    let mut state = vm_job_start();
    let mut outcome = VmOutcome::Nothing;
    loop
        decreases vm_stage_rank(state.stage),
    {
        let ghost before = vm_state_view(state);
        let ghost given = outcome;
        let (next, action) = vm_job_step(plan, state, outcome);
        proof { lemma_vm_step_progress(*plan, before, given); }
        state = next;
        outcome = match action {
            VmAction::ImageExists(image) => VmOutcome::Flag(runtime.image_exists(image.as_str())),
            VmAction::PullImage(image) => VmOutcome::Unit(runtime.pull_image(image.as_str())),
            VmAction::CloneVm(image, name) => VmOutcome::Unit(runtime.clone_vm(image.as_str(), name.as_str())),
            VmAction::StartVm(name) => VmOutcome::Unit(runtime.start_vm(name.as_str())),
            VmAction::GetIp(name) => VmOutcome::Ip(runtime.get_ip(name.as_str())),
            VmAction::SshExec(ip, script) => VmOutcome::Command(runtime.ssh_exec(ip.as_str(), &plan.creds, script.as_str())),
            VmAction::RsyncTo(ip, request) => VmOutcome::Unit(runtime.rsync_to(
                ip.as_str(),
                &plan.creds,
                request.local_src.as_str(),
                request.remote_dst.as_str(),
                &request.exclude,
                request.delete,
            )),
            VmAction::RsyncFrom(ip, src, dst) => VmOutcome::Unit(runtime.rsync_from(ip.as_str(), &plan.creds, src.as_str(), dst.as_str())),
            VmAction::StopVm(name) => VmOutcome::Unit(runtime.stop_vm(name.as_str())),
            VmAction::DeleteVm(name) => VmOutcome::Unit(runtime.delete_vm(name.as_str())),
            VmAction::Finish(result) => {
                return result;
            },
        };
    }
}

/// The number of VMs allowed at once: a positive number from the environment, else 2.
pub open spec fn concurrency_limit_spec(env_value: Option<Seq<char>>) -> nat {
    match env_value {
        Some(v) => match bounded(unsigned_literal(v), usize::MAX as nat) {
            Some(n) if n >= 1 => n,
            _ => 2,
        },
        None => 2,
    }
}

/// How many macOS VMs may run at once.
pub fn macos_vm_concurrency_limit(env_value: Option<&str>) -> (n: usize)
    ensures
        n == concurrency_limit_spec(match env_value {
            Some(v) => Some(v@),
            None => None,
        }),
{
    match env_value {
        Some(v) => match parse_usize(v) {
            Some(n) => if n >= 1 {
                n
            } else {
                2
            },
            None => 2,
        },
        None => 2,
    }
}

} // verus!
