use local_ci::macos_vm::command::{rsync_args, ssh_args, tart_pull_args, tart_run_args, CommandSpec, SshCreds};
use local_ci::macos_vm::execute::{
    apply_dns_override, build_macos_runner_script, ip_poll_step, repo_sync_request, ssh_probe_step, vm_job_start, vm_job_step,
    PollStep, VmAction, VmOutcome, VmStage, execute_macos_vm_job, macos_vm_concurrency_limit, vm_directories_outcome,
    wait_for_ip, wait_for_ssh, MacosVmJobPlan, MacosVmRuntime, VmCommandResult,
};
use local_ci::macos_vm::host::check_macos_vm_host;
use local_ci::macos_vm::image::resolve_macos_vm_image;
use local_ci::macos_vm::runner_binary::{
    macos_runner_tarball_url, resolve_macos_runner_version, runner_cache_step, CacheAction, CacheOutcome, CacheStage,
    CachedRunner, RunnerBinaryIo,
};
use local_ci::macos_vm::{HostCapability, DEFAULT_MACOS_IMAGE};

#[test]
fn macos_vm_concurrency_default_and_env_override() {
    assert_eq!(macos_vm_concurrency_limit(None), 2);
    assert_eq!(macos_vm_concurrency_limit(Some("4")), 4);
    assert_eq!(macos_vm_concurrency_limit(Some("0")), 2);
    assert_eq!(macos_vm_concurrency_limit(Some("nope")), 2);
}

#[derive(Default)]
struct FakeVmRuntime {
    calls: Vec<String>,
    ips: Vec<Option<String>>,
    ssh_ready_after: usize,
    ssh_attempts: usize,
    job_code: i32,
}

impl MacosVmRuntime for FakeVmRuntime {
    fn image_exists(&mut self, image: &str) -> Result<bool, String> {
        self.calls.push(format!("image-exists {image}"));
        Ok(false)
    }

    fn pull_image(&mut self, image: &str) -> Result<(), String> {
        self.calls.push(format!("pull {image}"));
        Ok(())
    }

    fn clone_vm(&mut self, image: &str, name: &str) -> Result<(), String> {
        self.calls.push(format!("clone {image} {name}"));
        Ok(())
    }

    fn start_vm(&mut self, name: &str) -> Result<(), String> {
        self.calls.push(format!("start {name}"));
        Ok(())
    }

    fn get_ip(&mut self, name: &str) -> Result<Option<String>, String> {
        self.calls.push(format!("ip {name}"));
        Ok(if self.ips.is_empty() { Some("192.168.64.10".to_owned()) } else { self.ips.remove(0) })
    }

    fn ssh_exec(&mut self, ip: &str, _creds: &SshCreds, script: &str) -> Result<VmCommandResult, String> {
        if script == "true" {
            self.ssh_attempts += 1;
            self.calls.push(format!("ssh-ready {ip}"));
            let ready = self.ssh_attempts >= self.ssh_ready_after.max(1);
            return Ok(VmCommandResult { code: if ready { 0 } else { 255 }, stdout: String::new(), stderr: String::new() });
        }
        if script.contains("networksetup -setdnsservers") {
            self.calls.push(format!("dns {ip}"));
            return Ok(VmCommandResult { code: 0, stdout: String::new(), stderr: String::new() });
        }
        self.calls.push(format!("job {ip}"));
        Ok(VmCommandResult { code: self.job_code, stdout: "ok".to_owned(), stderr: String::new() })
    }

    fn rsync_to(
        &mut self,
        ip: &str,
        _creds: &SshCreds,
        local_src: &str,
        remote_dst: &str,
        exclude: &Vec<String>,
        delete: bool,
    ) -> Result<(), String> {
        self.calls.push(format!("rsync-to {ip} {local_src} {remote_dst} {:?} {delete}", exclude));
        Ok(())
    }

    fn rsync_from(&mut self, ip: &str, _creds: &SshCreds, remote_src: &str, local_dst: &str) -> Result<(), String> {
        self.calls.push(format!("rsync-from {ip} {remote_src} {local_dst}"));
        Ok(())
    }

    fn stop_vm(&mut self, name: &str) -> Result<(), String> {
        self.calls.push(format!("stop {name}"));
        Ok(())
    }

    fn delete_vm(&mut self, name: &str) -> Result<(), String> {
        self.calls.push(format!("delete {name}"));
        Ok(())
    }
}

fn plan(root: &str) -> MacosVmJobPlan {
    MacosVmJobPlan {
        vm_name: "local-ci-macos-1".to_owned(),
        image: "ghcr.io/cirruslabs/macos-sonoma-xcode:latest".to_owned(),
        repo_root: format!("{root}/repo"),
        local_runner_dir: format!("{root}/runner"),
        remote_workspace: "/Users/admin/work".to_owned(),
        remote_runner_dir: "/Users/admin/actions-runner".to_owned(),
        remote_log_dir: "/Users/admin/local-ci-logs".to_owned(),
        local_log_dir: format!("{root}/logs"),
        creds: SshCreds { user: "admin".to_owned(), password: "admin".to_owned(), reverse_tunnel: None },
        dtu_url: "http://127.0.0.1:3000".to_owned(),
        runner_token: "token".to_owned(),
        runner_labels: vec!["macos-14".to_owned(), "arm64".to_owned()],
        job_script: "./run.sh".to_owned(),
    }
}

#[test]
fn host_capability_reports_platform_arch_and_tooling_requirements() {
    assert!(matches!(check_macos_vm_host("darwin", "arm64", true, true), HostCapability::Supported));
    assert!(matches!(check_macos_vm_host("macos", "arm64", true, true), HostCapability::Supported));
    assert!(matches!(check_macos_vm_host("macos", "aarch64", true, true), HostCapability::Supported));
    assert_eq!(
        check_macos_vm_host("linux", "arm64", true, true),
        HostCapability::Unsupported {
            reason: "macOS VM runner requires a macOS host (got linux).".to_owned(),
            hint: None,
        }
    );
    assert_eq!(
        check_macos_vm_host("darwin", "x64", true, true),
        HostCapability::Unsupported {
            reason: "macOS VM runner requires an Apple Silicon host (got x64).".to_owned(),
            hint: Some("Apple's Virtualization.framework does not support macOS guests on Intel Macs.".to_owned()),
        }
    );
    assert_eq!(
        check_macos_vm_host("darwin", "arm64", false, true),
        HostCapability::Unsupported {
            reason: "macOS VM runner requires `tart` to be installed.".to_owned(),
            hint: Some("Install with: brew install cirruslabs/cli/tart".to_owned()),
        }
    );
    assert_eq!(
        check_macos_vm_host("darwin", "arm64", true, false),
        HostCapability::Unsupported {
            reason: "macOS VM runner requires `sshpass` to be installed.".to_owned(),
            hint: Some("Install with: brew install hudochenkov/sshpass/sshpass".to_owned()),
        }
    );
}

#[test]
fn image_mapping_matches_github_macos_labels_and_override() {
    let labels = vec!["macos-latest".to_owned()];
    let resolved = resolve_macos_vm_image(&labels, None);
    assert_eq!(resolved.image, "ghcr.io/cirruslabs/macos-sonoma-xcode:latest");
    assert!(resolved.exact);

    let fallback = resolve_macos_vm_image(&vec!["self-hosted".to_owned(), "macOS-custom".to_owned()], None);
    assert_eq!(fallback.image, DEFAULT_MACOS_IMAGE);
    assert!(!fallback.exact);
    assert_eq!(fallback.matched_label, Some("macOS-custom".to_owned()));

    let override_resolution = resolve_macos_vm_image(&labels, Some("custom:image"));
    assert_eq!(override_resolution.image, "custom:image");
}

#[test]
fn tart_and_ssh_argv_builders_match_expected_commands() {
    assert_eq!(tart_pull_args("img"), CommandSpec::new("tart", vec!["pull".to_owned(), "img".to_owned()]));
    assert_eq!(
        tart_run_args("vm", false),
        CommandSpec::new("tart", vec!["run".to_owned(), "--no-graphics".to_owned(), "vm".to_owned()])
    );
    let creds = SshCreds { user: "admin".to_owned(), password: "pw".to_owned(), reverse_tunnel: None };
    let ssh = ssh_args("192.168.64.2", &creds, &vec!["true".to_owned()]);
    assert_eq!(ssh.program, "sshpass");
    assert!(ssh.args.contains(&"StrictHostKeyChecking=no".to_owned()));
    assert!(ssh.args.contains(&"admin@192.168.64.2".to_owned()));
    let rsync = rsync_args("src/", "admin@ip:dst", &creds, &vec!["target".to_owned()], true);
    assert_eq!(rsync.program, "rsync");
    assert!(rsync.args.contains(&"--delete".to_owned()));
    assert!(rsync.args.contains(&"target".to_owned()));
}

#[test]
fn waiters_poll_for_ip_and_ssh_then_dns_override_runs() {
    let mut runtime = FakeVmRuntime {
        ips: vec![None, Some("192.168.64.22".to_owned())],
        ssh_ready_after: 2,
        ..FakeVmRuntime::default()
    };
    let creds = SshCreds { user: "admin".to_owned(), password: "pw".to_owned(), reverse_tunnel: None };

    let ip = wait_for_ip(&mut runtime, "vm", 3).unwrap();
    wait_for_ssh(&mut runtime, &ip, &creds, 3).unwrap();
    apply_dns_override(&mut runtime, &ip, &creds, &vec!["1.1.1.1".to_owned()]).unwrap();

    assert_eq!(ip, "192.168.64.22");
    assert_eq!(
        runtime.calls,
        vec!["ip vm", "ip vm", "ssh-ready 192.168.64.22", "ssh-ready 192.168.64.22", "dns 192.168.64.22"]
    );
}

#[test]
fn vm_job_execution_syncs_repo_runs_script_copies_logs_and_tears_down() {
    let plan = plan("/tmp/local-ci-macos-vm-job");
    let mut runtime = FakeVmRuntime { ssh_ready_after: 1, job_code: 0, ..FakeVmRuntime::default() };

    let result = execute_macos_vm_job(&mut runtime, &plan).unwrap();

    assert_eq!(result.code, 0);
    assert_eq!(result.ip, "192.168.64.10");
    assert!(runtime.calls.iter().any(|call| call.starts_with("rsync-to 192.168.64.10")));
    assert!(runtime.calls.iter().any(|call| call == "job 192.168.64.10"));
    assert!(runtime.calls.ends_with(&["stop local-ci-macos-1".to_owned(), "delete local-ci-macos-1".to_owned()]));
}

#[test]
fn runner_script_configures_ephemeral_runner_then_runs_job_script() {
    let plan = plan("/tmp/local-ci-macos-vm-script");

    let script = build_macos_runner_script(&plan);

    assert!(script.contains("Credentials are pre-written"));
    assert!(!script.contains("./config.sh"));
    assert!(script.contains("./run.sh"));
}

#[test]
fn waiting_for_an_ip_gives_up_after_the_attempts() {
    let mut runtime = FakeVmRuntime { ips: vec![None, None, None], ..FakeVmRuntime::default() };
    assert!(wait_for_ip(&mut runtime, "vm", 2).is_err());
    assert_eq!(runtime.calls, vec!["ip vm", "ip vm"]);
}

#[test]
fn runner_version_and_tarball_url() {
    assert_eq!(resolve_macos_runner_version(Some("  2.400.1 ")), "2.400.1");
    assert_eq!(resolve_macos_runner_version(Some("   ")), "2.331.0");
    assert_eq!(
        macos_runner_tarball_url("2.331.0"),
        "https://github.com/actions/runner/releases/download/v2.331.0/actions-runner-osx-arm64-2.331.0.tar.gz"
    );
}

#[test]
fn directory_preparation_and_ssh_timeouts_report_their_messages() {
    let ok = VmCommandResult { code: 0, stdout: "out".to_owned(), stderr: "err".to_owned() };
    assert_eq!(vm_directories_outcome(&ok), Ok(()));
    let failed = VmCommandResult { code: 2, stdout: "out ".to_owned(), stderr: "denied".to_owned() };
    assert_eq!(
        vm_directories_outcome(&failed),
        Err("failed to prepare macOS VM directories: out denied".to_owned())
    );
    let mut runtime = FakeVmRuntime::default();
    let creds = SshCreds { user: "admin".to_owned(), password: "pw".to_owned(), reverse_tunnel: None };
    assert_eq!(wait_for_ssh(&mut runtime, "10.0.0.1", &creds, 0), Err("Timed out waiting for SSH on 10.0.0.1".to_owned()));
    assert!(runtime.calls.is_empty());
}

#[test]
fn poll_steps_decide_between_done_again_and_timeout() {
    assert!(matches!(ip_poll_step("vm", 0, 3, Ok(Some("10.0.0.2".to_owned()))), PollStep::Done(Ok(ip)) if ip == "10.0.0.2"));
    assert!(matches!(ip_poll_step("vm", 0, 3, Ok(None)), PollStep::Again));
    assert!(matches!(ip_poll_step("vm", 2, 3, Ok(None)), PollStep::Done(Err(e)) if e == "Timed out waiting for VM vm to get an IP"));
    assert!(matches!(ip_poll_step("vm", 0, 3, Err("tart failed".to_owned())), PollStep::Done(Err(e)) if e == "tart failed"));
    let ready = Ok(VmCommandResult { code: 0, stdout: String::new(), stderr: String::new() });
    let refused = Ok(VmCommandResult { code: 255, stdout: String::new(), stderr: "refused".to_owned() });
    assert!(matches!(ssh_probe_step("10.0.0.2", 0, 2, &ready), PollStep::Done(Ok(()))));
    assert!(matches!(ssh_probe_step("10.0.0.2", 0, 2, &refused), PollStep::Again));
    assert!(matches!(ssh_probe_step("10.0.0.2", 0, 2, &Err("down".to_owned())), PollStep::Again));
    assert!(matches!(ssh_probe_step("10.0.0.2", 1, 2, &refused), PollStep::Done(Err(e)) if e == "Timed out waiting for SSH on 10.0.0.2"));
}

#[test]
fn repo_sync_request_copies_the_repository_with_deletes() {
    let plan = plan("/tmp/r");
    let request = repo_sync_request(&plan);
    assert_eq!(request.local_src, "/tmp/r/repo");
    assert_eq!(request.remote_dst, "/Users/admin/work");
    assert_eq!(request.exclude, vec![".git".to_owned(), "node_modules".to_owned(), "target".to_owned()]);
    assert!(request.delete);
}

#[test]
fn a_failed_clone_stops_and_deletes_the_vm_and_reports_the_failure() {
    let plan = plan("/tmp/r");
    let state = vm_job_start();
    let (state, action) = vm_job_step(&plan, state, VmOutcome::Nothing);
    assert!(matches!(action, VmAction::ImageExists(ref i) if i == "ghcr.io/cirruslabs/macos-sonoma-xcode:latest"));
    let (state, action) = vm_job_step(&plan, state, VmOutcome::Flag(Ok(true)));
    assert!(matches!(action, VmAction::CloneVm(_, ref n) if n == "local-ci-macos-1"));
    let (state, action) = vm_job_step(&plan, state, VmOutcome::Unit(Err("clone failed".to_owned())));
    assert!(matches!(action, VmAction::StopVm(ref n) if n == "local-ci-macos-1"));
    assert_eq!(state.stage, VmStage::StopVm);
    let (state, action) = vm_job_step(&plan, state, VmOutcome::Unit(Ok(())));
    assert!(matches!(action, VmAction::DeleteVm(ref n) if n == "local-ci-macos-1"));
    let (_, action) = vm_job_step(&plan, state, VmOutcome::Unit(Err("busy".to_owned())));
    assert!(matches!(action, VmAction::Finish(Err(ref e)) if e == "clone failed; cleanup also failed: busy"));
}

/// A host whose file system is a set of existing paths.
struct FakeBinaryIo {
    create_run_sh: bool,
    calls: Vec<String>,
    files: Vec<String>,
}

impl RunnerBinaryIo for FakeBinaryIo {
    fn download_to_file(&mut self, url: &str, dst: &str) -> Result<(), String> {
        self.calls.push(format!("download {url} {dst}"));
        self.files.push(dst.to_owned());
        Ok(())
    }

    fn extract_tarball(&mut self, tarball: &str, dst: &str) -> Result<(), String> {
        self.calls.push(format!("extract {tarball} {dst}"));
        if self.create_run_sh {
            self.files.push(format!("{dst}/run.sh"));
        }
        Ok(())
    }
}

fn ensure_macos_runner_binary(io: &mut FakeBinaryIo, root: &str, version: &str) -> Result<CachedRunner, String> {
    let mut stage = CacheStage::Start;
    let mut outcome = CacheOutcome::Nothing;
    loop {
        let (next, action) = runner_cache_step(root, version, stage, outcome);
        stage = next;
        outcome = match action {
            CacheAction::Exists(path) => CacheOutcome::Exists(io.files.contains(&path)),
            CacheAction::CreateDir(_) => CacheOutcome::Done(Ok(())),
            CacheAction::Download(url, dst) => CacheOutcome::Done(io.download_to_file(&url, &dst)),
            CacheAction::Extract(tarball, dir) => CacheOutcome::Done(io.extract_tarball(&tarball, &dir)),
            CacheAction::WriteMarker(marker) => {
                io.files.push(marker);
                CacheOutcome::Done(Ok(()))
            }
            CacheAction::Finish(result) => return result,
        };
    }
}

#[test]
fn runner_binary_cache_downloads_extracts_and_reuses_marker() {
    let root = "/tmp/runner-cache";
    let mut io = FakeBinaryIo { create_run_sh: true, calls: vec![], files: vec![] };

    let cached = ensure_macos_runner_binary(&mut io, root, "2.331.0").unwrap();
    assert_eq!(cached.dir, "/tmp/runner-cache/2.331.0");
    assert!(io.files.contains(&"/tmp/runner-cache/2.331.0/.extracted".to_owned()));
    assert_eq!(io.calls.len(), 2);

    let cached_again = ensure_macos_runner_binary(&mut io, root, "2.331.0").unwrap();
    assert_eq!(cached_again, cached);
    assert_eq!(io.calls.len(), 2);
}

#[test]
fn runner_binary_cache_fails_if_tarball_shape_changes() {
    let mut io = FakeBinaryIo { create_run_sh: false, calls: vec![], files: vec![] };

    let err = ensure_macos_runner_binary(&mut io, "/tmp/runner-cache-fail", "2.331.0").unwrap_err();

    assert!(err.contains("does not contain run.sh"));
}

#[test]
fn an_existing_tarball_is_extracted_without_downloading() {
    let mut io = FakeBinaryIo {
        create_run_sh: true,
        calls: vec![],
        files: vec!["/c/2.0/actions-runner-osx-arm64-2.0.tar.gz".to_owned()],
    };
    let cached = ensure_macos_runner_binary(&mut io, "/c", "2.0").unwrap();
    assert_eq!(cached.version, "2.0");
    assert_eq!(io.calls, vec!["extract /c/2.0/actions-runner-osx-arm64-2.0.tar.gz /c/2.0".to_owned()]);
}
