//! The decisions of the Docker command-line runtime: container and network names, the run
//! configurations of services and runners, and how Docker's errors and outputs are read.
use crate::docker::config::DockerRunConfig;
use crate::runner::runtime::{ServiceSpec, StartedService};
use crate::runner::types::JobExecutionPlan;
use crate::strmap::{StrMap, text_map};
use crate::text::{bounded, cat, cat3, contains, contains_seq, copy_strings, lines, lines_of, owned,
    trim, trim_str, views};
use vstd::prelude::*;

verus! {

/// The Docker command-line runtime, running the given `docker` binary.
#[derive(Debug, Clone, PartialEq, Eq)]
pub struct DockerCliRuntime {
    pub docker_bin: String,
}

impl DockerCliRuntime {
    /// A runtime that runs `docker_bin`.
    pub fn new(docker_bin: &str) -> (r: Self)
        ensures
            r.docker_bin@ == docker_bin@,
    {
        DockerCliRuntime { docker_bin: owned(docker_bin) }
    }
}

/// A network removal failed because containers are still attached.
pub open spec fn active_endpoint_spec(err: Seq<char>) -> bool {
    contains_seq(err, "active endpoints"@) || contains_seq(err, "has active endpoints"@)
}

/// Whether a `docker network rm` error reports attached containers.
pub fn active_endpoint_error(err: &str) -> (r: bool)
    ensures
        r == active_endpoint_spec(err@),
{
    contains(err, "active endpoints") || contains(err, "has active endpoints")
}

/// The `docker network inspect` arguments that list the ids of a network's containers.
pub fn network_container_ids_args(network: &str) -> (r: Vec<String>)
    ensures
        views(r@) == seq![
            "network"@,
            "inspect"@,
            "-f"@,
            "{{range $id, $_ := .Containers}}{{println $id}}{{end}}"@,
            network@,
        ],
{
    let mut v: Vec<String> = Vec::new();
    v.push(owned("network"));
    v.push(owned("inspect"));
    v.push(owned("-f"));
    v.push(owned("{{range $id, $_ := .Containers}}{{println $id}}{{end}}"));
    v.push(owned(network));
    assert(views(v@) =~= seq![
        "network"@,
        "inspect"@,
        "-f"@,
        "{{range $id, $_ := .Containers}}{{println $id}}{{end}}"@,
        network@,
    ]);
    v
}

/// A removal that failed only because the container is already being removed counts as done.
pub open spec fn removal_in_progress(err: Seq<char>) -> bool {
    contains_seq(err, "removal of container"@) && contains_seq(err, "is already in progress"@)
}

/// The result of a container removal, with a removal already in progress counting as success.
pub fn ignore_container_removal_in_progress(result: Result<String, String>) -> (r: Result<(), String>)
    ensures
        match result {
            Ok(_) => r is Ok,
            Err(e) => if removal_in_progress(e@) { r is Ok } else { r == Err::<(), String>(e) },
        },
{
    match result {
        Ok(_) => Ok(()),
        Err(err) => {
            if contains(err.as_str(), "removal of container") && contains(err.as_str(), "is already in progress") {
                Ok(())
            } else {
                Err(err)
            }
        },
    }
}

/// The non-blank trimmed lines of a command's output, in order.
pub open spec fn id_lines(ls: Seq<Seq<char>>) -> Seq<Seq<char>>
    decreases ls.len(),
{
    if ls.len() == 0 {
        Seq::empty()
    } else if trim(ls.last()).len() > 0 {
        id_lines(ls.drop_last()).push(trim(ls.last()))
    } else {
        id_lines(ls.drop_last())
    }
}

/// The container ids listed in a command's output, one per line.
pub fn container_ids_from_output(output: &str) -> (r: Vec<String>)
    ensures
        views(r@) == id_lines(lines_of(output@)),
{
    let ls = lines(output);
    let ghost lv = views(ls@);
    let mut r: Vec<String> = Vec::new();
    let mut i: usize = 0;
    while i < ls.len()
        invariant
            i <= ls.len(),
            lv == views(ls@),
            views(r@) == id_lines(lv.take(i as int)),
        decreases ls.len() - i,
    {
        proof {
            assert(lv.take(i + 1).drop_last() =~= lv.take(i as int));
            assert(lv.take(i + 1).last() == ls@[i as int]@);
        }
        let t = trim_str(ls[i].as_str());
        if !t.as_str().is_empty() {
            proof {
                assert(views(r@.push(t)) =~= views(r@).push(t@));
            }
            r.push(t);
        }
        i += 1;
    }
    assert(lv.take(ls.len() as int) =~= lv);
    r
}

/// The error of a network removal retried after its containers were removed.
pub fn network_remove_retry_error(err: &str, retry_err: &str) -> (r: String)
    ensures
        r@ == err@ + "; retry after removing active endpoints failed: "@ + retry_err@,
{
    cat3(err, "; retry after removing active endpoints failed: ", retry_err)
}

/// The container name of a service on a network: `<network>-svc-<id>`.
pub fn service_container_name(network: &str, service_id: &str) -> (r: String)
    ensures
        r@ == network@ + "-svc-"@ + service_id@,
{
    cat3(network, "-svc-", service_id)
}

/// A service's extra options: its network alias, then its own options when not blank.
pub open spec fn service_options_spec(id: Seq<char>, options: Option<String>) -> Seq<char> {
    match options {
        Some(o) => if trim(o@).len() > 0 {
            "--network-alias "@ + id + " "@ + o@
        } else {
            "--network-alias "@ + id
        },
        None => "--network-alias "@ + id,
    }
}

/// The `docker run` configuration of a service container: detached on the job network,
/// reachable by its id, with its own environment, ports, options and health check.
pub fn service_run_config(service: &ServiceSpec, network: &str) -> (r: DockerRunConfig)
    requires
        service.ports.wf(),
    ensures
        r.name@ == network@ + "-svc-"@ + service.id@,
        r.image@ == service.image@,
        r.network@ == network@,
        r.env@ == service.env@,
        r.binds@.len() == 0,
        r.extra_hosts@.len() == 0,
        r.ports.wf(),
        text_map(r.ports) == text_map(service.ports),
        r.options matches Some(o) && o@ == service_options_spec(service.id@, service.options),
        r.health_cmd == service.health_cmd,
        r.detach,
        r.command@.len() == 0,
{
    let options = match &service.options {
        Some(o) => {
            let t = trim_str(o.as_str());
            if !t.as_str().is_empty() {
                let mut s = cat3("--network-alias ", service.id.as_str(), " ");
                s.append(o.as_str());
                s
            } else {
                cat("--network-alias ", service.id.as_str())
            }
        },
        None => cat("--network-alias ", service.id.as_str()),
    };
    DockerRunConfig {
        name: service_container_name(network, service.id.as_str()),
        image: service.image.clone(),
        network: owned(network),
        env: copy_strings(&service.env),
        binds: Vec::new(),
        extra_hosts: Vec::new(),
        ports: service.ports.duplicate(),
        options: Some(options),
        health_cmd: match &service.health_cmd {
            Some(h) => Some(h.clone()),
            None => None,
        },
        detach: true,
        command: Vec::new(),
    }
}

/// The `docker run` configuration of a job's runner container.
pub fn runner_run_config(plan: &JobExecutionPlan, network: &str) -> (r: DockerRunConfig)
    ensures
        r.name@ == plan.container_name@,
        r.image@ == plan.image@,
        r.network@ == network@,
        r.env@ == plan.env@,
        r.binds@ == plan.binds@,
        r.extra_hosts@ == plan.extra_hosts@,
        r.ports.wf(),
        text_map(r.ports) == Map::<Seq<char>, Seq<char>>::empty(),
        r.options is None,
        r.health_cmd is None,
        r.detach,
        r.command@ == plan.command@,
{
    let ports: StrMap<String> = StrMap::new();
    assert(text_map(ports) =~= Map::<Seq<char>, Seq<char>>::empty());
    DockerRunConfig {
        name: plan.container_name.clone(),
        image: plan.image.clone(),
        network: owned(network),
        env: copy_strings(&plan.env),
        binds: copy_strings(&plan.binds),
        extra_hosts: copy_strings(&plan.extra_hosts),
        ports,
        options: None,
        health_cmd: None,
        detach: true,
        command: copy_strings(&plan.command),
    }
}

/// The `docker inspect` arguments that read a container's health.
pub fn health_inspect_args(container_name: &str) -> (r: Vec<String>)
    ensures
        views(r@) == seq![
            "inspect"@,
            "-f"@,
            "{{if .State.Health}}{{.State.Health.Status}}{{else}}healthy{{end}}"@,
            container_name@,
        ],
{
    let mut v: Vec<String> = Vec::new();
    v.push(owned("inspect"));
    v.push(owned("-f"));
    v.push(owned("{{if .State.Health}}{{.State.Health.Status}}{{else}}healthy{{end}}"));
    v.push(owned(container_name));
    assert(views(v@) =~= seq![
        "inspect"@,
        "-f"@,
        "{{if .State.Health}}{{.State.Health.Status}}{{else}}healthy{{end}}"@,
        container_name@,
    ]);
    v
}

/// The error when a service never became healthy.
pub fn unhealthy_service_message(service: &StartedService, last_status: &str) -> (r: String)
    ensures
        r@ == "service '"@ + service.id@ + "' is not healthy yet: "@ + last_status@,
{
    let mut r = cat3("service '", service.id.as_str(), "' is not healthy yet: ");
    r.append(last_status);
    r
}

} // verus!
