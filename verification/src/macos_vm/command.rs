use crate::text::{cat, cat3, owned, views};
use vstd::prelude::*;

verus! {

/// A program and its arguments.
#[derive(Debug, Clone, PartialEq, Eq)]
pub struct CommandSpec {
    pub program: String,
    pub args: Vec<String>,
}

impl CommandSpec {
    /// A command from a program name and arguments.
    pub fn new(program: &str, args: Vec<String>) -> (c: Self)
        ensures
            c.program@ == program@,
            c.args@ == args@,
    {
        CommandSpec { program: owned(program), args }
    }
}

fn strings(items: &[&str]) -> (v: Vec<String>)
    ensures
        views(v@) == items@.map_values(|s: &str| s@),
{
    let mut v: Vec<String> = Vec::new();
    let mut i: usize = 0;
    while i < items.len()
        invariant
            i <= items.len(),
            views(v@) == items@.take(i as int).map_values(|s: &str| s@),
        decreases items.len() - i,
    {
        let ghost before = v@;
        v.push(owned(items[i]));
        proof {
            assert(views(v@) =~= views(before).push(items@[i as int]@));
            assert(items@.take(i + 1) =~= items@.take(i as int).push(items@[i as int]));
        }
        i += 1;
        assert(views(v@) =~= items@.take(i as int).map_values(|s: &str| s@));
    }
    assert(items@.take(items.len() as int) =~= items@);
    v
}

fn tart(args: &[&str]) -> (c: CommandSpec)
    ensures
        c.program@ == "tart"@,
        views(c.args@) == args@.map_values(|s: &str| s@),
{
    CommandSpec::new("tart", strings(args))
}

/// `tart pull <image>`.
pub fn tart_pull_args(image: &str) -> (c: CommandSpec)
    ensures
        c.program@ == "tart"@,
        views(c.args@) == seq!["pull"@, image@],
{
    let c = tart(&["pull", image]);
    assert(views(c.args@) =~= seq!["pull"@, image@]);
    c
}

/// `tart clone <base> <name>`.
pub fn tart_clone_args(base: &str, name: &str) -> (c: CommandSpec)
    ensures
        c.program@ == "tart"@,
        views(c.args@) == seq!["clone"@, base@, name@],
{
    let c = tart(&["clone", base, name]);
    assert(views(c.args@) =~= seq!["clone"@, base@, name@]);
    c
}

/// `tart run [--no-graphics] <name>`.
pub fn tart_run_args(name: &str, graphics: bool) -> (c: CommandSpec)
    ensures
        c.program@ == "tart"@,
        views(c.args@) == seq!["run"@] + (if graphics {
            Seq::empty()
        } else {
            seq!["--no-graphics"@]
        }) + seq![name@],
{
    let c = if graphics {
        tart(&["run", name])
    } else {
        tart(&["run", "--no-graphics", name])
    };
    assert(views(c.args@) =~= seq!["run"@] + (if graphics {
        Seq::empty()
    } else {
        seq!["--no-graphics"@]
    }) + seq![name@]);
    c
}

/// `tart ip <name>`.
pub fn tart_ip_args(name: &str) -> (c: CommandSpec)
    ensures
        c.program@ == "tart"@,
        views(c.args@) == seq!["ip"@, name@],
{
    let c = tart(&["ip", name]);
    assert(views(c.args@) =~= seq!["ip"@, name@]);
    c
}

/// `tart stop <name>`.
pub fn tart_stop_args(name: &str) -> (c: CommandSpec)
    ensures
        c.program@ == "tart"@,
        views(c.args@) == seq!["stop"@, name@],
{
    let c = tart(&["stop", name]);
    assert(views(c.args@) =~= seq!["stop"@, name@]);
    c
}

/// `tart delete <name>`.
pub fn tart_delete_args(name: &str) -> (c: CommandSpec)
    ensures
        c.program@ == "tart"@,
        views(c.args@) == seq!["delete"@, name@],
{
    let c = tart(&["delete", name]);
    assert(views(c.args@) =~= seq!["delete"@, name@]);
    c
}

/// `tart list --format json`.
pub fn tart_list_args() -> (c: CommandSpec)
    ensures
        c.program@ == "tart"@,
        views(c.args@) == seq!["list"@, "--format"@, "json"@],
{
    let c = tart(&["list", "--format", "json"]);
    assert(views(c.args@) =~= seq!["list"@, "--format"@, "json"@]);
    c
}

/// SSH login for a guest.
#[derive(Debug, Clone, PartialEq, Eq)]
pub struct SshCreds {
    pub user: String,
    pub password: String,
    pub reverse_tunnel: Option<String>,
}

/// The `sshpass` argument list for running `remote_cmd` on `ip`.
pub open spec fn ssh_args_spec(ip: Seq<char>, creds: SshCreds, remote_cmd: Seq<Seq<char>>) -> Seq<Seq<char>> {
    seq![
        "-p"@,
        creds.password@,
        "ssh"@,
        "-o"@,
        "StrictHostKeyChecking=no"@,
        "-o"@,
        "UserKnownHostsFile=/dev/null"@,
        "-o"@,
        "LogLevel=ERROR"@,
        "-o"@,
        "ConnectTimeout=5"@,
    ] + (match creds.reverse_tunnel {
        Some(t) => seq!["-R"@, t@],
        None => Seq::empty(),
    }) + seq![creds.user@ + "@"@ + ip] + remote_cmd
}

fn push_view(v: &mut Vec<String>, s: String)
    ensures
        views(final(v)@) == views(old(v)@).push(s@),
{
    v.push(s);
    assert(views(final(v)@) =~= views(old(v)@).push(s@));
}

fn push_all_views(v: &mut Vec<String>, items: &Vec<String>)
    ensures
        views(final(v)@) == views(old(v)@) + views(items@),
{
    let mut i: usize = 0;
    while i < items.len()
        invariant
            i <= items.len(),
            views(v@) == views(old(v)@) + views(items@.take(i as int)),
        decreases items.len() - i,
    {
        push_view(v, items[i].clone());
        i += 1;
        assert(views(v@) =~= views(old(v)@) + views(items@.take(i as int)));
    }
    assert(items@.take(items.len() as int) =~= items@);
}

/// `sshpass -p <password> ssh ... <user>@<ip> <remote_cmd...>`.
pub fn ssh_args(ip: &str, creds: &SshCreds, remote_cmd: &Vec<String>) -> (c: CommandSpec)
    ensures
        c.program@ == "sshpass"@,
        views(c.args@) == ssh_args_spec(ip@, *creds, views(remote_cmd@)),
{
    let mut args = strings(
        &[
            "-p",
            creds.password.as_str(),
            "ssh",
            "-o",
            "StrictHostKeyChecking=no",
            "-o",
            "UserKnownHostsFile=/dev/null",
            "-o",
            "LogLevel=ERROR",
            "-o",
            "ConnectTimeout=5",
        ],
    );
    if let Some(tunnel) = &creds.reverse_tunnel {
        push_view(&mut args, owned("-R"));
        push_view(&mut args, tunnel.clone());
    }
    push_view(&mut args, cat3(creds.user.as_str(), "@", ip));
    push_all_views(&mut args, remote_cmd);
    assert(views(args@) =~= ssh_args_spec(ip@, *creds, views(remote_cmd@)));
    CommandSpec::new("sshpass", args)
}

/// The `rsync` argument list.
pub open spec fn rsync_args_spec(
    src: Seq<char>,
    dst: Seq<char>,
    creds: SshCreds,
    exclude: Seq<Seq<char>>,
    delete: bool,
) -> Seq<Seq<char>> {
    seq![
        "-az"@,
        "-e"@,
        "sshpass -p "@ + creds.password@
            + " ssh -o StrictHostKeyChecking=no -o UserKnownHostsFile=/dev/null -o LogLevel=ERROR"@,
    ] + (if delete {
        seq!["--delete"@]
    } else {
        Seq::empty()
    }) + crate::docker::config::flagged("--exclude"@, exclude) + seq![src, dst]
}

/// `rsync -az -e <ssh> [--delete] [--exclude p]... <src> <dst>`.
pub fn rsync_args(src: &str, dst: &str, creds: &SshCreds, exclude: &Vec<String>, delete: bool) -> (c: CommandSpec)
    ensures
        c.program@ == "rsync"@,
        views(c.args@) == rsync_args_spec(src@, dst@, *creds, views(exclude@), delete),
{
    let rsh = cat3(
        "sshpass -p ",
        creds.password.as_str(),
        " ssh -o StrictHostKeyChecking=no -o UserKnownHostsFile=/dev/null -o LogLevel=ERROR",
    );
    let mut args: Vec<String> = Vec::new();
    push_view(&mut args, owned("-az"));
    push_view(&mut args, owned("-e"));
    push_view(&mut args, rsh);
    if delete {
        push_view(&mut args, owned("--delete"));
    }
    let ghost before = views(args@);
    let mut i: usize = 0;
    while i < exclude.len()
        invariant
            i <= exclude.len(),
            views(args@) == before + crate::docker::config::flagged("--exclude"@, views(exclude@.take(i as int))),
        decreases exclude.len() - i,
    {
        proof {
            assert(views(exclude@.take(i + 1)).drop_last() =~= views(exclude@.take(i as int)));
        }
        push_view(&mut args, owned("--exclude"));
        push_view(&mut args, exclude[i].clone());
        i += 1;
        assert(views(args@) =~= before + crate::docker::config::flagged("--exclude"@, views(exclude@.take(i as int))));
    }
    assert(exclude@.take(exclude.len() as int) =~= exclude@);
    push_view(&mut args, owned(src));
    push_view(&mut args, owned(dst));
    assert(views(args@) =~= rsync_args_spec(src@, dst@, *creds, views(exclude@), delete));
    CommandSpec::new("rsync", args)
}

} // verus!
