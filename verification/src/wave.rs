//! How many jobs run at once, and the bookkeeping of a bounded worker pool.
use crate::text::{bounded, is_prefix, lines, lines_of, parse_u64, strip_prefix, trim, trim_str,
    unsigned_literal, views, words, first_word};
use vstd::prelude::*;

verus! {

/// Memory set aside for each job container: 6 GiB.
pub const BYTES_PER_CONTAINER: u64 = 6442450944;

/// The default limit: half the CPUs (at least one), lowered to what the Docker VM's memory
/// holds at `BYTES_PER_CONTAINER` each when that is known, and never below one.
pub open spec fn job_limit(cpu_count: nat, memory: Option<u64>) -> nat {
    let cpu_limit: nat = if cpu_count / 2 >= 1 { cpu_count / 2 } else { 1 };
    match memory {
        None => cpu_limit,
        Some(m) => {
            let memory_limit: nat = (m / BYTES_PER_CONTAINER) as nat;
            let lower: nat = if cpu_limit <= memory_limit { cpu_limit } else { memory_limit };
            if lower >= 1 { lower } else { 1 }
        },
    }
}

/// The default number of concurrent jobs for a host with `cpu_count` CPUs and, when known,
/// `docker_available_memory_bytes` of memory in the Docker VM.
pub fn default_max_concurrent_jobs_from(cpu_count: usize, docker_available_memory_bytes: Option<u64>) -> (r: usize)
    ensures
        r == job_limit(cpu_count as nat, docker_available_memory_bytes),
        r >= 1,
{
    let half = cpu_count / 2;
    let cpu_limit: usize = if half >= 1 { half } else { 1 };
    match docker_available_memory_bytes {
        None => cpu_limit,
        Some(available) => {
            let memory_limit: u64 = available / BYTES_PER_CONTAINER;
            let lower: usize = if (cpu_limit as u64) <= memory_limit {
                cpu_limit
            } else {
                memory_limit as usize
            };
            if lower >= 1 {
                lower
            } else {
                1
            }
        },
    }
}

/// The kilobytes on one `/proc/meminfo` line, when it is the `MemAvailable:` line.
pub open spec fn mem_available_line(line: Seq<char>) -> Option<nat> {
    let t = trim(line);
    if is_prefix("MemAvailable:"@, t) {
        let ws = words(trim(t.skip("MemAvailable:"@.len() as int)));
        if ws.len() > 0 {
            bounded(unsigned_literal(ws[0]), u64::MAX as nat)
        } else {
            None
        }
    } else {
        None
    }
}

/// The value of the first line that gives one.
pub open spec fn mem_available(ls: Seq<Seq<char>>) -> Option<nat>
    decreases ls.len(),
{
    if ls.len() == 0 {
        None
    } else {
        match mem_available_line(ls[0]) {
            Some(v) => Some(v),
            None => mem_available(ls.skip(1)),
        }
    }
}

/// The `MemAvailable` figure, in kB, of `/proc/meminfo` output.
pub fn parse_mem_available_kb(raw: &str) -> (r: Option<u64>)
    ensures
        match r {
            Some(v) => mem_available(lines_of(raw@)) == Some(v as nat),
            None => mem_available(lines_of(raw@)) is None,
        },
{
    let ls = lines(raw);
    let ghost all = views(ls@);
    assert(all.skip(0) =~= all);
    let mut i: usize = 0;
    while i < ls.len()
        invariant
            all == views(ls@),
            all == lines_of(raw@),
            i <= ls.len(),
            mem_available(all) == mem_available(all.skip(i as int)),
        decreases ls.len() - i,
    {
        let ghost rest = all.skip(i as int);
        assert(rest[0] == ls@[i as int]@);
        assert(rest.skip(1) =~= all.skip(i + 1));
        let t = trim_str(ls[i].as_str());
        if let Some(after) = strip_prefix(t.as_str(), "MemAvailable:") {
            let rest_t = trim_str(after.as_str());
            if let Some(w) = first_word(rest_t.as_str()) {
                if let Some(v) = parse_u64(w.as_str()) {
                    return Some(v);
                }
            }
        }
        i += 1;
    }
    None
}

/// What a worker reports: an event of its own, or that it finished with an outcome.
pub enum ConcurrentWorkerEvent<R, E> {
    Worker(E),
    Finished { index: usize, outcome: Result<R, String> },
}

/// The bookkeeping of a pool that runs `total` queued jobs with at most `max_jobs` at once.
/// The caller starts a job when `start_next` hands one out and reports each finished job with
/// `finish`; the pool is done when `is_done` holds.
pub struct WorkerPool {
    pub max_jobs: usize,
    pub total: usize,
    pub started: usize,
    pub active: usize,
    pub finished: usize,
}

impl WorkerPool {
    /// The counters agree: every job is queued, running or finished, and no more than
    /// `max_jobs` run at once.
    pub open spec fn wf(&self) -> bool {
        &&& self.max_jobs >= 1
        &&& self.started <= self.total
        &&& self.active <= self.max_jobs
        &&& self.started == self.active + self.finished
    }

    /// A pool over `total` jobs; a limit of zero counts as one.
    pub fn new(max_jobs: usize, total: usize) -> (p: WorkerPool)
        ensures
            p.wf(),
            p.max_jobs == (if max_jobs >= 1 { max_jobs } else { 1 }),
            p.total == total,
            p.started == 0,
            p.active == 0,
            p.finished == 0,
    {
        WorkerPool { max_jobs: if max_jobs >= 1 { max_jobs } else { 1 }, total, started: 0, active: 0, finished: 0 }
    }

    /// The position in the queue of the next job to start, when a slot is free and a job waits.
    pub fn start_next(&mut self) -> (r: Option<usize>)
        requires
            old(self).wf(),
        ensures
            final(self).wf(),
            final(self).max_jobs == old(self).max_jobs,
            final(self).total == old(self).total,
            final(self).finished == old(self).finished,
            match r {
                Some(k) => {
                    &&& old(self).active < old(self).max_jobs
                    &&& old(self).started < old(self).total
                    &&& k == old(self).started
                    &&& final(self).started == old(self).started + 1
                    &&& final(self).active == old(self).active + 1
                },
                None => {
                    &&& (old(self).active >= old(self).max_jobs || old(self).started >= old(self).total)
                    &&& *final(self) == *old(self)
                },
            },
    {
        if self.active < self.max_jobs && self.started < self.total {
            let k = self.started;
            self.started = self.started + 1;
            self.active = self.active + 1;
            Some(k)
        } else {
            None
        }
    }

    /// Records that a running job finished.
    pub fn finish(&mut self)
        requires
            old(self).wf(),
            old(self).active > 0,
        ensures
            final(self).wf(),
            final(self).max_jobs == old(self).max_jobs,
            final(self).total == old(self).total,
            final(self).started == old(self).started,
            final(self).active == old(self).active - 1,
            final(self).finished == old(self).finished + 1,
    {
        self.active = self.active - 1;
        self.finished = self.finished + 1;
    }

    /// Every job has finished.
    pub fn is_done(&self) -> (r: bool)
        ensures
            r == (self.finished >= self.total),
    {
        self.finished >= self.total
    }
}

/// The outcomes are in order of their job index.
pub open spec fn sorted_by_index<R>(s: Seq<(usize, R)>) -> bool {
    forall|i: int, j: int| 0 <= i < j < s.len() ==> s[i].0 <= s[j].0
}

/// Adds a successful outcome, keeping the outcomes in order of index; among equal indices
/// the earlier arrival stays first.
pub fn insert_outcome<R>(outcomes: &mut Vec<(usize, R)>, index: usize, value: R)
    requires
        sorted_by_index(old(outcomes)@),
    ensures
        sorted_by_index(final(outcomes)@),
        exists|pos: int|
            0 <= pos <= old(outcomes)@.len() && final(outcomes)@ == old(outcomes)@.insert(pos, (index, value))
                && (forall|k: int| 0 <= k < pos ==> old(outcomes)@[k].0 <= index)
                && (forall|k: int| pos <= k < old(outcomes)@.len() ==> old(outcomes)@[k].0 > index),
{
    let n = outcomes.len();
    let mut pos: usize = n;
    while pos > 0 && outcomes[pos - 1].0 > index
        invariant
            pos <= n,
            n == outcomes.len(),
            sorted_by_index(outcomes@),
            forall|k: int| pos <= k < n ==> outcomes@[k].0 > index,
        decreases pos,
    {
        pos = pos - 1;
    }
    proof {
        assert forall|k: int| 0 <= k < pos implies outcomes@[k].0 <= index by {
            if pos > 0 {
                assert(outcomes@[pos - 1].0 <= index);
            }
        }
    }
    let ghost before = outcomes@;
    outcomes.insert(pos, (index, value));
    proof {
        let after = outcomes@;
        assert forall|i: int, j: int| 0 <= i < j < after.len() implies after[i].0 <= after[j].0 by {
            if j < pos {
            } else if i < pos && j == pos {
            } else if i < pos {
                assert(before[i].0 <= before[j - 1].0);
            } else if i == pos {
            } else {
                assert(before[i - 1].0 <= before[j - 1].0);
            }
        }
    }
}

} // verus!
