//! Which seeded job a polling runner session receives: jobs seeded for a named runner go to
//! that runner's sessions, other jobs to any session in ascending order of their ids.
use crate::strmap::{StrMap, lemma_seq_lt_irreflexive, lemma_seq_lt_transitive, seq_lt};
use crate::text::owned;
use vstd::prelude::*;

verus! {

/// The contents of a map of strings, as a mathematical map.
pub open spec fn contents<J>(m: StrMap<J>) -> Map<Seq<char>, J> {
    Map::new(|k: Seq<char>| m.lookup(k) is Some, |k: Seq<char>| m.lookup(k)->0)
}

/// The least key of a map, by character order, when it has keys.
pub open spec fn least_key<J>(m: Map<Seq<char>, J>) -> Option<Seq<char>> {
    if exists|k: Seq<char>| m.contains_key(k) {
        Some(choose|k: Seq<char>| m.contains_key(k) && forall|q: Seq<char>| #[trigger] m.contains_key(q) ==> q == k || seq_lt(k, q))
    } else {
        None
    }
}

/// What a poll hands out: nothing for an unknown session, nothing when no job waits, or a
/// job with the id it was seeded under (a runner's name for a job seeded for that runner) and
/// the name of the runner that owns the polling session.
#[derive(Debug)]
pub enum Dispatch<J> {
    NoSession,
    NoJob,
    Job { job_id: String, job: J, runner: String },
}

/// The seeded jobs and the open runner sessions of the DTU server.
#[derive(Debug)]
pub struct JobBroker<J> {
    jobs: StrMap<J>,
    runner_jobs: StrMap<J>,
    sessions: StrMap<String>,
}

impl<J> JobBroker<J> {
    /// Jobs waiting for any runner, by id.
    pub closed spec fn queued(self) -> Map<Seq<char>, J> {
        contents(self.jobs)
    }

    /// Jobs waiting for a named runner, by runner name.
    pub closed spec fn targeted(self) -> Map<Seq<char>, J> {
        contents(self.runner_jobs)
    }

    /// Open sessions, each with the name of the runner that owns it.
    pub closed spec fn sessions(self) -> Map<Seq<char>, Seq<char>> {
        Map::new(|k: Seq<char>| self.sessions.lookup(k) is Some, |k: Seq<char>| self.sessions.lookup(k)->0@)
    }

    pub closed spec fn wf(self) -> bool {
        self.jobs.wf() && self.runner_jobs.wf() && self.sessions.wf()
    }

    /// A broker with no jobs and no sessions.
    pub fn new() -> (b: Self)
        ensures
            b.wf(),
            b.queued() == Map::<Seq<char>, J>::empty(),
            b.targeted() == Map::<Seq<char>, J>::empty(),
            b.sessions() == Map::<Seq<char>, Seq<char>>::empty(),
    {
        let b = JobBroker { jobs: StrMap::new(), runner_jobs: StrMap::new(), sessions: StrMap::new() };
        assert(b.queued() =~= Map::<Seq<char>, J>::empty());
        assert(b.targeted() =~= Map::<Seq<char>, J>::empty());
        assert(b.sessions() =~= Map::<Seq<char>, Seq<char>>::empty());
        b
    }

    /// Seeds a job: for the named runner when there is one (replacing that runner's waiting
    /// job), else under its id.
    pub fn seed(&mut self, job_id: String, runner: Option<String>, job: J)
        requires
            old(self).wf(),
        ensures
            final(self).wf(),
            final(self).sessions() == old(self).sessions(),
            match runner {
                Some(r) => final(self).targeted() == old(self).targeted().insert(r@, job)
                    && final(self).queued() == old(self).queued(),
                None => final(self).queued() == old(self).queued().insert(job_id@, job)
                    && final(self).targeted() == old(self).targeted(),
            },
    {
        let ghost before = *self;
        match runner {
            Some(r) => {
                let ghost k = r@;
                self.runner_jobs.insert(r, job);
                assert(self.targeted() =~= before.targeted().insert(k, job));
            },
            None => {
                let ghost k = job_id@;
                self.jobs.insert(job_id, job);
                assert(self.queued() =~= before.queued().insert(k, job));
            },
        }
        assert(self.sessions() =~= before.sessions());
    }

    /// The job waiting for any runner under `job_id`, if there is one.
    pub fn queued_job(&self, job_id: &str) -> (r: Option<&J>)
        requires
            self.wf(),
        ensures
            match r {
                Some(j) => self.queued().contains_key(job_id@) && self.queued()[job_id@] == *j,
                None => !self.queued().contains_key(job_id@),
            },
    {
        self.jobs.get(job_id)
    }

    /// Opens a session owned by the named runner.
    pub fn open_session(&mut self, session_id: String, runner: String)
        requires
            old(self).wf(),
        ensures
            final(self).wf(),
            final(self).sessions() == old(self).sessions().insert(session_id@, runner@),
            final(self).queued() == old(self).queued(),
            final(self).targeted() == old(self).targeted(),
    {
        let ghost before = *self;
        let ghost k = session_id@;
        let ghost v = runner@;
        self.sessions.insert(session_id, runner);
        assert(self.sessions() =~= before.sessions().insert(k, v));
    }

    /// Closes a session.
    pub fn close_session(&mut self, session_id: &str)
        requires
            old(self).wf(),
        ensures
            final(self).wf(),
            final(self).sessions() == old(self).sessions().remove(session_id@),
            final(self).queued() == old(self).queued(),
            final(self).targeted() == old(self).targeted(),
    {
        let ghost before = *self;
        self.sessions.remove(session_id);
        assert(self.sessions() =~= before.sessions().remove(session_id@));
    }

    /// A poll from a session: an unknown (or missing) session gets nothing; otherwise the job
    /// waiting for the session's runner is handed out first, else the waiting job with the
    /// least id, else nothing. A handed-out job leaves the broker.
    pub fn poll(&mut self, session_id: Option<&str>) -> (r: Dispatch<J>)
        requires
            old(self).wf(),
        ensures
            final(self).wf(),
            final(self).sessions() == old(self).sessions(),
            match session_id {
                None => r is NoSession && final(self).queued() == old(self).queued()
                    && final(self).targeted() == old(self).targeted(),
                Some(sid) => if !old(self).sessions().contains_key(sid@) {
                    r is NoSession && final(self).queued() == old(self).queued()
                        && final(self).targeted() == old(self).targeted()
                } else {
                    let name = old(self).sessions()[sid@];
                    if old(self).targeted().contains_key(name) {
                        &&& r matches Dispatch::Job { job_id, job, runner }
                            && job_id@ == name && runner@ == name && job == old(self).targeted()[name]
                        &&& final(self).targeted() == old(self).targeted().remove(name)
                        &&& final(self).queued() == old(self).queued()
                    } else {
                        match least_key(old(self).queued()) {
                            Some(k) => {
                                &&& r matches Dispatch::Job { job_id, job, runner }
                                    && job_id@ == k && runner@ == name && job == old(self).queued()[k]
                                &&& final(self).queued() == old(self).queued().remove(k)
                                &&& final(self).targeted() == old(self).targeted()
                            },
                            None => r is NoJob && final(self).queued() == old(self).queued()
                                && final(self).targeted() == old(self).targeted(),
                        }
                    }
                },
            },
    {
        let ghost before = *self;
        let sid = match session_id {
            Some(s) => s,
            None => {
                return Dispatch::NoSession;
            },
        };
        let runner = match self.sessions.get(sid) {
            Some(n) => n.clone(),
            None => {
                assert(!before.sessions().contains_key(sid@));
                return Dispatch::NoSession;
            },
        };
        assert(before.sessions().contains_key(sid@));
        assert(before.sessions()[sid@] == runner@);
        match self.runner_jobs.remove(runner.as_str()) {
            Some(job) => {
                assert(self.targeted() =~= before.targeted().remove(runner@));
                let job_id = owned(runner.as_str());
                return Dispatch::Job { job_id, job, runner };
            },
            None => {
                assert(self.targeted() =~= before.targeted());
                assert(!before.targeted().contains_key(runner@));
            },
        }
        if self.jobs.is_empty() {
            proof {
                assert(!exists|k: Seq<char>| before.queued().contains_key(k)) by {
                    if exists|k: Seq<char>| before.queued().contains_key(k) {
                        let k = choose|k: Seq<char>| before.queued().contains_key(k);
                        assert(before.jobs.keys().contains(k));
                    }
                }
            }
            return Dispatch::NoJob;
        }
        let first = self.jobs.key_at(0).clone();
        proof {
            let m = before.queued();
            let k = first@;
            before.jobs.lemma_index_of(0);
            assert(m.contains_key(k));
            assert forall|q: Seq<char>| #[trigger] m.contains_key(q) implies q == k || seq_lt(k, q) by {
                let j = choose|j: int| 0 <= j < before.jobs.keys().len() && before.jobs.keys()[j] == q;
                if j > 0 {
                    assert(seq_lt(before.jobs.keys()[0], before.jobs.keys()[j]));
                }
            }
            let c = choose|c: Seq<char>| m.contains_key(c) && forall|q: Seq<char>| #[trigger] m.contains_key(q) ==> q == c || seq_lt(c, q);
            assert(least_key(m) == Some(c));
            if c != k {
                assert(seq_lt(c, k));
                assert(seq_lt(k, c));
                lemma_seq_lt_transitive(c, k, c);
                lemma_seq_lt_irreflexive(c);
            }
        }
        match self.jobs.remove(first.as_str()) {
            Some(job) => {
                assert(self.queued() =~= before.queued().remove(first@));
                Dispatch::Job { job_id: first, job, runner }
            },
            None => {
                assert(false);
                Dispatch::NoJob
            },
        }
    }
}

} // verus!
