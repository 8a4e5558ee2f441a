//! The job table.
//!
//! The table tracks every launched pipeline as one job: its process group,
//! the member pids not yet reaped, its state and whether the shell is
//! currently blocked on it.  The launcher registers a job before the child
//! signal is unblocked; each observed exit is reaped member by member; a job
//! whose last member has been reaped is `Done` and is dropped the next time
//! the table is tidied.

use vstd::prelude::*;

verus! {

/// The lifecycle state of a tracked job.  `Stopped` belongs to the job
/// control extension point; the core only moves jobs from `Running` to
/// `Done`.
#[derive(Debug, PartialEq, Eq, Structural, Clone, Copy)]
pub enum JobState {
    Running,
    Stopped,
    Done,
}

/// One tracked pipeline.
#[derive(Debug)]
pub struct Job {
    pub pgid: i32,
    pub member_pids: Vec<i32>,
    pub state: JobState,
    pub is_foreground: bool,
}

impl Job {
    /// The job holds `pid` as a member that has not been reaped yet.
    pub open spec fn has_member(self, pid: i32) -> bool {
        self.member_pids@.contains(pid)
    }

    /// Well-formed: each member is listed once, and the job is `Done`
    /// exactly when every member has been reaped.
    pub open spec fn wf(self) -> bool {
        &&& forall|a: int, b: int|
            0 <= a < b < self.member_pids@.len() ==> self.member_pids@[a] != self.member_pids@[b]
        &&& (self.state is Done <==> self.member_pids@.len() == 0)
    }
}

/// The process-wide table of active jobs.
#[derive(Debug)]
pub struct JobTable {
    jobs: Vec<Job>,
}

impl View for JobTable {
    type V = Seq<Job>;

    closed spec fn view(&self) -> Seq<Job> {
        self.jobs@
    }
}

impl JobTable {
    /// Some job holds this process group.
    pub open spec fn has_pgid(self, pgid: i32) -> bool {
        exists|k: int| 0 <= k < self@.len() && self@[k].pgid == pgid
    }

    /// Some job holds this pid as an unreaped member.
    pub open spec fn tracks(self, pid: i32) -> bool {
        exists|k: int| 0 <= k < self@.len() && self@[k].has_member(pid)
    }

    /// Some job is the foreground job.
    pub open spec fn has_foreground(self) -> bool {
        exists|k: int| 0 <= k < self@.len() && self@[k].is_foreground
    }

    /// Well-formed: every job is, process groups are distinct, no pid is a
    /// member of two jobs, and at most one job is in the foreground.
    pub open spec fn wf(self) -> bool {
        &&& forall|k: int| 0 <= k < self@.len() ==> (#[trigger] self@[k]).wf()
        &&& forall|a: int, b: int|
            0 <= a < b < self@.len() ==> self@[a].pgid != self@[b].pgid
        &&& forall|a: int, b: int, pid: i32|
            0 <= a < self@.len() && 0 <= b < self@.len() && a != b ==> !((#[trigger] self@[a].has_member(
                pid,
            )) && (#[trigger] self@[b].has_member(pid)))
        &&& forall|a: int, b: int|
            0 <= a < self@.len() && 0 <= b < self@.len() && (#[trigger] self@[a].is_foreground) && (
            #[trigger] self@[b].is_foreground) ==> a == b
    }

    /// An empty table.
    pub fn new() -> (t: JobTable)
        ensures
            t.wf(),
            t@.len() == 0,
    {
        JobTable { jobs: Vec::new() }
    }

    /// Register a freshly launched pipeline as a job.  The launcher calls
    /// this after the last fork and before the child signal is unblocked,
    /// so the reaper never sees a pid the table does not know.
    pub fn register(&mut self, pgid: i32, member_pids: Vec<i32>, is_foreground: bool)
        requires
            old(self).wf(),
            !old(self).has_pgid(pgid),
            member_pids@.len() > 0,
            forall|a: int, b: int|
                0 <= a < b < member_pids@.len() ==> member_pids@[a] != member_pids@[b],
            forall|pid: i32| member_pids@.contains(pid) ==> !old(self).tracks(pid),
            is_foreground ==> !old(self).has_foreground(),
        ensures
            final(self).wf(),
            final(self)@.len() == old(self)@.len() + 1,
            forall|k: int| 0 <= k < old(self)@.len() ==> final(self)@[k] == old(self)@[k],
            final(self)@.last().pgid == pgid,
            final(self)@.last().member_pids@ == member_pids@,
            final(self)@.last().state is Running,
            final(self)@.last().is_foreground == is_foreground,
            final(self).tracks(member_pids@[0]),
    {
        let ghost pre = self.jobs@;
        let job = Job { pgid, member_pids, state: JobState::Running, is_foreground };
        self.jobs.push(job);
        proof {
            let n = pre.len() as int;
            assert(self@[n].has_member(self@[n].member_pids@[0]));
            assert forall|a: int, b: int, pid: i32|
                0 <= a < self@.len() && 0 <= b < self@.len() && a != b implies !((
            #[trigger] self@[a].has_member(pid)) && (#[trigger] self@[b].has_member(pid))) by {
                if a < n && b < n {
                    assert(!(pre[a].has_member(pid) && pre[b].has_member(pid)));
                } else if a == n && b < n {
                    if self@[a].has_member(pid) && self@[b].has_member(pid) {
                        assert(old(self).tracks(pid));
                    }
                } else if b == n && a < n {
                    if self@[a].has_member(pid) && self@[b].has_member(pid) {
                        assert(old(self).tracks(pid));
                    }
                }
            }
            assert forall|a: int, b: int|
                0 <= a < self@.len() && 0 <= b < self@.len() && (#[trigger] self@[a].is_foreground)
                    && (#[trigger] self@[b].is_foreground) implies a == b by {
                if a == n && b < n {
                    assert(old(self).has_foreground());
                } else if b == n && a < n {
                    assert(old(self).has_foreground());
                }
            }
        }
    }

    /// Reap one terminated pid: remove it from the job it belongs to and
    /// mark that job `Done` once its last member is gone.  Reaping a pid the
    /// table does not track changes nothing.
    pub fn reap(&mut self, pid: i32)
        requires
            old(self).wf(),
        ensures
            final(self).wf(),
            final(self)@.len() == old(self)@.len(),
            forall|k: int|
                0 <= k < final(self)@.len() ==> (#[trigger] final(self)@[k]).pgid == old(self)@[k].pgid
                    && final(self)@[k].is_foreground == old(self)@[k].is_foreground,
            forall|k: int| 0 <= k < final(self)@.len() ==> !(#[trigger] final(self)@[k]).has_member(pid),
            forall|k: int, q: i32|
                0 <= k < final(self)@.len() && q != pid ==> ((#[trigger] final(self)@[k].has_member(q))
                    <==> old(self)@[k].has_member(q)),
            forall|k: int|
                0 <= k < final(self)@.len() && old(self)@[k].has_member(pid)
                    ==> (#[trigger] final(self)@[k]).member_pids@.len() == old(self)@[k].member_pids@.len()
                    - 1,
            forall|k: int|
                0 <= k < final(self)@.len() && !old(self)@[k].has_member(pid)
                    ==> (#[trigger] final(self)@[k]).member_pids@ == old(self)@[k].member_pids@
                    && final(self)@[k].state == old(self)@[k].state,
            forall|k: int|
                0 <= k < final(self)@.len() && final(self)@[k].member_pids@.len() > 0
                    ==> (#[trigger] final(self)@[k]).state == old(self)@[k].state,
            !final(self).tracks(pid),
    {
        let ghost pre = self.jobs@;
        let n = self.jobs.len();
        let mut k: usize = 0;
        while k < n
            invariant
                n == self.jobs@.len(),
                n == pre.len(),
                k <= n,
                forall|j: int| 0 <= j < pre.len() ==> (#[trigger] self.jobs@[j]).pgid == pre[j].pgid
                    && self.jobs@[j].is_foreground == pre[j].is_foreground,
                forall|j: int| 0 <= j < k ==> !(#[trigger] self.jobs@[j]).has_member(pid),
                forall|j: int, q: i32|
                    0 <= j < pre.len() && q != pid ==> ((#[trigger] self.jobs@[j].has_member(q))
                        <==> pre[j].has_member(q)),
                forall|j: int|
                    0 <= j < k && pre[j].has_member(pid)
                        ==> (#[trigger] self.jobs@[j]).member_pids@.len() == pre[j].member_pids@.len()
                        - 1,
                forall|j: int|
                    (0 <= j < pre.len() && (j >= k || !pre[j].has_member(pid)))
                        ==> (#[trigger] self.jobs@[j]).member_pids@ == pre[j].member_pids@
                        && self.jobs@[j].state == pre[j].state,
                forall|j: int|
                    0 <= j < pre.len() && self.jobs@[j].member_pids@.len() > 0
                        ==> (#[trigger] self.jobs@[j]).state == pre[j].state,
                forall|j: int| 0 <= j < pre.len() ==> (#[trigger] self.jobs@[j]).wf(),
            decreases n - k,
        {
            let found = index_of(&self.jobs[k].member_pids, pid);
            match found {
                None => {
                },
                Some(idx) => {
                    let ghost oldpids = self.jobs@[k as int].member_pids@;
                    let _ = self.jobs[k].member_pids.remove(idx);
                    if self.jobs[k].member_pids.len() == 0 {
                        self.jobs[k].state = JobState::Done;
                    }
                    proof {
                        oldpids.remove_ensures(idx as int);
                        let newpids = self.jobs@[k as int].member_pids@;
                        assert(newpids == oldpids.remove(idx as int));
                        assert forall|q: i32| q != pid implies (newpids.contains(q)
                            <==> oldpids.contains(q)) by {
                            if newpids.contains(q) {
                                let w = choose|w: int| 0 <= w < newpids.len() && newpids[w] == q;
                                if w < idx {
                                    assert(oldpids[w] == q);
                                } else {
                                    assert(oldpids[w + 1] == q);
                                }
                            }
                            if oldpids.contains(q) {
                                let w = choose|w: int| 0 <= w < oldpids.len() && oldpids[w] == q;
                                if w < idx {
                                    assert(newpids[w] == q);
                                } else if w > idx {
                                    assert(newpids[w - 1] == q);
                                } else {
                                    assert(oldpids[idx as int] == pid);
                                }
                            }
                        }
                        assert(!newpids.contains(pid)) by {
                            if newpids.contains(pid) {
                                let w = choose|w: int|
                                    0 <= w < newpids.len() && newpids[w] == pid;
                                if w < idx {
                                    assert(oldpids[w] == pid);
                                    assert(oldpids[idx as int] == pid);
                                } else {
                                    assert(oldpids[w + 1] == pid);
                                    assert(oldpids[idx as int] == pid);
                                }
                            }
                        }
                        assert forall|a: int, b: int|
                            0 <= a < b < newpids.len() implies newpids[a] != newpids[b] by {
                            if a < idx {
                                assert(newpids[a] == oldpids[a]);
                            } else {
                                assert(newpids[a] == oldpids[a + 1]);
                            }
                            if b < idx {
                                assert(newpids[b] == oldpids[b]);
                            } else {
                                assert(newpids[b] == oldpids[b + 1]);
                            }
                        }
                        assert(self.jobs@[k as int].wf());
                    }
                },
            }
            k = k + 1;
        }
        proof {
            assert forall|j: int| 0 <= j < self@.len() implies !(#[trigger] self@[j]).has_member(
                pid,
            ) by {}
            if self.tracks(pid) {
                let w = choose|w: int| 0 <= w < self@.len() && self@[w].has_member(pid);
                assert(!self@[w].has_member(pid));
            }
            assert forall|a: int, b: int, q: i32|
                0 <= a < self@.len() && 0 <= b < self@.len() && a != b implies !((
            #[trigger] self@[a].has_member(q)) && (#[trigger] self@[b].has_member(q))) by {
                if self@[a].has_member(q) && self@[b].has_member(q) {
                    assert(q != pid);
                    assert(pre[a].has_member(q) && pre[b].has_member(q));
                }
            }
        }
    }

    /// The number of jobs in the table.
    pub fn len(&self) -> (n: usize)
        ensures
            n == self@.len(),
    {
        self.jobs.len()
    }

    /// The process group of the job that holds `pid`, if any does.
    pub fn pgid_of(&self, pid: i32) -> (r: Option<i32>)
        requires
            self.wf(),
        ensures
            match r {
                Some(pgid) => self.tracks(pid) && exists|k: int|
                    0 <= k < self@.len() && (#[trigger] self@[k]).pgid == pgid && self@[k].has_member(
                        pid,
                    ),
                None => !self.tracks(pid),
            },
    {
        let n = self.jobs.len();
        let mut k: usize = 0;
        while k < n
            invariant
                n == self@.len(),
                k <= n,
                forall|j: int| 0 <= j < k ==> !(#[trigger] self@[j]).has_member(pid),
            decreases n - k,
        {
            if contains_pid(&self.jobs[k].member_pids, pid) {
                return Some(self.jobs[k].pgid);
            }
            k = k + 1;
        }
        proof {
            if self.tracks(pid) {
                let w = choose|w: int| 0 <= w < self@.len() && self@[w].has_member(pid);
                assert(!self@[w].has_member(pid));
            }
        }
        None
    }

    /// The first unreaped member of the foreground job: the pid the shell
    /// should block on next.  `None` once no foreground member is left.
    pub fn next_foreground_pid(&self) -> (r: Option<i32>)
        requires
            self.wf(),
        ensures
            match r {
                Some(pid) => exists|k: int|
                    0 <= k < self@.len() && (#[trigger] self@[k]).is_foreground
                        && self@[k].member_pids@.len() > 0 && pid == self@[k].member_pids@[0],
                None => forall|k: int|
                    0 <= k < self@.len() && (#[trigger] self@[k]).is_foreground
                        ==> self@[k].member_pids@.len() == 0,
            },
    {
        let n = self.jobs.len();
        let mut k: usize = 0;
        while k < n
            invariant
                n == self@.len(),
                k <= n,
                forall|j: int|
                    0 <= j < k && (#[trigger] self@[j]).is_foreground
                        ==> self@[j].member_pids@.len() == 0,
            decreases n - k,
        {
            if self.jobs[k].is_foreground && self.jobs[k].member_pids.len() > 0 {
                let pid = self.jobs[k].member_pids[0];
                proof {
                    assert(self@[k as int].member_pids@.contains(
                        self@[k as int].member_pids@[0],
                    ));
                }
                return Some(pid);
            }
            k = k + 1;
        }
        None
    }

    /// Record a batch of reaped exits: the deferred half of the signal
    /// handler's work.  The handler only marks each reaped pid as pending;
    /// the main control path hands the collected pids here between
    /// commands, so every recorded termination is reflected in the table.
    pub fn note_exits(&mut self, pids: &Vec<i32>)
        requires
            old(self).wf(),
        ensures
            final(self).wf(),
            final(self)@.len() == old(self)@.len(),
            forall|k: int|
                0 <= k < final(self)@.len() ==> (#[trigger] final(self)@[k]).pgid == old(
                    self,
                )@[k].pgid && final(self)@[k].is_foreground == old(self)@[k].is_foreground,
            forall|k: int, p: i32|
                0 <= k < final(self)@.len() && pids@.contains(p) ==> !(
                #[trigger] final(self)@[k].has_member(p)),
            forall|k: int, q: i32|
                0 <= k < final(self)@.len() && !pids@.contains(q) ==> ((
                #[trigger] final(self)@[k].has_member(q)) <==> old(self)@[k].has_member(q)),
    {
        let ghost pre = self@;
        let mut i: usize = 0;
        while i < pids.len()
            invariant
                self.wf(),
                i <= pids@.len(),
                self@.len() == pre.len(),
                forall|k: int|
                    0 <= k < self@.len() ==> (#[trigger] self@[k]).pgid == pre[k].pgid
                        && self@[k].is_foreground == pre[k].is_foreground,
                forall|k: int, p: i32|
                    0 <= k < self@.len() && pids@.subrange(0, i as int).contains(p) ==> !(
                    #[trigger] self@[k].has_member(p)),
                forall|k: int, q: i32|
                    0 <= k < self@.len() && !pids@.subrange(0, i as int).contains(q) ==> ((
                    #[trigger] self@[k].has_member(q)) <==> pre[k].has_member(q)),
            decreases pids@.len() - i,
        {
            let ghost prev = self@;
            let ghost done = pids@.subrange(0, i as int);
            let pid = pids[i];
            self.reap(pid);
            i = i + 1;
            proof {
                let now = pids@.subrange(0, i as int);
                assert(now =~= done.push(pid));
                assert(now[done.len() as int] == pid);
                assert forall|k: int, p: i32|
                    0 <= k < self@.len() && now.contains(p) implies !(
                #[trigger] self@[k].has_member(p)) by {
                    if p == pid {
                    } else {
                        let w = choose|w: int| 0 <= w < now.len() && now[w] == p;
                        assert(done[w] == p);
                        assert(done.contains(p));
                        assert(!prev[k].has_member(p));
                    }
                }
                assert forall|k: int, q: i32|
                    0 <= k < self@.len() && !now.contains(q) implies ((
                #[trigger] self@[k].has_member(q)) <==> pre[k].has_member(q)) by {
                    assert(!done.contains(q)) by {
                        if done.contains(q) {
                            let w = choose|w: int| 0 <= w < done.len() && done[w] == q;
                            assert(now[w] == q);
                        }
                    }
                    assert(q != pid);
                    assert(self@[k].has_member(q) <==> prev[k].has_member(q));
                }
            }
        }
        proof {
            assert(pids@.subrange(0, pids@.len() as int) =~= pids@);
        }
    }

    /// Whether some job already holds this process group.
    pub fn contains_pgid(&self, pgid: i32) -> (r: bool)
        ensures
            r == self.has_pgid(pgid),
    {
        let n = self.jobs.len();
        let mut k: usize = 0;
        while k < n
            invariant
                n == self@.len(),
                k <= n,
                forall|j: int| 0 <= j < k ==> (#[trigger] self@[j]).pgid != pgid,
            decreases n - k,
        {
            if self.jobs[k].pgid == pgid {
                return true;
            }
            k = k + 1;
        }
        proof {
            if self.has_pgid(pgid) {
                let w = choose|w: int| 0 <= w < self@.len() && self@[w].pgid == pgid;
            }
        }
        false
    }

    /// Whether some job is in the foreground.
    pub fn foreground_present(&self) -> (r: bool)
        ensures
            r == self.has_foreground(),
    {
        let n = self.jobs.len();
        let mut k: usize = 0;
        while k < n
            invariant
                n == self@.len(),
                k <= n,
                forall|j: int| 0 <= j < k ==> !(#[trigger] self@[j]).is_foreground,
            decreases n - k,
        {
            if self.jobs[k].is_foreground {
                return true;
            }
            k = k + 1;
        }
        proof {
            if self.has_foreground() {
                let w = choose|w: int| 0 <= w < self@.len() && self@[w].is_foreground;
            }
        }
        false
    }

    /// Drop every `Done` job — the deferred heavy bookkeeping, run on the
    /// main control path, never in the signal handler.  What remains are
    /// exactly the jobs that still have unreaped members, in their order.
    pub fn remove_finished(&mut self)
        requires
            old(self).wf(),
        ensures
            final(self).wf(),
            final(self)@ == live_jobs(old(self)@),
            forall|k: int| 0 <= k < final(self)@.len() ==> !((#[trigger] final(self)@[k]).state is Done),
    {
        let ghost pre = self.jobs@;
        let mut kept: Vec<Job> = Vec::new();
        let ghost mut done: int = 0;
        proof {
            assert(pre.subrange(0, 0).filter(|j: Job| !(j.state is Done)) =~= Seq::<Job>::empty());
            assert(self.jobs@ =~= pre.subrange(0, pre.len() as int));
        }
        while self.jobs.len() > 0
            invariant
                0 <= done <= pre.len(),
                self.jobs@ == pre.subrange(done, pre.len() as int),
                kept@ == pre.subrange(0, done).filter(|j: Job| !(j.state is Done)),
            decreases self.jobs@.len(),
        {
            let ghost prefix = pre.subrange(0, done);
            let job = self.jobs.remove(0);
            proof {
                assert(job == pre[done]);
                assert(self.jobs@ =~= pre.subrange(done + 1, pre.len() as int));
                assert(pre.subrange(0, done + 1) =~= prefix.push(pre[done]));
                seq_filter_push(prefix, pre[done], |j: Job| !(j.state is Done));
            }
            let keep = match job.state {
                JobState::Done => false,
                _ => true,
            };
            if keep {
                kept.push(job);
            }
            proof {
                done = done + 1;
            }
        }
        proof {
            assert(pre.subrange(0, pre.len() as int) =~= pre);
        }
        self.jobs = kept;
        proof {
            let pred = |j: Job| !(j.state is Done);
            let f = pre.filter(pred);
            filter_is_subsequence(pre, pred);
            assert forall|k: int| 0 <= k < f.len() implies (#[trigger] f[k]).wf() by {
                let j = choose|j: int| 0 <= j < pre.len() && pre[j] == f[k];
                assert(pre[j].wf());
            }
            assert forall|a: int, b: int| 0 <= a < b < f.len() implies f[a].pgid != f[b].pgid by {
                let (ja, jb) = choose|ja: int, jb: int|
                    0 <= ja < jb < pre.len() && pre[ja] == f[a] && pre[jb] == f[b];
                assert(pre[ja].pgid != pre[jb].pgid);
            }
            assert forall|a: int, b: int, pid: i32|
                0 <= a < f.len() && 0 <= b < f.len() && a != b implies !((#[trigger] f[a].has_member(
                pid,
            )) && (#[trigger] f[b].has_member(pid))) by {
                if a < b {
                    let (ja, jb) = choose|ja: int, jb: int|
                        0 <= ja < jb < pre.len() && pre[ja] == f[a] && pre[jb] == f[b];
                    assert(!(pre[ja].has_member(pid) && pre[jb].has_member(pid)));
                } else {
                    let (ja, jb) = choose|ja: int, jb: int|
                        0 <= ja < jb < pre.len() && pre[ja] == f[b] && pre[jb] == f[a];
                    assert(!(pre[ja].has_member(pid) && pre[jb].has_member(pid)));
                }
            }
            assert forall|a: int, b: int|
                0 <= a < f.len() && 0 <= b < f.len() && (#[trigger] f[a].is_foreground) && (
            #[trigger] f[b].is_foreground) implies a == b by {
                if a < b {
                    let (ja, jb) = choose|ja: int, jb: int|
                        0 <= ja < jb < pre.len() && pre[ja] == f[a] && pre[jb] == f[b];
                    assert(pre[ja].is_foreground && pre[jb].is_foreground);
                } else if b < a {
                    let (ja, jb) = choose|ja: int, jb: int|
                        0 <= ja < jb < pre.len() && pre[ja] == f[b] && pre[jb] == f[a];
                    assert(pre[ja].is_foreground && pre[jb].is_foreground);
                }
            }
        }
    }
}

/// The jobs that still have unreaped members: what tidying the table keeps.
pub open spec fn live_jobs(jobs: Seq<Job>) -> Seq<Job> {
    jobs.filter(|j: Job| !(j.state is Done))
}

/// After a foreground wait, the job the shell blocked on is gone: reaping
/// the last member of a job makes it `Done` (that is the table's
/// well-formedness), and tidying the table then removes it — no job with
/// its process group remains afterwards.
pub proof fn lemma_done_job_removed(jobs: Seq<Job>, k: int)
    requires
        0 <= k < jobs.len(),
        jobs[k].state is Done,
        forall|a: int, b: int| 0 <= a < b < jobs.len() ==> jobs[a].pgid != jobs[b].pgid,
    ensures
        forall|w: int|
            0 <= w < live_jobs(jobs).len() ==> (#[trigger] live_jobs(jobs)[w]).pgid
                != jobs[k].pgid,
{
    let pred = |j: Job| !(j.state is Done);
    let f = jobs.filter(pred);
    filter_is_subsequence(jobs, pred);
    assert forall|w: int| 0 <= w < f.len() implies (#[trigger] f[w]).pgid != jobs[k].pgid by {
        let j = choose|j: int| 0 <= j < jobs.len() && jobs[j] == f[w];
        jobs.lemma_filter_pred(pred, w);
        assert(pred(f[w]));
        assert(j != k);
        if j < k {
            assert(jobs[j].pgid != jobs[k].pgid);
        } else {
            assert(jobs[k].pgid != jobs[j].pgid);
        }
    }
}

/// Pushing one element distributes over filtering.
proof fn seq_filter_push(s: Seq<Job>, x: Job, pred: spec_fn(Job) -> bool)
    ensures
        s.push(x).filter(pred) == if pred(x) {
            s.filter(pred).push(x)
        } else {
            s.filter(pred)
        },
{
    reveal(Seq::filter);
    assert(s.push(x).drop_last() == s);
    assert(s.push(x).last() == x);
}

/// Filtering keeps a subsequence: each kept element comes from its own
/// position of the unfiltered sequence, and two kept elements come from two
/// positions in the same order.
proof fn filter_is_subsequence(s: Seq<Job>, pred: spec_fn(Job) -> bool)
    ensures
        forall|k: int|
            0 <= k < s.filter(pred).len() ==> exists|j: int|
                0 <= j < s.len() && s[j] == #[trigger] s.filter(pred)[k],
        forall|a: int, b: int|
            0 <= a < b < s.filter(pred).len() ==> exists|ja: int, jb: int|
                0 <= ja < jb < s.len() && s[ja] == #[trigger] s.filter(pred)[a] && s[jb]
                    == #[trigger] s.filter(pred)[b],
    decreases s.len(),
{
    reveal(Seq::filter);
    if s.len() > 0 {
        let last = s.last();
        let rest = s.drop_last();
        filter_is_subsequence(rest, pred);
        assert forall|k: int|
            0 <= k < s.filter(pred).len() implies exists|j: int|
            0 <= j < s.len() && s[j] == #[trigger] s.filter(pred)[k] by {
            if pred(last) && k == s.filter(pred).len() - 1 {
                assert(s[s.len() - 1] == s.filter(pred)[k]);
            } else {
                assert(s.filter(pred)[k] == rest.filter(pred)[k]);
                let j = choose|j: int|
                    0 <= j < rest.len() && rest[j] == rest.filter(pred)[k];
                assert(s[j] == s.filter(pred)[k]);
            }
        }
        assert forall|a: int, b: int|
            0 <= a < b < s.filter(pred).len() implies exists|ja: int, jb: int|
            0 <= ja < jb < s.len() && s[ja] == #[trigger] s.filter(pred)[a] && s[jb] == #[trigger] s.filter(
                pred,
            )[b] by {
            if pred(last) && b == s.filter(pred).len() - 1 {
                assert(s.filter(pred)[a] == rest.filter(pred)[a]);
                let ja = choose|ja: int|
                    0 <= ja < rest.len() && rest[ja] == rest.filter(pred)[a];
                assert(s[ja] == s.filter(pred)[a]);
                assert(s[s.len() - 1] == s.filter(pred)[b]);
            } else {
                assert(s.filter(pred)[a] == rest.filter(pred)[a]);
                assert(s.filter(pred)[b] == rest.filter(pred)[b]);
                let (ja, jb) = choose|ja: int, jb: int|
                    0 <= ja < jb < rest.len() && rest[ja] == rest.filter(pred)[a] && rest[jb]
                        == rest.filter(pred)[b];
                assert(s[ja] == s.filter(pred)[a] && s[jb] == s.filter(pred)[b]);
            }
        }
    }
}

/// The position of `x` in `v`, if it occurs.
fn index_of(v: &Vec<i32>, x: i32) -> (r: Option<usize>)
    ensures
        match r {
            Some(i) => i < v@.len() && v@[i as int] == x,
            None => !v@.contains(x),
        },
{
    let mut i: usize = 0;
    while i < v.len()
        invariant
            i <= v@.len(),
            forall|j: int| 0 <= j < i ==> v@[j] != x,
        decreases v@.len() - i,
    {
        if v[i] == x {
            return Some(i);
        }
        i = i + 1;
    }
    proof {
        if v@.contains(x) {
            let w = choose|w: int| 0 <= w < v@.len() && v@[w] == x;
        }
    }
    None
}

/// Whether `x` occurs in `v`.
fn contains_pid(v: &Vec<i32>, x: i32) -> (r: bool)
    ensures
        r == v@.contains(x),
{
    let found = index_of(v, x);
    match found {
        Some(i) => {
            proof {
                assert(v@.contains(x));
            }
            true
        },
        None => false,
    }
}

} // verus!
