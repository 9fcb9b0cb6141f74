//! The worker that drains the queue: which jobs it stops, how long it waits, how
//! the steps of a job follow each other, and which file a job's result is.

use vstd::prelude::*;
use crate::status::figures::opt_string;
use crate::tools::progress::{share_of, step_share, Share};
use crate::tools::queue::{short_message, truncate_msg};

verus! {

/// The jobs that were halted elsewhere while they run here, in the order of the
/// table.
pub open spec fn still_here(halted: Seq<i64>, running: Seq<i64>) -> Seq<i64>
    decreases halted.len(),
{
    if halted.len() == 0 {
        Seq::empty()
    } else {
        let rest = still_here(halted.drop_last(), running);
        if running.contains(halted.last()) { rest.push(halted.last()) } else { rest }
    }
}

fn is_running(running: &Vec<i64>, id: i64) -> (r: bool)
    ensures
        r == running@.contains(id),
{
    let mut i: usize = 0;
    while i < running.len()
        invariant
            i <= running@.len(),
            forall|j: int| 0 <= j < i ==> running@[j] != id,
        decreases running@.len() - i,
    {
        if running[i] == id {
            return true;
        }
        i = i + 1;
    }
    false
}

/// See [`still_here`].
pub fn jobs_to_stop(halted: &Vec<i64>, running: &Vec<i64>) -> (r: Vec<i64>)
    ensures
        r@ == still_here(halted@, running@),
{
    let mut out: Vec<i64> = Vec::new();
    let mut i: usize = 0;
    assert(halted@.take(0) =~= Seq::<i64>::empty());
    while i < halted.len()
        invariant
            i <= halted@.len(),
            out@ == still_here(halted@.take(i as int), running@),
        decreases halted@.len() - i,
    {
        assert(halted@.take(i + 1).drop_last() =~= halted@.take(i as int));
        if is_running(running, halted[i]) {
            out.push(halted[i]);
        }
        i = i + 1;
    }
    assert(halted@.take(i as int) =~= halted@);
    out
}

/// A job is stopped exactly when it was halted and runs here.
pub proof fn law_only_halted_jobs_are_stopped(halted: Seq<i64>, running: Seq<i64>, id: i64)
    ensures
        still_here(halted, running).contains(id) <==> halted.contains(id) && running.contains(id),
    decreases halted.len(),
{
    if halted.len() > 0 {
        let front = halted.drop_last();
        let rest = still_here(front, running);
        law_only_halted_jobs_are_stopped(front, running, id);
        assert(halted =~= front.push(halted.last()));
        if front.contains(id) {
            let k = choose|k: int| 0 <= k < front.len() && front[k] == id;
            assert(halted[k] == id);
        }
        if halted.contains(id) && halted.last() != id {
            let k = choose|k: int| 0 <= k < halted.len() && halted[k] == id;
            assert(front[k] == id);
        }
        if running.contains(halted.last()) {
            let all = rest.push(halted.last());
            assert(all[rest.len() as int] == halted.last());
            if rest.contains(id) {
                let k = choose|k: int| 0 <= k < rest.len() && rest[k] == id;
                assert(all[k] == id);
            }
            if all.contains(id) && halted.last() != id {
                let k = choose|k: int| 0 <= k < all.len() && all[k] == id;
                assert(rest[k] == id);
            }
        }
        assert(halted[halted.len() - 1] == halted.last());
    }
}

/// How a turn of the worker went.
#[derive(Clone, Copy, Debug)]
pub enum Turn {
    /// The table could not be opened.
    NoTable,
    /// There was nothing to claim.
    Idle,
    /// A job was claimed.
    Claimed(i64),
}

/// What follows a turn: the job that is started with a fresh flag to stop it by, and
/// the milliseconds until the next turn.
#[derive(Clone, Copy, Debug, PartialEq, Eq, Structural)]
pub struct Next {
    pub start: Option<i64>,
    pub pause_ms: u64,
}

/// After a claim the table is given the time to show the job as running; an idle worker
/// looks twice a second.
pub fn tools_start_worker(turn: Turn) -> (r: Next)
    ensures
        r == match turn {
            Turn::NoTable => (Next { start: None, pause_ms: 2000 }),
            Turn::Idle => (Next { start: None, pause_ms: 500 }),
            Turn::Claimed(id) => (Next { start: Some(id), pause_ms: 80 }),
        },
{
    match turn {
        Turn::NoTable => Next { start: None, pause_ms: 2000 },
        Turn::Idle => Next { start: None, pause_ms: 500 },
        Turn::Claimed(id) => Next { start: Some(id), pause_ms: 80 },
    }
}

/// A job as it runs: how many steps it has, and which of them is on.
#[derive(Debug)]
pub struct JobRun {
    pub steps: u64,
    pub at: u64,
}

/// What a running job hears.
#[derive(Debug)]
pub enum JobHeard {
    /// It was planned, with so many steps.
    Planned(u64),
    /// It could not be planned.
    Unplanned(String),
    /// The step that was on ended well.
    StepDone,
    /// The step that was on failed.
    StepFailed(String),
}

/// What is done for a job next.
#[derive(Debug)]
pub enum JobAct {
    /// A step runs, within its share of the job.
    Step(u64, Share),
    /// The job ended well; its message is left alone.
    Succeed,
    /// The job failed, for this reason.
    Fail(String),
}

/// The view of [`JobAct`].
pub enum JobActView {
    Step(nat, Share),
    Succeed,
    Fail(Seq<char>),
}

impl View for JobAct {
    type V = JobActView;

    open spec fn view(&self) -> JobActView {
        match *self {
            JobAct::Step(i, s) => JobActView::Step(i as nat, s),
            JobAct::Succeed => JobActView::Succeed,
            JobAct::Fail(why) => JobActView::Fail(why@),
        }
    }
}

/// What is done with `at` of `steps` steps behind the job.
pub open spec fn step_or_end(at: nat, steps: nat) -> JobActView {
    if at < steps {
        JobActView::Step(at, share_of(at, steps))
    } else {
        JobActView::Succeed
    }
}

/// How many steps a job has, which is on, and what is done, after something was
/// heard.
pub open spec fn job_after(steps: nat, at: nat, heard: JobHeard) -> (nat, nat, JobActView) {
    match heard {
        JobHeard::Planned(n) => (n as nat, 0, step_or_end(0, n as nat)),
        JobHeard::Unplanned(why) => (steps, at, JobActView::Fail(short_message(why@))),
        JobHeard::StepDone => (steps, at + 1, step_or_end(at + 1, steps)),
        JobHeard::StepFailed(why) => (steps, at, JobActView::Fail(short_message(why@))),
    }
}

impl JobRun {
    /// A job that was not planned yet.
    pub fn new() -> (r: JobRun)
        ensures
            r.steps == 0,
            r.at == 0,
    {
        JobRun { steps: 0, at: 0 }
    }

    /// The steps of a job run one after the other, each within its share, up to the
    /// first that fails.
    pub fn tools_run_job(&mut self, heard: JobHeard) -> (r: JobAct)
        requires
            heard is StepDone ==> old(self).at < old(self).steps,
        ensures
            (final(self).steps as nat, final(self).at as nat, r@) == job_after(
                old(self).steps as nat,
                old(self).at as nat,
                heard,
            ),
    {
        match heard {
            JobHeard::Planned(n) => {
                self.steps = n;
                self.at = 0;
            },
            JobHeard::StepDone => {
                self.at = self.at + 1;
            },
            JobHeard::Unplanned(why) => {
                return JobAct::Fail(truncate_msg(why.as_str()));
            },
            JobHeard::StepFailed(why) => {
                return JobAct::Fail(truncate_msg(why.as_str()));
            },
        }
        if self.at < self.steps {
            JobAct::Step(self.at, step_share(self.at, self.steps))
        } else {
            JobAct::Succeed
        }
    }
}

/// A planned job after `done` of its steps ended well.
pub open spec fn job_with(n: u64, done: nat) -> (nat, nat, JobActView)
    decreases done,
{
    if done == 0 {
        job_after(0, 0, JobHeard::Planned(n))
    } else {
        let before = job_with(n, (done - 1) as nat);
        job_after(before.0, before.1, JobHeard::StepDone)
    }
}

/// A job whose steps all end well runs each of them once and in order, and then
/// ends well itself.
pub proof fn law_a_job_runs_each_step_in_order(n: u64, done: nat)
    requires
        done <= n,
    ensures
        done < n ==> job_with(n, done).2 == JobActView::Step(done, share_of(done, n as nat)),
        done == n ==> job_with(n, done).2 == JobActView::Succeed,
    decreases done,
{
    lemma_job_with(n, done);
}

proof fn lemma_job_with(n: u64, done: nat)
    requires
        done <= n,
    ensures
        job_with(n, done) == (n as nat, done, step_or_end(done, n as nat)),
    decreases done,
{
    if done > 0 {
        lemma_job_with(n, (done - 1) as nat);
    }
}

/// A path that is there.
pub open spec fn present(p: Option<(String, bool)>) -> Option<Seq<char>> {
    match p {
        Some((path, there)) => if there { Some(path@) } else { None },
        None => None,
    }
}

/// The file that a job's result is opened as: what it downloaded, where that is a
/// file; else the output of its form, where that is there.
pub fn tools_open_job_output(download: Option<(String, bool)>, output: Option<(String, bool)>) -> (r: Option<String>)
    ensures
        opt_string(r) == (match present(download) {
            Some(p) => Some(p),
            None => present(output),
        }),
{
    if let Some((path, there)) = download {
        if there {
            return Some(path);
        }
    }
    match output {
        Some((path, there)) => if there {
            Some(path)
        } else {
            None
        },
        None => None,
    }
}

/// The jobs that are stopped are those that were halted and run here, in the order of the
/// table.
pub proof fn law_halted_jobs_that_run_here_are_found(halted: Seq<i64>, running: Seq<i64>)
    ensures
        still_here(halted, running) == halted.filter(|x: i64| running.contains(x)),
    decreases halted.len(),
{
    reveal(Seq::filter);
    let p = |x: i64| running.contains(x);
    let wanted = halted.filter(|x: i64| running.contains(x));
    if halted.len() > 0 {
        let front = halted.drop_last();
        law_halted_jobs_that_run_here_are_found(front, running);
        let kept = front.filter(p);
        assert(halted.filter(p) == (if p(halted.last()) { kept.push(halted.last()) } else { kept }));
        assert(front.filter(|x: i64| running.contains(x)) == still_here(front, running));
    }
    assert(still_here(halted, running) =~= wanted);
}


/// A job fails as soon as a step does, with the end of what the step said, and never before
/// its last step is done does it end well.
pub proof fn law_a_job_ends_well_after_its_last_step(steps: nat, at: nat, why: String)
    ensures
        job_after(steps, at, JobHeard::StepFailed(why)).2 == JobActView::Fail(short_message(why@)),
        job_after(steps, at, JobHeard::Unplanned(why)).2 == JobActView::Fail(short_message(why@)),
        at + 1 < steps ==> job_after(steps, at, JobHeard::StepDone).2 == JobActView::Step(at + 1, share_of(at + 1, steps)),
        at + 1 >= steps ==> job_after(steps, at, JobHeard::StepDone).2 == JobActView::Succeed,
        job_after(steps, at, JobHeard::StepDone).1 == at + 1,
{
}

} // verus!
