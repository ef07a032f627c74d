//! The worker at its controller: which jobs, steps and sessions it knows of, and what it does
//! about each command.

use vstd::prelude::*;

use std::collections::HashMap;

use crate::numbers::decimal;
use crate::numbers::decimal_u64;
use crate::numbers::decimal_usize;
use crate::pieces::join;
use crate::pieces::joined;
use crate::pieces::lines;
use crate::pieces::lines_of;
use crate::pieces::replace;
use crate::pieces::replaced;
use crate::pieces::split_char;
use crate::pieces::split_on;
use crate::text::lemma_texts_push;
use crate::text::str_eq;
use crate::text::texts;

verus! {

/// What a worker keeps track of while it is connected. A job or a step is in its list from the
/// command that starts it on.
pub struct WorkerState {
    /// Jobs that can be told to stop.
    pub jobs: Vec<u64>,
    /// Steps that can be told to stop, by job and number.
    pub steps: Vec<(u64, u32)>,
    /// Steps whose processes wait for messages.
    pub routes: Vec<(u64, u32)>,
    /// The process of each job.
    pub pids: HashMap<u64, u32>,
    /// The working directory of each job, also of those that have ended.
    pub dirs: HashMap<u64, String>,
    /// The port on which the desktop of a job is served.
    pub vnc_ports: HashMap<u64, u16>,
    /// The controller has been told that no new jobs are wanted.
    pub told_draining: bool,
}

/// The list without the job.
pub open spec fn without_job(jobs: Seq<u64>, job_id: u64) -> Seq<u64>
    decreases jobs.len(),
{
    if jobs.len() == 0 {
        jobs
    } else if jobs.last() == job_id {
        without_job(jobs.drop_last(), job_id)
    } else {
        without_job(jobs.drop_last(), job_id).push(jobs.last())
    }
}

/// The steps of the job.
pub open spec fn steps_of(steps: Seq<(u64, u32)>, job_id: u64) -> Seq<u32>
    decreases steps.len(),
{
    if steps.len() == 0 {
        Seq::empty()
    } else if steps.last().0 == job_id {
        steps_of(steps.drop_last(), job_id).push(steps.last().1)
    } else {
        steps_of(steps.drop_last(), job_id)
    }
}

/// The steps of other jobs.
pub open spec fn steps_of_others(steps: Seq<(u64, u32)>, job_id: u64) -> Seq<(u64, u32)>
    decreases steps.len(),
{
    if steps.len() == 0 {
        steps
    } else if steps.last().0 == job_id {
        steps_of_others(steps.drop_last(), job_id)
    } else {
        steps_of_others(steps.drop_last(), job_id).push(steps.last())
    }
}

/// The list without the step.
pub open spec fn without_step(steps: Seq<(u64, u32)>, step: (u64, u32)) -> Seq<(u64, u32)>
    decreases steps.len(),
{
    if steps.len() == 0 {
        steps
    } else if steps.last() == step {
        without_step(steps.drop_last(), step)
    } else {
        without_step(steps.drop_last(), step).push(steps.last())
    }
}

/// Who is to be told to stop.
pub struct StopPlan {
    /// The job itself.
    pub job: bool,
    /// Its steps, by number.
    pub steps: Vec<u32>,
}

/// The list without the entry.
pub(crate) fn drop_job(jobs: &Vec<u64>, job_id: u64) -> (r: Vec<u64>)
    ensures
        r@ == without_job(jobs@, job_id),
{
    let mut r: Vec<u64> = Vec::new();
    let mut i: usize = 0;
    assert(jobs@.take(0) =~= Seq::<u64>::empty());
    while i < jobs.len()
        invariant
            i <= jobs@.len(),
            r@ == without_job(jobs@.take(i as int), job_id),
        decreases jobs@.len() - i,
    {
        assert(jobs@.take(i + 1).drop_last() =~= jobs@.take(i as int));
        if jobs[i] != job_id {
            r.push(jobs[i]);
        }
        i = i + 1;
    }
    assert(jobs@.take(jobs@.len() as int) =~= jobs@);
    r
}

/// Whether the entry is in the list.
pub(crate) fn has_job(jobs: &Vec<u64>, job_id: u64) -> (r: bool)
    ensures
        r == jobs@.contains(job_id),
{
    let mut i: usize = 0;
    while i < jobs.len()
        invariant
            i <= jobs@.len(),
            forall|k: int| 0 <= k < i ==> jobs@[k] != job_id,
        decreases jobs@.len() - i,
    {
        if jobs[i] == job_id {
            assert(jobs@[i as int] == job_id);
            return true;
        }
        i = i + 1;
    }
    false
}

pub proof fn lemma_without_job_contains(jobs: Seq<u64>, job_id: u64, other: u64)
    ensures
        without_job(jobs, job_id).contains(other) <==> jobs.contains(other) && other != job_id,
    decreases jobs.len(),
{
    if jobs.len() > 0 {
        let front = jobs.drop_last();
        let w = without_job(front, job_id);
        lemma_without_job_contains(front, job_id, other);
        if jobs.contains(other) {
            let i = choose|i: int| 0 <= i < jobs.len() && jobs[i] == other;
            if i < front.len() {
                assert(front[i] == other);
            }
        }
        if front.contains(other) {
            let i = choose|i: int| 0 <= i < front.len() && front[i] == other;
            assert(jobs[i] == other);
        }
        if jobs.last() != job_id {
            let all = w.push(jobs.last());
            if w.contains(other) {
                let i = choose|i: int| 0 <= i < w.len() && w[i] == other;
                assert(all[i] == other);
            }
            if all.contains(other) {
                let i = choose|i: int| 0 <= i < all.len() && all[i] == other;
                if i < w.len() {
                    assert(w[i] == other);
                }
            }
            if jobs.last() == other {
                assert(all[w.len() as int] == other);
                assert(jobs[jobs.len() - 1] == other);
            }
        }
    }
}

/// What is known of the jobs of a worker.
pub ghost struct StateView {
    pub jobs: Seq<u64>,
    pub pids: Map<u64, u32>,
    pub dirs: Map<u64, Seq<char>>,
}

pub open spec fn state_view(s: WorkerState) -> StateView {
    StateView { jobs: s.jobs@, pids: s.pids@, dirs: crate::records::wd_views(s.dirs@) }
}

/// What is known after a job has ended.
pub open spec fn finished(v: StateView, job_id: u64) -> StateView {
    StateView { jobs: without_job(v.jobs, job_id), pids: v.pids.remove(job_id), ..v }
}

/// What is known after a job was taken up again.
pub open spec fn adopted(v: StateView, job_id: u64, pid: u32, dir: Seq<char>) -> StateView {
    StateView {
        jobs: without_job(v.jobs, job_id).push(job_id),
        pids: v.pids.insert(job_id, pid),
        dirs: v.dirs.insert(job_id, dir),
    }
}

impl WorkerState {
    /// The state of a worker that has just connected, with the working directories on record.
    pub fn new(dirs: HashMap<u64, String>) -> (r: WorkerState)
        ensures
            r.jobs@.len() == 0,
            r.steps@.len() == 0,
            r.routes@.len() == 0,
            r.pids@ == Map::<u64, u32>::empty(),
            r.dirs == dirs,
            r.vnc_ports@ == Map::<u64, u16>::empty(),
            !r.told_draining,
    {
        WorkerState {
            jobs: Vec::new(),
            steps: Vec::new(),
            routes: Vec::new(),
            pids: HashMap::new(),
            dirs,
            vnc_ports: HashMap::new(),
            told_draining: false,
        }
    }

    /// A job is to be started. Its working directory, which is handed back, is the one given,
    /// or the one for temporary files where jobs run as the worker's user.
    pub fn start_job(
        &mut self,
        job_id: u64,
        working_directory: &str,
        run_as_worker_user: bool,
        temp_dir: &str,
    ) -> (r: String)
        ensures
            r@ == (if run_as_worker_user {
                temp_dir@
            } else {
                working_directory@
            }),
            final(self).jobs@ == without_job(old(self).jobs@, job_id).push(job_id),
            final(self).dirs@.contains_key(job_id),
            final(self).dirs@[job_id]@ == r@,
            final(self).dirs@ == old(self).dirs@.insert(job_id, final(self).dirs@[job_id]),
            final(self).steps == old(self).steps,
            final(self).routes == old(self).routes,
            final(self).pids == old(self).pids,
            final(self).vnc_ports == old(self).vnc_ports,
            final(self).told_draining == old(self).told_draining,
    {
        let wd: String = if run_as_worker_user {
            temp_dir.to_owned()
        } else {
            working_directory.to_owned()
        };
        let kept: String = wd.clone();
        self.dirs.insert(job_id, kept);
        let mut jobs: Vec<u64> = drop_job(&self.jobs, job_id);
        jobs.push(job_id);
        self.jobs = jobs;
        assert(self.dirs@ =~= old(self).dirs@.insert(job_id, self.dirs@[job_id]));
        wd
    }

    /// A job that was taken up again after a restart: its process and directory are known.
    pub fn adopt_job(&mut self, job_id: u64, pid: u32, working_directory: &str)
        ensures
            state_view(*final(self)) == adopted(
                state_view(*old(self)),
                job_id,
                pid,
                working_directory@,
            ),
            final(self).jobs@ == without_job(old(self).jobs@, job_id).push(job_id),
            final(self).pids@ == old(self).pids@.insert(job_id, pid),
            final(self).dirs@.contains_key(job_id),
            final(self).dirs@[job_id]@ == working_directory@,
            final(self).dirs@ == old(self).dirs@.insert(job_id, final(self).dirs@[job_id]),
            final(self).steps == old(self).steps,
            final(self).routes == old(self).routes,
            final(self).vnc_ports == old(self).vnc_ports,
            final(self).told_draining == old(self).told_draining,
    {
        let wd: String = working_directory.to_owned();
        self.dirs.insert(job_id, wd);
        self.pids.insert(job_id, pid);
        let mut jobs: Vec<u64> = drop_job(&self.jobs, job_id);
        jobs.push(job_id);
        self.jobs = jobs;
        assert(self.dirs@ =~= old(self).dirs@.insert(job_id, self.dirs@[job_id]));
        assert(state_view(*self).dirs =~= state_view(*old(self)).dirs.insert(
            job_id,
            working_directory@,
        ));
    }

    /// A job has ended: it can no longer be told to stop, and its process is not watched. Its
    /// working directory stays known, for its output.
    pub fn finish_job(&mut self, job_id: u64)
        ensures
            state_view(*final(self)) == finished(state_view(*old(self)), job_id),
            final(self).jobs@ == without_job(old(self).jobs@, job_id),
            final(self).pids@ == old(self).pids@.remove(job_id),
            final(self).dirs == old(self).dirs,
            final(self).steps == old(self).steps,
            final(self).routes == old(self).routes,
            final(self).vnc_ports == old(self).vnc_ports,
            final(self).told_draining == old(self).told_draining,
    {
        self.jobs = drop_job(&self.jobs, job_id);
        self.pids.remove(&job_id);
    }

    /// A step is to be started: it can be told to stop, and messages reach its processes.
    pub fn start_step(&mut self, job_id: u64, step_id: u32)
        ensures
            final(self).steps@ == old(self).steps@.push((job_id, step_id)),
            final(self).routes@ == without_step(old(self).routes@, (job_id, step_id)).push(
                (job_id, step_id),
            ),
            final(self).jobs == old(self).jobs,
            final(self).pids == old(self).pids,
            final(self).dirs == old(self).dirs,
            final(self).vnc_ports == old(self).vnc_ports,
            final(self).told_draining == old(self).told_draining,
    {
        self.steps.push((job_id, step_id));
        self.drop_route(job_id, step_id);
        self.routes.push((job_id, step_id));
    }

    fn drop_route(&mut self, job_id: u64, step_id: u32)
        ensures
            final(self).routes@ == without_step(old(self).routes@, (job_id, step_id)),
            final(self).jobs == old(self).jobs,
            final(self).steps == old(self).steps,
            final(self).pids == old(self).pids,
            final(self).dirs == old(self).dirs,
            final(self).vnc_ports == old(self).vnc_ports,
            final(self).told_draining == old(self).told_draining,
    {
        let ghost all = self.routes@;
        let mut r: Vec<(u64, u32)> = Vec::new();
        let mut i: usize = 0;
        assert(all.take(0) =~= Seq::<(u64, u32)>::empty());
        while i < self.routes.len()
            invariant
                i <= self.routes@.len(),
                all == self.routes@,
                r@ == without_step(all.take(i as int), (job_id, step_id)),
                self.jobs == old(self).jobs,
                self.steps == old(self).steps,
                self.pids == old(self).pids,
                self.dirs == old(self).dirs,
                self.vnc_ports == old(self).vnc_ports,
                self.told_draining == old(self).told_draining,
                all == old(self).routes@,
            decreases self.routes@.len() - i,
        {
            assert(all.take(i + 1).drop_last() =~= all.take(i as int));
            let s: (u64, u32) = self.routes[i];
            if s.0 != job_id || s.1 != step_id {
                r.push(s);
            }
            i = i + 1;
        }
        assert(all.take(all.len() as int) =~= all);
        self.routes = r;
    }

    /// A step has ended: messages no longer reach its processes.
    pub fn finish_step(&mut self, job_id: u64, step_id: u32)
        ensures
            final(self).routes@ == without_step(old(self).routes@, (job_id, step_id)),
            final(self).steps == old(self).steps,
            final(self).jobs == old(self).jobs,
            final(self).pids == old(self).pids,
            final(self).dirs == old(self).dirs,
            final(self).vnc_ports == old(self).vnc_ports,
            final(self).told_draining == old(self).told_draining,
    {
        self.drop_route(job_id, step_id);
    }

    /// Whether a message for a step reaches its processes.
    pub fn routes_to(&self, job_id: u64, step_id: u32) -> (r: bool)
        ensures
            r == self.routes@.contains((job_id, step_id)),
    {
        let mut i: usize = 0;
        while i < self.routes.len()
            invariant
                i <= self.routes@.len(),
                forall|k: int| 0 <= k < i ==> self.routes@[k] != (job_id, step_id),
            decreases self.routes@.len() - i,
        {
            let s: (u64, u32) = self.routes[i];
            if s.0 == job_id && s.1 == step_id {
                assert(self.routes@[i as int] == (job_id, step_id));
                return true;
            }
            i = i + 1;
        }
        false
    }

    /// A job and all its steps are to be stopped. Whoever is told to stop now is not told
    /// again.
    pub fn stop_job(&mut self, job_id: u64) -> (r: StopPlan)
        ensures
            r.job == old(self).jobs@.contains(job_id),
            r.steps@ == steps_of(old(self).steps@, job_id),
            final(self).jobs@ == without_job(old(self).jobs@, job_id),
            final(self).steps@ == steps_of_others(old(self).steps@, job_id),
            final(self).routes == old(self).routes,
            final(self).pids == old(self).pids,
            final(self).dirs == old(self).dirs,
            final(self).vnc_ports == old(self).vnc_ports,
            final(self).told_draining == old(self).told_draining,
    {
        let job: bool = has_job(&self.jobs, job_id);
        self.jobs = drop_job(&self.jobs, job_id);
        let ghost all = self.steps@;
        let mut stop: Vec<u32> = Vec::new();
        let mut keep: Vec<(u64, u32)> = Vec::new();
        let mut i: usize = 0;
        assert(all.take(0) =~= Seq::<(u64, u32)>::empty());
        while i < self.steps.len()
            invariant
                i <= self.steps@.len(),
                all == self.steps@,
                all == old(self).steps@,
                stop@ == steps_of(all.take(i as int), job_id),
                keep@ == steps_of_others(all.take(i as int), job_id),
                self.jobs@ == without_job(old(self).jobs@, job_id),
                self.routes == old(self).routes,
                self.pids == old(self).pids,
                self.dirs == old(self).dirs,
                self.vnc_ports == old(self).vnc_ports,
                self.told_draining == old(self).told_draining,
            decreases self.steps@.len() - i,
        {
            assert(all.take(i + 1).drop_last() =~= all.take(i as int));
            let s: (u64, u32) = self.steps[i];
            if s.0 == job_id {
                stop.push(s.1);
            } else {
                keep.push(s);
            }
            i = i + 1;
        }
        assert(all.take(all.len() as int) =~= all);
        self.steps = keep;
        StopPlan { job, steps: stop }
    }

    /// The jobs that are told to stop when the worker restarts: all of them.
    pub fn drain_jobs(&mut self) -> (r: Vec<u64>)
        ensures
            r@ == old(self).jobs@,
            final(self).jobs@.len() == 0,
            final(self).steps == old(self).steps,
            final(self).routes == old(self).routes,
            final(self).pids == old(self).pids,
            final(self).dirs == old(self).dirs,
            final(self).vnc_ports == old(self).vnc_ports,
            final(self).told_draining == old(self).told_draining,
    {
        let mut out: Vec<u64> = Vec::new();
        out.append(&mut self.jobs);
        assert(out@ =~= old(self).jobs@);
        out
    }

    /// The directory in which the output of a job is looked for: the one on record, or else the
    /// one that the request names.
    pub fn output_dir(&self, job_id: u64, provided: &Option<String>) -> (r: Option<String>)
        ensures
            self.dirs@.contains_key(job_id) ==> r is Some && r->0@ == self.dirs@[job_id]@,
            !self.dirs@.contains_key(job_id) ==> (match *provided {
                Some(p) => r is Some && r->0@ == p@,
                None => r is None,
            }),
    {
        match self.dirs.get(&job_id) {
            Some(d) => Some(d.clone()),
            None => match provided {
                Some(p) => Some(p.clone()),
                None => None,
            },
        }
    }

    /// The directory in which a shell for a job opens.
    pub fn terminal_dir(&self, job_id: u64) -> (r: String)
        ensures
            r@ == (if self.dirs@.contains_key(job_id) {
                self.dirs@[job_id]@
            } else {
                "/tmp"@
            }),
    {
        match self.dirs.get(&job_id) {
            Some(d) => d.clone(),
            None => "/tmp".to_owned(),
        }
    }

    /// The worker is asked to take no more jobs: whether the controller has to be told, which
    /// happens once.
    pub fn drain_requested(&mut self, draining: bool) -> (tell: bool)
        ensures
            tell == (draining && !old(self).told_draining),
            final(self).told_draining == (old(self).told_draining || draining),
            final(self).jobs == old(self).jobs,
            final(self).steps == old(self).steps,
            final(self).routes == old(self).routes,
            final(self).pids == old(self).pids,
            final(self).dirs == old(self).dirs,
            final(self).vnc_ports == old(self).vnc_ports,
    {
        if draining && !self.told_draining {
            self.told_draining = true;
            true
        } else {
            false
        }
    }

    /// Whether the worker may leave: it takes no more jobs, and none is running.
    pub fn may_leave(&self, draining: bool) -> (r: bool)
        ensures
            r == (draining && self.jobs@.len() == 0),
    {
        draining && self.jobs.len() == 0
    }
}

/// A job that has been told to stop is not told again, nor is any of its steps; other jobs can
/// still be told.
pub proof fn law_stopping_is_told_once(
    jobs: Seq<u64>,
    steps: Seq<(u64, u32)>,
    job_id: u64,
    other: u64,
)
    ensures
        !without_job(jobs, job_id).contains(job_id),
        steps_of(steps_of_others(steps, job_id), job_id).len() == 0,
        other != job_id ==> (without_job(jobs, job_id).contains(other) <==> jobs.contains(other)),
        other != job_id ==> steps_of(steps_of_others(steps, job_id), other) == steps_of(
            steps,
            other,
        ),
    decreases steps.len(),
{
    lemma_without_job_contains(jobs, job_id, job_id);
    lemma_without_job_contains(jobs, job_id, other);
    if steps.len() > 0 {
        law_stopping_is_told_once(jobs, steps.drop_last(), job_id, other);
        if steps.last().0 != job_id {
            let rest = steps_of_others(steps.drop_last(), job_id);
            assert(rest.push(steps.last()).drop_last() =~= rest);
        }
    }
}

/// Where a job finds its controller: an address that means this machine is replaced by the one
/// through which the worker reaches the controller.
pub fn reachable_url(controller_url: &str, addr: &str) -> (r: String)
    ensures
        r@ == replaced(controller_url@, "localhost"@, split_on(addr@, ':')[0]),
{
    proof {
        reveal_strlit("localhost");
    }
    let parts: Vec<String> = split_char(addr, ':');
    assert(parts@[0]@ == split_on(addr@, ':')[0]);
    replace(controller_url, "localhost", &parts[0])
}

/// The last `n` lines of a text.
pub open spec fn tail_of(text: Seq<char>, n: nat) -> Seq<char> {
    let l = lines_of(text);
    joined(
        if l.len() <= n {
            l
        } else {
            l.skip(l.len() - n)
        },
        "\n"@,
    )
}

pub fn last_lines(text: &str, n: usize) -> (r: String)
    ensures
        r@ == tail_of(text@, n as nat),
{
    let all: Vec<String> = lines(text);
    let ghost l = texts(all@);
    let from: usize = if all.len() <= n {
        0
    } else {
        all.len() - n
    };
    let mut part: Vec<String> = Vec::new();
    let mut i: usize = from;
    assert(texts(part@) =~= l.subrange(from as int, from as int));
    while i < all.len()
        invariant
            from <= i <= all@.len(),
            l == texts(all@),
            texts(part@) == l.subrange(from as int, i as int),
        decreases all@.len() - i,
    {
        let line: String = all[i].clone();
        proof {
            lemma_texts_push(part@, line);
        }
        part.push(line);
        i = i + 1;
        assert(texts(part@) =~= l.subrange(from as int, i as int));
    }
    assert(l.subrange(from as int, l.len() as int) =~= l.skip(from as int));
    assert(l.skip(0) =~= l);
    join(&part, "\n")
}

/// The log of the worker itself, as it is sent: its last lines, or that there is none.
pub fn component_log(contents: &Option<String>, n: usize) -> (r: String)
    ensures
        r@ == (match *contents {
            Some(c) => tail_of(c@, n as nat),
            None => "Log file not found"@,
        }),
{
    match contents {
        Some(c) => last_lines(c, n),
        None => "Log file not found".to_owned(),
    }
}

/// A log of the system that can be asked for.
#[derive(Debug, Clone, Copy, PartialEq, Eq, Structural)]
pub enum SystemLog {
    Kernel,
    Syslog,
    Journal,
}

pub open spec fn system_log_of(source: Seq<char>) -> Option<SystemLog> {
    if source == "dmesg"@ {
        Some(SystemLog::Kernel)
    } else if source == "syslog"@ {
        Some(SystemLog::Syslog)
    } else if source == "journal"@ {
        Some(SystemLog::Journal)
    } else {
        None
    }
}

pub fn system_log(source: &str) -> (r: Option<SystemLog>)
    ensures
        r == system_log_of(source@),
{
    if str_eq(source, "dmesg") {
        Some(SystemLog::Kernel)
    } else if str_eq(source, "syslog") {
        Some(SystemLog::Syslog)
    } else if str_eq(source, "journal") {
        Some(SystemLog::Journal)
    } else {
        None
    }
}

/// The program and the arguments that print a log of the system.
pub open spec fn log_command_of(log: SystemLog, n: nat) -> (Seq<char>, Seq<Seq<char>>) {
    match log {
        SystemLog::Kernel => ("dmesg"@, seq!["-T"@]),
        SystemLog::Syslog => ("tail"@, seq!["-n"@, decimal(n), "/var/log/syslog"@]),
        SystemLog::Journal => ("journalctl"@, seq!["-n"@, decimal(n), "--no-pager"@]),
    }
}

pub fn log_command(log: SystemLog, n: usize) -> (r: (String, Vec<String>))
    ensures
        (r.0@, texts(r.1@)) == log_command_of(log, n as nat),
{
    let mut args: Vec<String> = Vec::new();
    let program: String = match log {
        SystemLog::Kernel => {
            args.push("-T".to_owned());
            "dmesg".to_owned()
        },
        SystemLog::Syslog => {
            args.push("-n".to_owned());
            args.push(decimal_usize(n));
            args.push("/var/log/syslog".to_owned());
            "tail".to_owned()
        },
        SystemLog::Journal => {
            args.push("-n".to_owned());
            args.push(decimal_usize(n));
            args.push("--no-pager".to_owned());
            "journalctl".to_owned()
        },
    };
    assert(texts(args@) =~= log_command_of(log, n as nat).1);
    (program, args)
}

/// What came of printing a log of the system.
pub enum LogOutput {
    Printed { text: String },
    Failed { status: String, errors: String },
    NotRun { error: String },
}

/// What is sent of it. The kernel's log is cut to its last lines here.
pub open spec fn log_text_of(log: SystemLog, n: nat, out: LogOutput) -> Seq<char> {
    match out {
        LogOutput::Printed { text } => if log == SystemLog::Kernel {
            tail_of(text@, n)
        } else {
            text@
        },
        LogOutput::Failed { status, errors } => (match log {
            SystemLog::Kernel => "dmesg failed ("@,
            SystemLog::Syslog => "Failed to read syslog ("@,
            SystemLog::Journal => "Failed to read journal ("@,
        }) + status@ + "): "@ + errors@,
        LogOutput::NotRun { error } => (match log {
            SystemLog::Kernel => "Failed to run dmesg: "@,
            SystemLog::Syslog => "Failed to read syslog: "@,
            SystemLog::Journal => "Failed to read journal: "@,
        }) + error@,
    }
}

pub fn log_text(log: SystemLog, n: usize, out: &LogOutput) -> (r: String)
    ensures
        r@ == log_text_of(log, n as nat, *out),
{
    match out {
        LogOutput::Printed { text } => match log {
            SystemLog::Kernel => last_lines(text, n),
            _ => text.clone(),
        },
        LogOutput::Failed { status, errors } => {
            let mut r: String = match log {
                SystemLog::Kernel => "dmesg failed (".to_owned(),
                SystemLog::Syslog => "Failed to read syslog (".to_owned(),
                SystemLog::Journal => "Failed to read journal (".to_owned(),
            };
            r.append(status);
            r.append("): ");
            r.append(errors);
            r
        },
        LogOutput::NotRun { error } => {
            let mut r: String = match log {
                SystemLog::Kernel => "Failed to run dmesg: ".to_owned(),
                SystemLog::Syslog => "Failed to read syslog: ".to_owned(),
                SystemLog::Journal => "Failed to read journal: ".to_owned(),
            };
            r.append(error);
            r
        },
    }
}

/// What is sent where a log is asked for that there is not.
pub fn unknown_log(source: &str) -> (r: String)
    ensures
        r@ == "Unsupported log source: "@ + source@,
{
    let mut r: String = "Unsupported log source: ".to_owned();
    r.append(source);
    r
}

/// What is sent where the working directory of a job is not known.
pub fn missing_dir_error(job_id: u64) -> (r: String)
    ensures
        r@ == "Working directory for job "@ + decimal(job_id as nat) + " not found"@,
{
    let mut r: String = "Working directory for job ".to_owned();
    r.append(&decimal_u64(job_id));
    r.append(" not found");
    r
}

/// What follows an attempt to reach the desktop of a job.
pub enum DesktopStep {
    Connected,
    /// Wait this long and try once more.
    Retry { attempt: u32, wait_ms: u64 },
    Closed { reason: String },
}

/// How often it is tried to reach the desktop of a job.
pub const DESKTOP_ATTEMPTS: u32 = 10;

pub ghost enum DesktopView {
    Connected,
    Retry(nat, nat),
    Closed(Seq<char>),
}

pub open spec fn desktop_view(s: DesktopStep) -> DesktopView {
    match s {
        DesktopStep::Connected => DesktopView::Connected,
        DesktopStep::Retry { attempt, wait_ms } => DesktopView::Retry(attempt as nat, wait_ms as nat),
        DesktopStep::Closed { reason } => DesktopView::Closed(reason@),
    }
}

/// What follows an attempt to reach the desktop of a job.
pub open spec fn desktop_after(attempt: u32, connected: bool, error: Seq<char>) -> DesktopView {
    if connected {
        DesktopView::Connected
    } else if attempt < DESKTOP_ATTEMPTS {
        DesktopView::Retry((attempt + 1) as nat, 500)
    } else {
        DesktopView::Closed("TCP connect refused: "@ + error)
    }
}

/// What follows the attempt with the number `attempt`, counted from 1.
pub fn after_desktop_attempt(attempt: u32, connected: bool, error: &str) -> (r: DesktopStep)
    requires
        1 <= attempt <= DESKTOP_ATTEMPTS,
    ensures
        desktop_view(r) == desktop_after(attempt, connected, error@),
        connected ==> r is Connected,
        !connected && attempt < DESKTOP_ATTEMPTS ==> r == (DesktopStep::Retry {
            attempt: (attempt + 1) as u32,
            wait_ms: 500,
        }),
        !connected && attempt == DESKTOP_ATTEMPTS ==> (r matches DesktopStep::Closed { reason }
            && reason@ == "TCP connect refused: "@ + error@),
{
    if connected {
        DesktopStep::Connected
    } else if attempt < DESKTOP_ATTEMPTS {
        DesktopStep::Retry { attempt: attempt + 1, wait_ms: 500 }
    } else {
        let mut reason: String = "TCP connect refused: ".to_owned();
        reason.append(error);
        DesktopStep::Closed { reason }
    }
}

/// How long a worker waits before it restarts: time for the controller to hear of it, and the
/// delay that was asked for. A restart that is meant for another component is none of its.
pub fn restart_waits(component: &str, delay_ms: u64) -> (r: Option<(u64, u64)>)
    ensures
        r == (if component@ == "worker"@ {
            Some((500u64, delay_ms))
        } else {
            None
        }),
{
    if str_eq(component, "worker") {
        Some((500, delay_ms))
    } else {
        None
    }
}

/// What a machine that only plays one says of its memory, in bytes.
pub fn simulated_memory(megabytes: u64) -> (r: Option<u64>)
    ensures
        match r {
            Some(b) => b == megabytes * 1024 * 1024,
            None => megabytes * 1024 * 1024 > u64::MAX,
        },
{
    if megabytes > 17592186044415 {
        None
    } else {
        Some(megabytes * 1024 * 1024)
    }
}

/// What is measured of a job's memory, from several sources.
#[derive(Clone, Copy)]
pub struct MemorySample {
    /// What the job's control group says, if it could be read.
    pub group_bytes: Option<u64>,
    /// Whether the control group's processor time could be read too.
    pub group_time_known: bool,
    /// The processes that the control group lists.
    pub listed_bytes: u64,
    /// The processes of the launcher's process group.
    pub process_group_bytes: u64,
    /// The launcher and its descendants.
    pub tree_bytes: u64,
    /// The processes of the job's namespace, if they could be read.
    pub namespace_bytes: Option<u64>,
}

pub open spec fn larger(a: u64, b: u64) -> u64 {
    if a >= b {
        a
    } else {
        b
    }
}

/// The memory of a job: what its control group says, where that can be trusted, and at least
/// what its process group and its namespace use.
pub open spec fn job_memory_of(s: MemorySample) -> u64 {
    let base = match s.group_bytes {
        Some(m) => if s.group_time_known {
            larger(
                if m == 0 {
                    s.listed_bytes
                } else {
                    m
                },
                s.process_group_bytes,
            )
        } else {
            larger(s.tree_bytes, s.process_group_bytes)
        },
        None => larger(s.tree_bytes, s.process_group_bytes),
    };
    match s.namespace_bytes {
        Some(n) => larger(base, n),
        None => base,
    }
}

fn max_u64(a: u64, b: u64) -> (r: u64)
    ensures
        r == larger(a, b),
{
    if a >= b {
        a
    } else {
        b
    }
}

pub fn job_memory(s: &MemorySample) -> (r: u64)
    ensures
        r == job_memory_of(*s),
{
    let mut base: u64 = max_u64(s.tree_bytes, s.process_group_bytes);
    if let Some(m) = s.group_bytes {
        if s.group_time_known {
            let own: u64 = if m == 0 {
                s.listed_bytes
            } else {
                m
            };
            base = max_u64(own, s.process_group_bytes);
        }
    }
    match s.namespace_bytes {
        Some(n) => max_u64(base, n),
        None => base,
    }
}

/// What a job's processor load is worked out from.
#[derive(Debug, Clone, Copy, PartialEq, Eq, Structural)]
pub enum LoadBasis {
    /// The time used since the last measurement and the time gone by, in microseconds.
    Used { used: u64, elapsed: u64 },
    /// Nothing has been measured before: the load that its processes show.
    Processes,
    /// No time has gone by.
    Nothing,
}

/// What a job's load is worked out from.
pub open spec fn basis_of(now: u64, last: Option<(u64, u64)>) -> LoadBasis {
    match last {
        Some(l) => if l.1 > 0 {
            LoadBasis::Used { used: time_since(now, l.0), elapsed: l.1 }
        } else {
            LoadBasis::Nothing
        },
        None => LoadBasis::Processes,
    }
}

/// What a job's load is worked out from: `now` is the processor time of its control group,
/// `last` that at the last measurement and the time since then.
pub fn load_basis(now: u64, last: Option<(u64, u64)>) -> (r: LoadBasis)
    ensures
        r == basis_of(now, last),
        r == (match last {
            Some(l) => if l.1 > 0 {
                LoadBasis::Used {
                    used: if now >= l.0 {
                        (now - l.0) as u64
                    } else {
                        0
                    },
                    elapsed: l.1,
                }
            } else {
                LoadBasis::Nothing
            },
            None => LoadBasis::Processes,
        }),
{
    match last {
        Some(l) => if l.1 > 0 {
            LoadBasis::Used { used: now.saturating_sub(l.0), elapsed: l.1 }
        } else {
            LoadBasis::Nothing
        },
        None => LoadBasis::Processes,
    }
}

/// What has been seen of a job so far.
#[derive(Debug, Clone, Copy, PartialEq, Eq, Structural)]
pub struct JobActivity {
    pub max_memory_bytes: u64,
    pub cpu_time_ms: u64,
    pub last_active_at: u64,
    pub is_idle: bool,
    pub idle_duration: u64,
}

pub open spec fn time_since(now: u64, then_at: u64) -> u64 {
    if now >= then_at {
        (now - then_at) as u64
    } else {
        0
    }
}

/// What is known of a job after a measurement. A job counts as idle once it has not been busy
/// for `timeout` seconds, and until it is busy again.
pub open spec fn activity_after(
    a: JobActivity,
    now: u64,
    busy: bool,
    timeout: u64,
    memory: u64,
    cpu_ms: u64,
) -> JobActivity {
    let measured = JobActivity {
        max_memory_bytes: larger(a.max_memory_bytes, memory),
        cpu_time_ms: (a.cpu_time_ms + cpu_ms) as u64,
        ..a
    };
    if busy {
        JobActivity { last_active_at: now, is_idle: false, idle_duration: 0, ..measured }
    } else if a.is_idle || time_since(now, a.last_active_at) >= timeout {
        JobActivity {
            is_idle: true,
            idle_duration: time_since(now, a.last_active_at),
            ..measured
        }
    } else {
        measured
    }
}

pub fn note_activity(
    a: &JobActivity,
    now: u64,
    busy: bool,
    timeout: u64,
    memory: u64,
    cpu_ms: u64,
) -> (r: JobActivity)
    requires
        a.cpu_time_ms + cpu_ms <= u64::MAX,
    ensures
        r == activity_after(*a, now, busy, timeout, memory, cpu_ms),
{
    let max_memory_bytes: u64 = max_u64(a.max_memory_bytes, memory);
    let cpu_time_ms: u64 = a.cpu_time_ms + cpu_ms;
    let quiet: u64 = now.saturating_sub(a.last_active_at);
    if busy {
        JobActivity {
            max_memory_bytes,
            cpu_time_ms,
            last_active_at: now,
            is_idle: false,
            idle_duration: 0,
        }
    } else if a.is_idle || quiet >= timeout {
        JobActivity {
            max_memory_bytes,
            cpu_time_ms,
            last_active_at: a.last_active_at,
            is_idle: true,
            idle_duration: quiet,
        }
    } else {
        JobActivity {
            max_memory_bytes,
            cpu_time_ms,
            last_active_at: a.last_active_at,
            is_idle: a.is_idle,
            idle_duration: a.idle_duration,
        }
    }
}

/// What a job has used never shrinks on record, and a busy job is not idle.
pub proof fn law_activity_only_grows(
    a: JobActivity,
    now: u64,
    busy: bool,
    timeout: u64,
    memory: u64,
    cpu_ms: u64,
)
    requires
        a.cpu_time_ms + cpu_ms <= u64::MAX,
    ensures
        activity_after(a, now, busy, timeout, memory, cpu_ms).max_memory_bytes
            >= a.max_memory_bytes,
        activity_after(a, now, busy, timeout, memory, cpu_ms).max_memory_bytes >= memory,
        activity_after(a, now, busy, timeout, memory, cpu_ms).cpu_time_ms >= a.cpu_time_ms,
        busy ==> !activity_after(a, now, busy, timeout, memory, cpu_ms).is_idle,
        activity_after(a, now, busy, timeout, memory, cpu_ms).is_idle && !a.is_idle ==> now
            - a.last_active_at >= timeout || timeout == 0,
{
}

/// Counters of a machine that only ever grow.
#[derive(Debug, Clone, Copy, PartialEq, Eq, Structural)]
pub struct Counters {
    pub rx: u64,
    pub tx: u64,
    pub rx_packets: u64,
    pub tx_packets: u64,
    pub disk_read: u64,
    pub disk_write: u64,
}

/// What the counters have gone up by since the last look.
pub open spec fn gone_up(now: Counters, last: Counters) -> Counters {
    Counters {
        rx: time_since(now.rx, last.rx),
        tx: time_since(now.tx, last.tx),
        rx_packets: time_since(now.rx_packets, last.rx_packets),
        tx_packets: time_since(now.tx_packets, last.tx_packets),
        disk_read: time_since(now.disk_read, last.disk_read),
        disk_write: time_since(now.disk_write, last.disk_write),
    }
}

/// What the counters have gone up by since the last look; nothing, for one that started anew.
pub fn counted_since(now: &Counters, last: &Counters) -> (r: Counters)
    ensures
        r == gone_up(*now, *last),
        r == (Counters {
            rx: time_since(now.rx, last.rx),
            tx: time_since(now.tx, last.tx),
            rx_packets: time_since(now.rx_packets, last.rx_packets),
            tx_packets: time_since(now.tx_packets, last.tx_packets),
            disk_read: time_since(now.disk_read, last.disk_read),
            disk_write: time_since(now.disk_write, last.disk_write),
        }),
{
    Counters {
        rx: now.rx.saturating_sub(last.rx),
        tx: now.tx.saturating_sub(last.tx),
        rx_packets: now.rx_packets.saturating_sub(last.rx_packets),
        tx_packets: now.tx_packets.saturating_sub(last.tx_packets),
        disk_read: now.disk_read.saturating_sub(last.disk_read),
        disk_write: now.disk_write.saturating_sub(last.disk_write),
    }
}

/// The tail of a text of lines has the last lines of it, and no more than were asked for.
pub proof fn law_tails_have_the_last_lines(p: Seq<Seq<char>>, n: nat)
    requires
        p.len() > 0,
        forall|i: int| 0 <= i < p.len() ==> !(#[trigger] p[i]).contains('\n'),
        forall|i: int| 0 <= i < p.len() ==> !(#[trigger] p[i]).contains('\r'),
    ensures
        p.len() <= n ==> tail_of(joined(p, seq!['\n']) + seq!['\n'], n) == joined(p, seq!['\n']),
        0 < n < p.len() ==> split_on(tail_of(joined(p, seq!['\n']) + seq!['\n'], n), '\n')
            == p.subrange(p.len() - n, p.len() as int),
{
    reveal_strlit("\n");
    assert("\n"@ =~= seq!['\n']);
    crate::pieces::law_lines_are_read(p);
    if 0 < n < p.len() {
        let last = p.subrange(p.len() - n, p.len() as int);
        assert(last =~= p.skip(p.len() - n));
        assert forall|i: int| 0 <= i < last.len() implies !(#[trigger] last[i]).contains('\n') by {
            assert(last[i] == p[i + p.len() - n]);
        }
        crate::pieces::law_split_undoes_join(last, '\n');
    }
}

/// The memory of a job is one of those measured, and none of what its processes are known to use is
/// left out: neither that of its process group nor that of its namespace. What its control group
/// says counts where the group can be trusted and says something; the processes that it lists count
/// where it says nothing.
pub proof fn law_memory_is_the_largest_measured(s: MemorySample)
    ensures
        ({
            let m = job_memory_of(s);
            let group = s.group_bytes is Some && s.group_time_known;
            &&& m >= s.process_group_bytes
            &&& s.namespace_bytes is Some ==> m >= s.namespace_bytes->0
            &&& group && s.group_bytes->0 > 0 ==> m >= s.group_bytes->0
            &&& group && s.group_bytes->0 == 0 ==> m >= s.listed_bytes
            &&& !group ==> m >= s.tree_bytes
            &&& m == s.process_group_bytes || s.namespace_bytes == Some(m) || (group
                && s.group_bytes->0 > 0 && m == s.group_bytes->0) || (group && s.group_bytes->0 == 0
                && m == s.listed_bytes) || (!group && m == s.tree_bytes)
        }),
{
}

/// A busy job is active now. One that is not keeps the time at which it was last active, and is idle
/// once that is long enough ago, for as long as it has been inactive; it stays idle until it is busy
/// again. What it used is added up.
pub proof fn law_jobs_are_idle_after_their_timeout(
    a: JobActivity,
    now: u64,
    busy: bool,
    timeout: u64,
    memory: u64,
    cpu_ms: u64,
)
    requires
        a.cpu_time_ms + cpu_ms <= u64::MAX,
        a.last_active_at <= now,
    ensures
        ({
            let b = activity_after(a, now, busy, timeout, memory, cpu_ms);
            let quiet = now - a.last_active_at;
            &&& b.last_active_at == (if busy {
                now
            } else {
                a.last_active_at
            })
            &&& b.is_idle <==> !busy && (a.is_idle || quiet >= timeout)
            &&& b.is_idle ==> b.idle_duration == quiet
            &&& busy ==> b.idle_duration == 0
            &&& !busy && !b.is_idle ==> b.idle_duration == a.idle_duration
            &&& b.cpu_time_ms == a.cpu_time_ms + cpu_ms
            &&& b.max_memory_bytes == memory || b.max_memory_bytes == a.max_memory_bytes
        }),
{
}

/// Each counter is compared with itself at the last look: what it has gone up by is counted, and
/// nothing where it has gone down.
pub proof fn law_counters_are_counted_apart(now: Counters, last: Counters)
    ensures
        ({
            let d = gone_up(now, last);
            &&& last.rx + d.rx == now.rx || (now.rx < last.rx && d.rx == 0)
            &&& last.tx + d.tx == now.tx || (now.tx < last.tx && d.tx == 0)
            &&& last.rx_packets + d.rx_packets == now.rx_packets || (now.rx_packets
                < last.rx_packets && d.rx_packets == 0)
            &&& last.tx_packets + d.tx_packets == now.tx_packets || (now.tx_packets
                < last.tx_packets && d.tx_packets == 0)
            &&& last.disk_read + d.disk_read == now.disk_read || (now.disk_read < last.disk_read
                && d.disk_read == 0)
            &&& last.disk_write + d.disk_write == now.disk_write || (now.disk_write
                < last.disk_write && d.disk_write == 0)
        }),
{
}

/// The load of a job is worked out from the time that it used since the last look, never from less
/// than none; without a last look, from its processes.
pub proof fn law_load_is_that_since_the_last_look(now: u64, before: u64, elapsed: u64)
    ensures
        basis_of(now, None) is Processes,
        basis_of(now, Some((before, 0u64))) is Nothing,
        elapsed >= 1 ==> (basis_of(now, Some((before, elapsed))) matches LoadBasis::Used {
            used,
            elapsed: e,
        } && e == elapsed && (before + used == now || (now < before && used == 0))),
{
}

/// Of the log of the kernel the last lines are sent, of any other what was printed; where printing
/// it went wrong, why is told.
pub proof fn law_system_logs_are_sent(log: SystemLog, n: nat, text: String, status: String)
    ensures
        log == SystemLog::Kernel ==> log_text_of(log, n, LogOutput::Printed { text }) == tail_of(
            text@,
            n,
        ),
        log != SystemLog::Kernel ==> log_text_of(log, n, LogOutput::Printed { text }) == text@,
        crate::text::has_suffix(log_text_of(log, n, LogOutput::NotRun { error: text }), text@),
        crate::text::has_suffix(
            log_text_of(log, n, LogOutput::Failed { status, errors: text }),
            text@,
        ),
{
    crate::text::lemma_ends_with(
        match log {
            SystemLog::Kernel => "Failed to run dmesg: "@,
            SystemLog::Syslog => "Failed to read syslog: "@,
            SystemLog::Journal => "Failed to read journal: "@,
        },
        text@,
    );
    crate::text::lemma_ends_with(
        (match log {
            SystemLog::Kernel => "dmesg failed ("@,
            SystemLog::Syslog => "Failed to read syslog ("@,
            SystemLog::Journal => "Failed to read journal ("@,
        }) + status@ + "): "@,
        text@,
    );
}

/// A log goes by its name, and is printed by the program that has it; as many lines are asked for as
/// were asked of the worker.
pub proof fn law_system_logs_go_by_name(source: Seq<char>, n: nat)
    ensures
        system_log_of("dmesg"@) == Some(SystemLog::Kernel),
        system_log_of("syslog"@) == Some(SystemLog::Syslog),
        system_log_of("journal"@) == Some(SystemLog::Journal),
        source != "dmesg"@ && source != "syslog"@ && source != "journal"@ ==> system_log_of(source)
            is None,
        log_command_of(SystemLog::Kernel, n).0 == "dmesg"@,
        log_command_of(SystemLog::Syslog, n).0 == "tail"@ && log_command_of(
            SystemLog::Syslog,
            n,
        ).1.contains(decimal(n)) && log_command_of(SystemLog::Syslog, n).1.last()
            == "/var/log/syslog"@,
        log_command_of(SystemLog::Journal, n).0 == "journalctl"@ && log_command_of(
            SystemLog::Journal,
            n,
        ).1.contains(decimal(n)),
{
    reveal_strlit("dmesg");
    reveal_strlit("syslog");
    reveal_strlit("journal");
    assert("dmesg"@.len() == 5);
    assert("syslog"@.len() == 6);
    assert("journal"@.len() == 7);
    assert(log_command_of(SystemLog::Syslog, n).1[1] == decimal(n));
    assert(log_command_of(SystemLog::Journal, n).1[1] == decimal(n));
}

/// A step that has ended is reached by no message any more; other steps are reached as before.
pub proof fn law_ended_steps_are_not_reached(
    steps: Seq<(u64, u32)>,
    step: (u64, u32),
    other: (u64, u32),
)
    ensures
        without_step(steps, step).contains(other) <==> steps.contains(other) && other != step,
    decreases steps.len(),
{
    if steps.len() > 0 {
        let front = steps.drop_last();
        let w = without_step(front, step);
        law_ended_steps_are_not_reached(front, step, other);
        if steps.contains(other) {
            let i = choose|i: int| 0 <= i < steps.len() && steps[i] == other;
            if i < front.len() {
                assert(front[i] == other);
            }
        }
        if front.contains(other) {
            let i = choose|i: int| 0 <= i < front.len() && front[i] == other;
            assert(steps[i] == other);
        }
        if steps.last() != step {
            let all = w.push(steps.last());
            if w.contains(other) {
                let i = choose|i: int| 0 <= i < w.len() && w[i] == other;
                assert(all[i] == other);
            }
            if all.contains(other) {
                let i = choose|i: int| 0 <= i < all.len() && all[i] == other;
                if i < w.len() {
                    assert(w[i] == other);
                }
            }
            if steps.last() == other {
                assert(all[w.len() as int] == other);
                assert(steps[steps.len() - 1] == other);
            }
        }
    }
}

/// The desktop of a job is tried for ten times in all, half a second apart; once it is reached it is
/// not tried again, and after the last time it is told why.
pub proof fn law_desktops_are_tried_ten_times(attempt: u32, error: Seq<char>)
    requires
        1 <= attempt <= 10,
    ensures
        desktop_after(attempt, true, error) is Connected,
        attempt <= 9 ==> desktop_after(attempt, false, error) == (DesktopView::Retry(
            (attempt + 1) as nat,
            500,
        )),
        attempt == 10 ==> desktop_after(attempt, false, error) == DesktopView::Closed(
            "TCP connect refused: "@ + error,
        ),
{
}

/// A job that has ended can no longer be told to stop and its process is no longer known, but its
/// directory still is; one that is taken up again can be told, and is found where it was. Other jobs
/// are left alone.
pub proof fn law_ended_jobs_leave_their_directory(
    v: StateView,
    job_id: u64,
    other: u64,
    pid: u32,
    dir: Seq<char>,
)
    ensures
        ({
            let done = finished(v, job_id);
            let back = adopted(v, job_id, pid, dir);
            &&& !done.jobs.contains(job_id) && !done.pids.contains_key(job_id)
            &&& done.dirs == v.dirs
            &&& back.jobs.contains(job_id) && back.pids.contains_key(job_id) && back.pids[job_id]
                == pid && back.dirs.contains_key(job_id) && back.dirs[job_id] == dir
            &&& other != job_id ==> (done.jobs.contains(other) <==> v.jobs.contains(other)) && (
            back.jobs.contains(other) <==> v.jobs.contains(other))
            &&& other != job_id && v.pids.contains_key(other) ==> done.pids.contains_key(other)
                && done.pids[other] == v.pids[other] && back.pids[other] == v.pids[other]
            &&& other != job_id && v.dirs.contains_key(other) ==> back.dirs.contains_key(other)
                && back.dirs[other] == v.dirs[other]
        }),
{
    lemma_without_job_contains(v.jobs, job_id, job_id);
    lemma_without_job_contains(v.jobs, job_id, other);
    let w = without_job(v.jobs, job_id);
    let all = w.push(job_id);
    assert(all[w.len() as int] == job_id);
    if w.contains(other) {
        let i = choose|i: int| 0 <= i < w.len() && w[i] == other;
        assert(all[i] == other);
    }
    if all.contains(other) && other != job_id {
        let i = choose|i: int| 0 <= i < all.len() && all[i] == other;
        assert(w[i] == other);
    }
}

} // verus!
