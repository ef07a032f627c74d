//! The control groups that hold jobs to their memory, processors and devices.

use vstd::prelude::*;

use crate::numbers::decimal;
use crate::numbers::decimal_u32;
use crate::numbers::decimal_u64;
use crate::numbers::is_digit;
use crate::numbers::law_read_undoes_decimal;
use crate::numbers::lemma_decimal_digits;
use crate::numbers::read_nat;
use crate::pieces::join;
use crate::pieces::joined;
use crate::pieces::law_split_at_the_end;
use crate::pieces::law_split_of_one_piece;
use crate::pieces::split_on;
use crate::text::contains;
use crate::text::has_prefix;
use crate::text::has_suffix;
use crate::text::has_text;
use crate::text::lemma_ends_with;
use crate::text::str_eq;
use crate::text::texts;

verus! {

/// A kind of generic resource and the units of it that a job was given.
pub struct GresEntry {
    pub name: String,
    pub ids: Vec<u32>,
}

/// A file to write, and whether a failure to write it is a failure of the whole.
pub struct FileWrite {
    pub path: String,
    pub contents: String,
    pub required: bool,
}

/// What a file write says: the path, the contents, and whether it is required.
pub open spec fn write_view(w: FileWrite) -> (Seq<char>, Seq<char>, bool) {
    (w.path@, w.contents@, w.required)
}

pub open spec fn writes_view(w: Seq<FileWrite>) -> Seq<(Seq<char>, Seq<char>, bool)> {
    Seq::new(w.len(), |i: int| write_view(w[i]))
}

/// The steps of setting the manager up. Each is carried out and answered before the next.
pub enum InitStep {
    /// Look for the list of controllers.
    FindControllers,
    /// Move the worker into a group of its own, as far as that is possible.
    EnterWorkerGroup,
    /// Read which controllers the root group hands down.
    ReadRootSubtree,
    /// Have the root group hand down the missing controllers.
    EnableInRoot { value: String },
    /// Look for the group that holds the jobs' groups.
    FindRoot,
    /// Create that group.
    CreateRoot,
    /// Look for its list of controllers to hand down.
    FindSubtree,
    /// Have it hand down the controllers that jobs are held by.
    EnableInSubtree { value: String },
    /// The manager is set up, enabled or not.
    Done,
    /// The group for the jobs' groups could not be created.
    Failed,
}

/// The controllers that a list lacks, each with a plus sign.
pub open spec fn missing_controllers(current: Seq<char>) -> Seq<Seq<char>> {
    let cpu: Seq<Seq<char>> = if has_text(current, "cpu"@) {
        seq![]
    } else {
        seq!["+cpu"@]
    };
    let memory: Seq<Seq<char>> = if has_text(current, "memory"@) {
        seq![]
    } else {
        seq!["+memory"@]
    };
    let pids: Seq<Seq<char>> = if has_text(current, "pids"@) {
        seq![]
    } else {
        seq!["+pids"@]
    };
    cpu + memory + pids
}

/// What to write to have the missing controllers handed down; nothing, where none is missing.
pub fn controllers_to_enable(current: &str) -> (r: Option<String>)
    ensures
        missing_controllers(current@).len() == 0 ==> r is None,
        missing_controllers(current@).len() > 0 ==> r is Some && r->0@ == joined(
            missing_controllers(current@),
            " "@,
        ),
{
    let mut list: Vec<String> = Vec::new();
    if !contains(current, "cpu") {
        list.push("+cpu".to_owned());
    }
    if !contains(current, "memory") {
        list.push("+memory".to_owned());
    }
    if !contains(current, "pids") {
        list.push("+pids".to_owned());
    }
    assert(texts(list@) =~= missing_controllers(current@));
    if list.len() == 0 {
        None
    } else {
        Some(join(&list, " "))
    }
}

/// What to do about a group that could not be removed.
#[derive(Clone, Copy, PartialEq, Eq, Structural)]
pub enum CleanupStep {
    Removed,
    /// Wait this long and try again.
    Retry { attempts: u32, wait_ms: u64 },
    /// Wait this long and leave the group as it is.
    GiveUp { wait_ms: u64 },
}

/// How often the removal of a group is tried.
pub const REMOVE_ATTEMPTS: u32 = 5;

pub open spec fn cleanup_after(removed: bool, attempts: u32) -> CleanupStep {
    if removed {
        CleanupStep::Removed
    } else if attempts + 1 < REMOVE_ATTEMPTS {
        CleanupStep::Retry { attempts: (attempts + 1) as u32, wait_ms: 100 }
    } else {
        CleanupStep::GiveUp { wait_ms: 100 }
    }
}

/// What follows an attempt to remove a group, after `attempts` failed ones. Every attempt that
/// fails is followed by a wait, the last one too.
pub fn after_removal(removed: bool, attempts: u32) -> (step: CleanupStep)
    requires
        attempts < REMOVE_ATTEMPTS,
    ensures
        step == (if removed {
            CleanupStep::Removed
        } else if attempts + 1 < REMOVE_ATTEMPTS {
            CleanupStep::Retry { attempts: (attempts + 1) as u32, wait_ms: 100 }
        } else {
            CleanupStep::GiveUp { wait_ms: 100 }
        }),
        step == cleanup_after(removed, attempts),
{
    if removed {
        CleanupStep::Removed
    } else if attempts + 1 < REMOVE_ATTEMPTS {
        CleanupStep::Retry { attempts: attempts + 1, wait_ms: 100 }
    } else {
        CleanupStep::GiveUp { wait_ms: 100 }
    }
}

/// The manager of the jobs' control groups.
pub struct CgroupManager {
    root_path: String,
    enabled: bool,
}

/// The write that puts a process into the group at `path`.
pub open spec fn process_write(path: Seq<char>, pid: u32, required: bool) -> (
    Seq<char>,
    Seq<char>,
    bool,
) {
    (path + "/cgroup.procs"@, decimal(pid as nat), required)
}

/// The writes that put limits on the group at `path`.
pub open spec fn limit_writes(path: Seq<char>, memory_mb: u64, cores: u32) -> Seq<
    (Seq<char>, Seq<char>, bool),
> {
    let memory: Seq<(Seq<char>, Seq<char>, bool)> = if memory_mb > 0 {
        seq![(path + "/memory.max"@, decimal((memory_mb * 1024 * 1024) as nat), true)]
    } else {
        seq![]
    };
    let cpu: Seq<(Seq<char>, Seq<char>, bool)> = if cores > 0 {
        seq![(path + "/cpu.max"@, decimal((cores * 100000) as nat) + " 100000"@, true)]
    } else {
        seq![]
    };
    memory + cpu + seq![(path + "/pids.max"@, "10000"@, false)]
}

/// The GPUs of the entries named `gpu`, in order.
pub open spec fn gpu_grants(gres: Seq<GresEntry>) -> Seq<Seq<u32>>
    decreases gres.len(),
{
    if gres.len() == 0 {
        Seq::empty()
    } else if gres.last().name@ == "gpu"@ {
        gpu_grants(gres.drop_last()).push(gres.last().ids@)
    } else {
        gpu_grants(gres.drop_last())
    }
}

pub open spec fn id_lists(v: Seq<Vec<u32>>) -> Seq<Seq<u32>> {
    Seq::new(v.len(), |i: int| v[i]@)
}

/// What holds a job to its resources: files to write, and device filters to attach to its
/// group.
pub struct LimitPlan {
    pub writes: Vec<FileWrite>,
    pub filter_path: String,
    pub gpu_filters: Vec<Vec<u32>>,
}

impl CgroupManager {
    /// The directory of the group that holds the jobs' groups.
    pub closed spec fn root(&self) -> Seq<char> {
        self.root_path@
    }

    /// Jobs are held by control groups.
    pub closed spec fn on(&self) -> bool {
        self.enabled
    }

    /// The directory of a job's group.
    pub open spec fn job_path(&self, job_id: u64) -> Seq<char> {
        self.root() + "/job-"@ + decimal(job_id as nat)
    }

    pub fn new() -> (r: Self)
        ensures
            r.root() == "/sys/fs/cgroup/veloce"@,
            !r.on(),
    {
        CgroupManager { root_path: "/sys/fs/cgroup/veloce".to_owned(), enabled: false }
    }

    pub fn is_enabled(&self) -> (r: bool)
        ensures
            r == self.on(),
    {
        self.enabled
    }

    pub fn root_dir(&self) -> (r: String)
        ensures
            r@ == self.root(),
    {
        self.root_path.clone()
    }

    /// The step after `step`, to which the answer was `ok`: what was looked for is there, or
    /// what was asked for was done. `contents` is what was read.
    pub fn init(&mut self, step: InitStep, ok: bool, contents: &str) -> (next: InitStep)
        ensures
            final(self).root() == old(self).root(),
            final(self).on() == (match step {
                InitStep::FindControllers | InitStep::FindSubtree => ok && old(self).on(),
                InitStep::EnableInSubtree { .. } => ok,
                _ => old(self).on(),
            }),
            match step {
                InitStep::FindControllers => if ok {
                    next is EnterWorkerGroup
                } else {
                    next is Done
                },
                InitStep::EnterWorkerGroup => next is ReadRootSubtree,
                InitStep::ReadRootSubtree => if ok && missing_controllers(contents@).len() > 0 {
                    next matches InitStep::EnableInRoot { value } && value@ == joined(
                        missing_controllers(contents@),
                        " "@,
                    )
                } else {
                    next is FindRoot
                },
                InitStep::EnableInRoot { .. } => next is FindRoot,
                InitStep::FindRoot => if ok {
                    next is FindSubtree
                } else {
                    next is CreateRoot
                },
                InitStep::CreateRoot => if ok {
                    next is FindSubtree
                } else {
                    next is Failed
                },
                InitStep::FindSubtree => if ok {
                    next matches InitStep::EnableInSubtree { value } && value@
                        == "+cpu +memory +pids"@
                } else {
                    next is Done
                },
                InitStep::EnableInSubtree { .. } => next is Done,
                InitStep::Done => next is Done,
                InitStep::Failed => next is Failed,
            },
    {
        match step {
            InitStep::FindControllers => if ok {
                InitStep::EnterWorkerGroup
            } else {
                self.enabled = false;
                InitStep::Done
            },
            InitStep::EnterWorkerGroup => InitStep::ReadRootSubtree,
            InitStep::ReadRootSubtree => if ok {
                match controllers_to_enable(contents) {
                    Some(value) => InitStep::EnableInRoot { value },
                    None => InitStep::FindRoot,
                }
            } else {
                InitStep::FindRoot
            },
            InitStep::EnableInRoot { .. } => InitStep::FindRoot,
            InitStep::FindRoot => if ok {
                InitStep::FindSubtree
            } else {
                InitStep::CreateRoot
            },
            InitStep::CreateRoot => if ok {
                InitStep::FindSubtree
            } else {
                InitStep::Failed
            },
            InitStep::FindSubtree => if ok {
                InitStep::EnableInSubtree { value: "+cpu +memory +pids".to_owned() }
            } else {
                self.enabled = false;
                InitStep::Done
            },
            InitStep::EnableInSubtree { .. } => {
                self.enabled = ok;
                InitStep::Done
            },
            InitStep::Done => InitStep::Done,
            InitStep::Failed => InitStep::Failed,
        }
    }

    pub fn get_job_path(&self, job_id: u64) -> (r: String)
        ensures
            r@ == self.job_path(job_id),
    {
        let mut r: String = self.root_path.clone();
        r.append("/job-");
        r.append(&decimal_u64(job_id));
        r
    }

    /// The directory to create for a job; none, where jobs are not held by groups. A group
    /// of an earlier job with the same number is removed first.
    pub fn create_job_cgroup(&self, job_id: u64) -> (r: Option<String>)
        ensures
            r is Some <==> self.on(),
            r is Some ==> r->0@ == self.job_path(job_id),
    {
        if !self.enabled {
            return None;
        }
        Some(self.get_job_path(job_id))
    }

    /// The write that puts a process into a job's group.
    pub fn add_process(&self, job_id: u64, pid: u32) -> (r: Option<FileWrite>)
        ensures
            r is Some <==> self.on(),
            r is Some ==> write_view(r->0) == (
                self.job_path(job_id) + "/cgroup.procs"@,
                decimal(pid as nat),
                true,
            ),
            r is Some ==> write_view(r->0) == process_write(self.job_path(job_id), pid, true),
    {
        if !self.enabled {
            return None;
        }
        let mut path: String = self.get_job_path(job_id);
        path.append("/cgroup.procs");
        Some(FileWrite { path, contents: decimal_u32(pid), required: true })
    }

    /// The directory of the group of a step.
    pub open spec fn step_path(&self, job_id: u64, step_id: u32) -> Seq<char> {
        self.job_path(job_id) + "/step-"@ + decimal(step_id as nat)
    }

    /// The directory to create for a step; none, where jobs are not held by groups.
    pub fn create_step_cgroup(&self, job_id: u64, step_id: u32) -> (r: Option<String>)
        ensures
            r is Some <==> self.on(),
            r is Some ==> r->0@ == self.step_path(job_id, step_id),
    {
        if !self.enabled {
            return None;
        }
        let mut path: String = self.get_job_path(job_id);
        path.append("/step-");
        path.append(&decimal_u32(step_id));
        Some(path)
    }

    /// The write that puts a process of a step into the step's group; it may fail.
    pub fn add_step_process(&self, job_id: u64, step_id: u32, pid: u32) -> (r: Option<FileWrite>)
        ensures
            r is Some <==> self.on(),
            r is Some ==> write_view(r->0) == (
                self.step_path(job_id, step_id) + "/cgroup.procs"@,
                decimal(pid as nat),
                false,
            ),
            r is Some ==> write_view(r->0) == process_write(
                self.step_path(job_id, step_id),
                pid,
                false,
            ),
    {
        match self.create_step_cgroup(job_id, step_id) {
            Some(path) => {
                let mut file: String = path;
                file.append("/cgroup.procs");
                Some(FileWrite { path: file, contents: decimal_u32(pid), required: false })
            },
            None => None,
        }
    }

    /// What puts a job's limits in force.
    pub fn set_limits(
        &self,
        job_id: u64,
        memory_mb: u64,
        cores: u32,
        allocated_gres: &Vec<GresEntry>,
    ) -> (r: Option<LimitPlan>)
        requires
            memory_mb * 1024 * 1024 <= u64::MAX,
            cores * 100000 <= u32::MAX,
        ensures
            r is Some <==> self.on(),
            r matches Some(plan) ==> {
                &&& writes_view(plan.writes@) == limit_writes(
                    self.job_path(job_id),
                    memory_mb,
                    cores,
                )
                &&& plan.filter_path@ == self.job_path(job_id)
                &&& id_lists(plan.gpu_filters@) == gpu_grants(allocated_gres@)
            },
    {
        if !self.enabled {
            return None;
        }
        let path: String = self.get_job_path(job_id);
        let mut writes: Vec<FileWrite> = Vec::new();
        if memory_mb > 0 {
            let mut file: String = path.clone();
            file.append("/memory.max");
            writes.push(
                FileWrite {
                    path: file,
                    contents: decimal_u64(memory_mb * 1024 * 1024),
                    required: true,
                },
            );
        }
        if cores > 0 {
            let mut file: String = path.clone();
            file.append("/cpu.max");
            let mut quota: String = decimal_u32(cores * 100000);
            quota.append(" 100000");
            writes.push(FileWrite { path: file, contents: quota, required: true });
        }
        let mut file: String = path.clone();
        file.append("/pids.max");
        writes.push(FileWrite { path: file, contents: "10000".to_owned(), required: false });
        assert(writes_view(writes@) =~= limit_writes(path@, memory_mb, cores));
        let mut gpu_filters: Vec<Vec<u32>> = Vec::new();
        let mut i: usize = 0;
        assert(allocated_gres@.take(0) =~= Seq::<GresEntry>::empty());
        assert(id_lists(gpu_filters@) =~= gpu_grants(allocated_gres@.take(0)));
        while i < allocated_gres.len()
            invariant
                i <= allocated_gres@.len(),
                id_lists(gpu_filters@) == gpu_grants(allocated_gres@.take(i as int)),
            decreases allocated_gres@.len() - i,
        {
            let ghost next = allocated_gres@.take(i + 1);
            assert(next.drop_last() =~= allocated_gres@.take(i as int));
            assert(next.last() == allocated_gres@[i as int]);
            if str_eq(&allocated_gres[i].name, "gpu") {
                let ids: Vec<u32> = copy_ids(&allocated_gres[i].ids);
                let ghost before = gpu_filters@;
                gpu_filters.push(ids);
                assert(id_lists(gpu_filters@) =~= id_lists(before).push(ids@));
            }
            i = i + 1;
        }
        assert(allocated_gres@.take(allocated_gres@.len() as int) =~= allocated_gres@);
        Some(LimitPlan { writes, filter_path: path, gpu_filters })
    }

    /// The directory to remove after a job, if there is one; `exists` says whether the job
    /// has a group.
    pub fn cleanup_job_cgroup(&self, job_id: u64, exists: bool) -> (r: Option<String>)
        ensures
            r is Some <==> self.on() && exists,
            r is Some ==> r->0@ == self.job_path(job_id),
    {
        if !self.enabled || !exists {
            return None;
        }
        Some(self.get_job_path(job_id))
    }

    /// The group of a job lies in the group of all jobs and is named by the job's number; that of a
    /// step lies in the job's and is named by the step's.
    pub proof fn law_groups_are_named_by_number(&self, job_id: u64, step_id: u32)
        ensures
            ({
                let head = self.root() + "/job-"@;
                let path = self.job_path(job_id);
                let step_head = path + "/step-"@;
                let step = self.step_path(job_id, step_id);
                &&& has_prefix(path, head)
                &&& read_nat(path.skip(head.len() as int)) == Some(job_id as nat)
                &&& has_prefix(step, step_head)
                &&& read_nat(step.skip(step_head.len() as int)) == Some(step_id as nat)
            }),
    {
        let head = self.root() + "/job-"@;
        let path = self.job_path(job_id);
        let step_head = path + "/step-"@;
        let step = self.step_path(job_id, step_id);
        assert(path.subrange(0, head.len() as int) =~= head);
        assert(path.skip(head.len() as int) =~= decimal(job_id as nat));
        assert(step.subrange(0, step_head.len() as int) =~= step_head);
        assert(step.skip(step_head.len() as int) =~= decimal(step_id as nat));
        law_read_undoes_decimal(job_id as nat);
        law_read_undoes_decimal(step_id as nat);
    }

    /// Two jobs never share a group.
    pub proof fn law_job_paths_differ(&self, a: u64, b: u64)
        requires
            self.job_path(a) == self.job_path(b),
        ensures
            a == b,
    {
        let head = self.root() + "/job-"@;
        assert(self.job_path(a).skip(head.len() as int) =~= decimal(a as nat));
        assert(self.job_path(b).skip(head.len() as int) =~= decimal(b as nat));
        crate::numbers::law_decimal_is_injective(a as nat, b as nat);
    }
}

/// A copy of a list of units.
pub fn copy_ids(ids: &Vec<u32>) -> (r: Vec<u32>)
    ensures
        r@ == ids@,
{
    let mut r: Vec<u32> = Vec::new();
    let mut i: usize = 0;
    while i < ids.len()
        invariant
            i <= ids@.len(),
            r@ == ids@.take(i as int),
        decreases ids@.len() - i,
    {
        r.push(ids[i]);
        i = i + 1;
    }
    assert(ids@.take(ids@.len() as int) =~= ids@);
    r
}

/// Some write is to the file `name` of the group at `path`.
pub open spec fn limits(
    writes: Seq<(Seq<char>, Seq<char>, bool)>,
    path: Seq<char>,
    name: Seq<char>,
) -> bool {
    exists|i: int| 0 <= i < writes.len() && (#[trigger] writes[i]).0 == path + "/"@ + name
}

proof fn lemma_limit_files_differ(path: Seq<char>)
    ensures
        path + "/memory.max"@ == path + "/"@ + "memory.max"@,
        path + "/cpu.max"@ == path + "/"@ + "cpu.max"@,
        path + "/pids.max"@ == path + "/"@ + "pids.max"@,
        path + "/memory.max"@ != path + "/cpu.max"@,
        path + "/memory.max"@ != path + "/pids.max"@,
        path + "/cpu.max"@ != path + "/pids.max"@,
{
    reveal_strlit("/");
    reveal_strlit("/memory.max");
    reveal_strlit("/cpu.max");
    reveal_strlit("/pids.max");
    reveal_strlit("memory.max");
    reveal_strlit("cpu.max");
    reveal_strlit("pids.max");
    assert("/memory.max"@ =~= "/"@ + "memory.max"@);
    assert("/cpu.max"@ =~= "/"@ + "cpu.max"@);
    assert("/pids.max"@ =~= "/"@ + "pids.max"@);
    assert(path + "/memory.max"@ =~= path + "/"@ + "memory.max"@);
    assert(path + "/cpu.max"@ =~= path + "/"@ + "cpu.max"@);
    assert(path + "/pids.max"@ =~= path + "/"@ + "pids.max"@);
    let n = path.len() as int;
    assert((path + "/memory.max"@).len() == n + 11);
    assert((path + "/cpu.max"@).len() == n + 8);
    assert((path + "/pids.max"@).len() == n + 9);
}

/// A job with cores is held to them: its group may use, in each period, as many times the period
/// as the job has cores. The write is one that must not fail. A job without cores is not held.
pub proof fn law_jobs_are_held_to_their_cores(path: Seq<char>, memory_mb: u64, cores: u32)
    ensures
        ({
            let writes = limit_writes(path, memory_mb, cores);
            &&& limits(writes, path, "cpu.max"@) <==> cores >= 1
            &&& forall|i: int|
                0 <= i < writes.len() && (#[trigger] writes[i]).0 == path + "/"@ + "cpu.max"@ ==> {
                    let parts = split_on(writes[i].1, ' ');
                    &&& writes[i].2
                    &&& parts.len() == 2
                    &&& read_nat(parts[1]) == Some(100000nat)
                    &&& read_nat(parts[0]) == Some((cores * 100000) as nat)
                }
        }),
{
    reveal_strlit(" 100000");
    let writes = limit_writes(path, memory_mb, cores);
    lemma_limit_files_differ(path);
    let quota = decimal((cores * 100000) as nat);
    let period = decimal(100000);
    lemma_decimal_digits((cores * 100000) as nat);
    lemma_decimal_digits(100000);
    law_read_undoes_decimal((cores * 100000) as nat);
    law_read_undoes_decimal(100000);
    assert(!quota.contains(' ')) by {
        if quota.contains(' ') {
            let i = choose|i: int| 0 <= i < quota.len() && quota[i] == ' ';
            assert(is_digit(quota[i]));
        }
    }
    let hundred_thousand = " 100000"@.skip(1);
    assert(!hundred_thousand.contains(' '));
    assert(quota + " 100000"@ =~= quota.push(' ') + hundred_thousand);
    law_split_of_one_piece(quota, ' ');
    law_split_at_the_end(quota, ' ', hundred_thousand);
    assert(read_nat(hundred_thousand) == Some(100000nat)) by {
        lemma_hundred_thousand(hundred_thousand);
    }
    if cores >= 1 {
        let at = if memory_mb > 0 {
            1int
        } else {
            0int
        };
        assert(writes[at].0 == path + "/cpu.max"@);
    }
}

proof fn lemma_hundred_thousand(s: Seq<char>)
    requires
        s.len() == 6,
        s[0] == '1',
        forall|i: int| 1 <= i < 6 ==> #[trigger] s[i] == '0',
    ensures
        read_nat(s) == Some(100000nat),
{
    let a = s.drop_last();
    let b = a.drop_last();
    let c = b.drop_last();
    let d = c.drop_last();
    let e = d.drop_last();
    assert(e.drop_last() =~= Seq::<char>::empty());
    assert(crate::numbers::digits_value(e.drop_last()) == 0);
    assert(crate::numbers::digits_value(e) == 1);
    assert(crate::numbers::digits_value(d) == 10);
    assert(crate::numbers::digits_value(c) == 100);
    assert(crate::numbers::digits_value(b) == 1000);
    assert(crate::numbers::digits_value(a) == 10000);
    assert(crate::numbers::digits_value(s) == 100000);
    assert forall|i: int| 0 <= i < s.len() implies is_digit(#[trigger] s[i]) by {
        if i > 0 {
            assert(s[i] == '0');
        }
    }
}

/// A job that asked for memory is held to it: the limit, in bytes, is what it asked for in
/// megabytes. The write is one that must not fail. A job that asked for none is not held.
pub proof fn law_jobs_are_held_to_their_memory(path: Seq<char>, memory_mb: u64, cores: u32)
    ensures
        ({
            let writes = limit_writes(path, memory_mb, cores);
            &&& limits(writes, path, "memory.max"@) <==> memory_mb >= 1
            &&& forall|i: int|
                0 <= i < writes.len() && (#[trigger] writes[i]).0 == path + "/"@ + "memory.max"@
                    ==> writes[i].2 && read_nat(writes[i].1) == Some(
                    (memory_mb * 1048576) as nat,
                )
        }),
{
    let writes = limit_writes(path, memory_mb, cores);
    lemma_limit_files_differ(path);
    law_read_undoes_decimal((memory_mb * 1024 * 1024) as nat);
    assert(memory_mb * 1024 * 1024 == memory_mb * 1048576);
    if memory_mb > 0 {
        assert(writes[0].0 == path + "/memory.max"@);
    }
}

/// Every job is held to a number of processes, as far as that can be; and no other file of a group
/// is written, none twice.
pub proof fn law_limits_are_written_once(path: Seq<char>, memory_mb: u64, cores: u32)
    ensures
        ({
            let writes = limit_writes(path, memory_mb, cores);
            &&& limits(writes, path, "pids.max"@)
            &&& forall|i: int|
                0 <= i < writes.len() && (#[trigger] writes[i]).0 == path + "/"@ + "pids.max"@
                    ==> !writes[i].2 && writes[i].1 == "10000"@
            &&& forall|i: int|
                0 <= i < writes.len() ==> (#[trigger] writes[i]).0 == path + "/"@ + "memory.max"@
                    || writes[i].0 == path + "/"@ + "cpu.max"@ || writes[i].0 == path + "/"@
                    + "pids.max"@
            &&& forall|i: int, j: int|
                0 <= i < j < writes.len() ==> (#[trigger] writes[i]).0 != (#[trigger] writes[j]).0
        }),
{
    let writes = limit_writes(path, memory_mb, cores);
    lemma_limit_files_differ(path);
    assert(writes.last().0 == path + "/pids.max"@);
    assert(writes[writes.len() - 1].0 == path + "/"@ + "pids.max"@);
}

/// The device filters of a job are those for the units of its entries named `gpu`, entry by entry;
/// other entries give none.
pub proof fn law_filters_are_for_the_granted_gpus(before: Seq<GresEntry>, entry: GresEntry)
    ensures
        gpu_grants(Seq::<GresEntry>::empty()).len() == 0,
        entry.name@ == "gpu"@ ==> gpu_grants(before.push(entry)) == gpu_grants(before).push(
            entry.ids@,
        ),
        entry.name@ != "gpu"@ ==> gpu_grants(before.push(entry)) == gpu_grants(before),
{
    assert(before.push(entry).drop_last() =~= before);
}

/// A process is put into a group by writing its number, and nothing else, to the group's list.
pub proof fn law_processes_are_listed_by_number(path: Seq<char>, pid: u32, required: bool)
    ensures
        has_prefix(process_write(path, pid, required).0, path),
        has_suffix(process_write(path, pid, required).0, "/cgroup.procs"@),
        process_write(path, pid, required).0.len() == path.len() + 13,
        read_nat(process_write(path, pid, required).1) == Some(pid as nat),
        process_write(path, pid, required).2 == required,
{
    reveal_strlit("/cgroup.procs");
    lemma_ends_with(path, "/cgroup.procs"@);
    let file = path + "/cgroup.procs"@;
    assert(file.subrange(0, path.len() as int) =~= path);
    law_read_undoes_decimal(pid as nat);
}

/// The controllers that are handed down afterwards are those that jobs are held by: each one that
/// the list lacks is added, and none that it has.
pub proof fn law_missing_controllers_are_added(current: Seq<char>)
    ensures
        missing_controllers(current).contains("+cpu"@) <==> !has_text(current, "cpu"@),
        missing_controllers(current).contains("+memory"@) <==> !has_text(current, "memory"@),
        missing_controllers(current).contains("+pids"@) <==> !has_text(current, "pids"@),
        forall|i: int|
            0 <= i < missing_controllers(current).len() ==> (#[trigger] missing_controllers(
                current,
            )[i] == "+cpu"@ || missing_controllers(current)[i] == "+memory"@
                || missing_controllers(current)[i] == "+pids"@),
{
    reveal_strlit("+cpu");
    reveal_strlit("+memory");
    reveal_strlit("+pids");
    assert("+cpu"@.len() == 4 && "+memory"@.len() == 7 && "+pids"@.len() == 5);
    let all = missing_controllers(current);
    let cpu = if has_text(current, "cpu"@) {
        0int
    } else {
        1int
    };
    let memory = if has_text(current, "memory"@) {
        0int
    } else {
        1int
    };
    if cpu == 1 {
        assert(all[0] == "+cpu"@);
    }
    if memory == 1 {
        assert(all[cpu] == "+memory"@);
    }
    if !has_text(current, "pids"@) {
        assert(all[cpu + memory] == "+pids"@);
    }
}

/// The removal of a group is tried five times at most, and each time that it fails a tenth of a
/// second goes by; a group that is gone is left alone.
pub proof fn law_removal_is_tried_five_times(removed: bool, attempts: u32)
    requires
        attempts < 5,
    ensures
        removed <==> cleanup_after(removed, attempts) is Removed,
        cleanup_after(false, attempts) is GiveUp <==> attempts == 4,
        cleanup_after(false, attempts) matches CleanupStep::Retry { attempts: n, wait_ms } ==> n
            == attempts + 1 && wait_ms == 100,
        cleanup_after(false, attempts) matches CleanupStep::GiveUp { wait_ms } ==> wait_ms == 100,
{
}

/// A write is read as it stands: where, what, and whether it has to succeed.
pub proof fn law_writes_are_read_as_they_stand(w: FileWrite, all: Seq<FileWrite>, i: int)
    ensures
        write_view(w).0 == w.path@ && write_view(w).1 == w.contents@ && write_view(w).2
            == w.required,
        writes_view(all).len() == all.len(),
        0 <= i < all.len() ==> writes_view(all)[i] == write_view(all[i]),
{
}

} // verus!
