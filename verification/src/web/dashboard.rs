//! The dashboard: what the cluster has and uses, and how its cores are spread.

use vstd::prelude::*;

use crate::model::JobStatus;
use crate::numbers::decimal;
use crate::numbers::decimal_usize;
use crate::text::str_eq;
use crate::web::info::JobInfo;
use crate::web::info::WorkerInfo;
use crate::web::topology::busy;
use crate::web::topology::busy_cores;
use crate::web::topology::busy_cores_of;
use crate::web::topology::cores;
use crate::web::topology::lemma_busy_at_most_cores;
use crate::web::topology::lemma_sum_push;
use crate::web::topology::lemma_sum_take;
use crate::web::topology::sum_over;
use crate::web::topology::visual_state;
use crate::web::topology::worker_visual_state;
use crate::web::topology::WorkerVisualState;

verus! {

/// No worker has more cores available than it has.
pub open spec fn all_sound(ws: Seq<WorkerInfo>) -> bool {
    forall|i: int| 0 <= i < ws.len() ==> (#[trigger] ws[i]).available_cores <= ws[i].total_cores
}

/// Whether no worker has more cores available than it has.
pub fn are_sound(workers: &Vec<WorkerInfo>) -> (r: bool)
    ensures
        r == all_sound(workers@),
{
    let mut i: usize = 0;
    while i < workers.len()
        invariant
            i <= workers@.len(),
            forall|k: int|
                0 <= k < i ==> (#[trigger] workers@[k]).available_cores <= workers@[k].total_cores,
        decreases workers@.len() - i,
    {
        if workers[i].available_cores > workers[i].total_cores {
            return false;
        }
        i = i + 1;
    }
    true
}

/// The sum of an amount over the workers, if it can be counted.
fn checked_total<F: Fn(&WorkerInfo) -> u64>(
    workers: &Vec<WorkerInfo>,
    f: F,
    Ghost(amount): Ghost<spec_fn(WorkerInfo) -> nat>,
) -> (r: Option<u64>)
    requires
        forall|w: &WorkerInfo| call_requires(f, (w,)),
        forall|w: &WorkerInfo, q: u64| #[trigger]
            call_ensures(f, (w,), q) ==> q as nat == amount(*w),
    ensures
        r == counted(sum_over(workers@, amount)),
{
    let mut total: u64 = 0;
    let mut i: usize = 0;
    assert(workers@.take(0) =~= Seq::<WorkerInfo>::empty());
    while i < workers.len()
        invariant
            forall|w: &WorkerInfo| call_requires(f, (w,)),
            forall|w: &WorkerInfo, q: u64| #[trigger]
                call_ensures(f, (w,), q) ==> q as nat == amount(*w),
            i <= workers@.len(),
            total == sum_over(workers@.take(i as int), amount),
        decreases workers@.len() - i,
    {
        proof {
            assert(workers@.take(i + 1) =~= workers@.take(i as int).push(workers@[i as int]));
            lemma_sum_push(workers@.take(i as int), workers@[i as int], amount);
            lemma_sum_take(workers@, i + 1, amount);
        }
        let more: u64 = f(&workers[i]);
        match total.checked_add(more) {
            Some(sum) => {
                total = sum;
            },
            None => {
                return None;
            },
        }
        i = i + 1;
    }
    assert(workers@.take(workers@.len() as int) =~= workers@);
    Some(total)
}

/// A sum as far as it can be counted.
pub open spec fn counted(sum: nat) -> Option<u64> {
    if sum <= u64::MAX {
        Some(sum as u64)
    } else {
        None
    }
}

/// The cores of all workers.
pub fn total_cores(workers: &Vec<WorkerInfo>) -> (r: Option<u64>)
    ensures
        r == counted(sum_over(workers@, cores())),
{
    let of_one = |w: &WorkerInfo| -> (q: u64)
        ensures
            (q as nat == cores()(*w)),
        { w.total_cores as u64 };
    checked_total(workers, of_one, Ghost(cores()))
}

/// The cores of all workers that are in use.
pub fn used_cores(workers: &Vec<WorkerInfo>) -> (r: Option<u64>)
    requires
        all_sound(workers@),
    ensures
        r == counted(sum_over(workers@, busy())),
{
    let of_one = |w: &WorkerInfo| -> (q: u64)
        ensures
            (q as nat == busy()(*w)),
        { busy_cores_of(w) as u64 };
    checked_total(workers, of_one, Ghost(busy()))
}

/// The memory given to jobs, in megabytes.
pub open spec fn allocated() -> spec_fn(WorkerInfo) -> nat {
    |w: WorkerInfo| w.allocated_memory as nat
}

/// The memory of a worker, in whole megabytes.
pub open spec fn memory_mb() -> spec_fn(WorkerInfo) -> nat {
    |w: WorkerInfo| w.total_memory as nat / 1024 / 1024
}

/// The memory of a worker that is in use, in whole megabytes.
pub open spec fn used_mb() -> spec_fn(WorkerInfo) -> nat {
    |w: WorkerInfo| w.used_memory as nat / 1024 / 1024
}

pub fn alloc_mem(workers: &Vec<WorkerInfo>) -> (r: Option<u64>)
    ensures
        r == counted(sum_over(workers@, allocated())),
{
    let of_one = |w: &WorkerInfo| -> (q: u64)
        ensures
            (q as nat == allocated()(*w)),
        { w.allocated_memory };
    checked_total(workers, of_one, Ghost(allocated()))
}

pub fn total_mem(workers: &Vec<WorkerInfo>) -> (r: Option<u64>)
    ensures
        r == counted(sum_over(workers@, memory_mb())),
{
    let of_one = |w: &WorkerInfo| -> (q: u64)
        ensures
            (q as nat == memory_mb()(*w)),
        { w.total_memory / 1024 / 1024 };
    checked_total(workers, of_one, Ghost(memory_mb()))
}

pub fn used_mem(workers: &Vec<WorkerInfo>) -> (r: Option<u64>)
    ensures
        r == counted(sum_over(workers@, used_mb())),
{
    let of_one = |w: &WorkerInfo| -> (q: u64)
        ensures
            (q as nat == used_mb()(*w)),
        { w.used_memory / 1024 / 1024 };
    checked_total(workers, of_one, Ghost(used_mb()))
}

/// The bytes a second that the cluster receives and sends.
pub fn net_throughput(workers: &Vec<WorkerInfo>) -> (r: (Option<u64>, Option<u64>))
    ensures
        r.0 == counted(sum_over(workers@, |w: WorkerInfo| w.net_rx_rate as nat)),
        r.1 == counted(sum_over(workers@, |w: WorkerInfo| w.net_tx_rate as nat)),
{
    let rx = |w: &WorkerInfo| -> (q: u64)
        ensures
            (q == w.net_rx_rate),
        { w.net_rx_rate };
    let tx = |w: &WorkerInfo| -> (q: u64)
        ensures
            (q == w.net_tx_rate),
        { w.net_tx_rate };
    (
        checked_total(workers, rx, Ghost(|w: WorkerInfo| w.net_rx_rate as nat)),
        checked_total(workers, tx, Ghost(|w: WorkerInfo| w.net_tx_rate as nat)),
    )
}

/// The bytes a second that the cluster reads from its disks and writes to them.
pub fn disk_throughput(workers: &Vec<WorkerInfo>) -> (r: (Option<u64>, Option<u64>))
    ensures
        r.0 == counted(sum_over(workers@, |w: WorkerInfo| w.disk_read_rate as nat)),
        r.1 == counted(sum_over(workers@, |w: WorkerInfo| w.disk_write_rate as nat)),
{
    let read = |w: &WorkerInfo| -> (q: u64)
        ensures
            (q == w.disk_read_rate),
        { w.disk_read_rate };
    let written = |w: &WorkerInfo| -> (q: u64)
        ensures
            (q == w.disk_write_rate),
        { w.disk_write_rate };
    (
        checked_total(workers, read, Ghost(|w: WorkerInfo| w.disk_read_rate as nat)),
        checked_total(workers, written, Ghost(|w: WorkerInfo| w.disk_write_rate as nat)),
    )
}

/// The space on the disks of the cluster, and how much of it is free.
pub fn disk_space(workers: &Vec<WorkerInfo>) -> (r: (Option<u64>, Option<u64>))
    ensures
        r.0 == counted(sum_over(workers@, |w: WorkerInfo| w.disk_total as nat)),
        r.1 == counted(sum_over(workers@, |w: WorkerInfo| w.disk_free as nat)),
{
    let total = |w: &WorkerInfo| -> (q: u64)
        ensures
            (q == w.disk_total),
        { w.disk_total };
    let free = |w: &WorkerInfo| -> (q: u64)
        ensures
            (q == w.disk_free),
        { w.disk_free };
    (
        checked_total(workers, total, Ghost(|w: WorkerInfo| w.disk_total as nat)),
        checked_total(workers, free, Ghost(|w: WorkerInfo| w.disk_free as nat)),
    )
}

/// The processes on all workers.
pub fn process_count(workers: &Vec<WorkerInfo>) -> (r: Option<u64>)
    ensures
        r == counted(sum_over(workers@, |w: WorkerInfo| w.process_count as nat)),
{
    let of_one = |w: &WorkerInfo| -> (q: u64)
        ensures
            (q == w.process_count),
        { w.process_count as u64 };
    checked_total(workers, of_one, Ghost(|w: WorkerInfo| w.process_count as nat))
}

/// How many jobs there are of a kind of status.
pub struct JobCounts {
    pub total: usize,
    pub running: usize,
    pub pending: usize,
    pub failed: usize,
}

pub open spec fn is_running(j: JobInfo) -> bool {
    j.status is Running
}

pub open spec fn is_pending(j: JobInfo) -> bool {
    j.status is Pending
}

pub open spec fn is_failed(j: JobInfo) -> bool {
    j.status is Failed
}

pub fn count_jobs(jobs: &Vec<JobInfo>) -> (r: JobCounts)
    ensures
        r.total == jobs@.len(),
        r.running == jobs@.filter(|j: JobInfo| is_running(j)).len(),
        r.pending == jobs@.filter(|j: JobInfo| is_pending(j)).len(),
        r.failed == jobs@.filter(|j: JobInfo| is_failed(j)).len(),
{
    let mut running: usize = 0;
    let mut pending: usize = 0;
    let mut failed: usize = 0;
    let mut i: usize = 0;
    let n: usize = jobs.len();
    proof {
        reveal(Seq::filter);
        assert(jobs@.take(0) =~= Seq::<JobInfo>::empty());
    }
    while i < n
        invariant
            i <= n,
            n == jobs@.len(),
            running <= i,
            pending <= i,
            failed <= i,
            running == jobs@.take(i as int).filter(|j: JobInfo| is_running(j)).len(),
            pending == jobs@.take(i as int).filter(|j: JobInfo| is_pending(j)).len(),
            failed == jobs@.take(i as int).filter(|j: JobInfo| is_failed(j)).len(),
        decreases n - i,
    {
        proof {
            reveal(Seq::filter);
            assert(jobs@.take(i + 1).drop_last() =~= jobs@.take(i as int));
            assert(jobs@.take(i + 1).last() == jobs@[i as int]);
        }
        match &jobs[i].status {
            JobStatus::Running => {
                running = running + 1;
            },
            JobStatus::Pending => {
                pending = pending + 1;
            },
            JobStatus::Failed(_) => {
                failed = failed + 1;
            },
            _ => {},
        }
        i = i + 1;
    }
    assert(jobs@.take(n as int) =~= jobs@);
    JobCounts { total: n, running, pending, failed }
}

/// How many workers are online.
pub fn online_count(workers: &Vec<WorkerInfo>) -> (r: usize)
    ensures
        r == workers@.filter(|w: WorkerInfo| w.online).len(),
{
    let mut online: usize = 0;
    let mut i: usize = 0;
    let n: usize = workers.len();
    proof {
        reveal(Seq::filter);
        assert(workers@.take(0) =~= Seq::<WorkerInfo>::empty());
    }
    while i < n
        invariant
            i <= n,
            n == workers@.len(),
            online <= i,
            online == workers@.take(i as int).filter(|w: WorkerInfo| w.online).len(),
        decreases n - i,
    {
        proof {
            reveal(Seq::filter);
            assert(workers@.take(i + 1).drop_last() =~= workers@.take(i as int));
            assert(workers@.take(i + 1).last() == workers@[i as int]);
        }
        if workers[i].online {
            online = online + 1;
        }
        i = i + 1;
    }
    assert(workers@.take(n as int) =~= workers@);
    online
}

/// `n` squares of one state.
pub open spec fn squares(state: WorkerVisualState, n: nat) -> Seq<WorkerVisualState> {
    Seq::new(n, |i: int| state)
}

/// The squares of the cores of a worker: those in use, then those that are free.
pub open spec fn core_squares(w: WorkerInfo) -> Seq<WorkerVisualState> {
    if !w.online {
        squares(WorkerVisualState::Offline, w.total_cores as nat)
    } else {
        squares(WorkerVisualState::Busy, busy_cores(w)) + squares(
            WorkerVisualState::Free,
            w.available_cores as nat,
        )
    }
}

/// The squares of the cores of all workers, worker by worker.
pub open spec fn all_core_squares(ws: Seq<WorkerInfo>) -> Seq<WorkerVisualState>
    decreases ws.len(),
{
    if ws.len() == 0 {
        Seq::empty()
    } else {
        all_core_squares(ws.drop_last()) + core_squares(ws.last())
    }
}

/// A large cluster, of more than a thousand cores, is drawn with one square for each worker; a
/// small one with one for each core.
pub open spec fn drawn_by_worker(ws: Seq<WorkerInfo>) -> bool {
    sum_over(ws, cores()) > 1000
}

/// The squares of the compute grid.
pub open spec fn grid_squares(ws: Seq<WorkerInfo>) -> Seq<WorkerVisualState> {
    if drawn_by_worker(ws) {
        Seq::new(ws.len(), |i: int| visual_state(ws[i]))
    } else {
        all_core_squares(ws)
    }
}

/// The line above the compute grid.
pub open spec fn grid_header(ws: Seq<WorkerInfo>) -> Seq<char> {
    if drawn_by_worker(ws) {
        decimal(ws.filter(|w: WorkerInfo| w.online).len()) + " / "@ + decimal(ws.len())
            + " Nodes Active"@
    } else {
        decimal(sum_over(ws, busy())) + " / "@ + decimal(sum_over(ws, cores())) + " Cores Active"@
    }
}

fn add_squares(r: &mut Vec<WorkerVisualState>, state: WorkerVisualState, n: usize)
    ensures
        final(r)@ == old(r)@ + squares(state, n as nat),
{
    let ghost start = r@;
    let mut i: usize = 0;
    assert(start + squares(state, 0) =~= start);
    while i < n
        invariant
            i <= n,
            r@ == start + squares(state, i as nat),
        decreases n - i,
    {
        r.push(state);
        i = i + 1;
        assert(r@ =~= start + squares(state, i as nat));
    }
}

pub struct CoreGrid {
    pub header: String,
    pub by_worker: bool,
    pub squares: Vec<WorkerVisualState>,
}

/// The compute grid, if the cores can be counted.
pub fn core_grid(workers: &Vec<WorkerInfo>) -> (r: Option<CoreGrid>)
    requires
        all_sound(workers@),
    ensures
        r is Some <==> sum_over(workers@, cores()) <= u64::MAX,
        r matches Some(grid) ==> grid.header@ == grid_header(workers@) && grid.by_worker
            == drawn_by_worker(workers@) && grid.squares@ == grid_squares(workers@),
{
    let total: u64 = match total_cores(workers) {
        Some(total) => total,
        None => {
            return None;
        },
    };
    proof {
        lemma_busy_at_most_cores(workers@);
    }
    let used: u64 = match used_cores(workers) {
        Some(used) => used,
        None => 0,
    };
    let mut all: Vec<WorkerVisualState> = Vec::new();
    let n: usize = workers.len();
    let mut i: usize = 0;
    if total > 1000 {
        while i < n
            invariant
                i <= n,
                n == workers@.len(),
                all@ == Seq::new(i as nat, |k: int| visual_state(workers@[k])),
            decreases n - i,
        {
            all.push(worker_visual_state(&workers[i]));
            i = i + 1;
            assert(all@ =~= Seq::new(i as nat, |k: int| visual_state(workers@[k])));
        }
        let mut header: String = decimal_usize(online_count(workers));
        header.append(" / ");
        header.append(&decimal_usize(n));
        header.append(" Nodes Active");
        Some(CoreGrid { header, by_worker: true, squares: all })
    } else {
        assert(workers@.take(0) =~= Seq::<WorkerInfo>::empty());
        while i < n
            invariant
                i <= n,
                n == workers@.len(),
                all_sound(workers@),
                all@ == all_core_squares(workers@.take(i as int)),
            decreases n - i,
        {
            proof {
                assert(workers@.take(i + 1).drop_last() =~= workers@.take(i as int));
                assert(workers@.take(i + 1).last() == workers@[i as int]);
            }
            let w: &WorkerInfo = &workers[i];
            let ghost start = all@;
            if !w.online {
                add_squares(&mut all, WorkerVisualState::Offline, w.total_cores);
            } else {
                add_squares(&mut all, WorkerVisualState::Busy, busy_cores_of(w));
                add_squares(&mut all, WorkerVisualState::Free, w.available_cores);
            }
            assert(all@ =~= start + core_squares(*w));
            i = i + 1;
        }
        assert(workers@.take(n as int) =~= workers@);
        let mut header: String = crate::numbers::decimal_u64(used);
        header.append(" / ");
        header.append(&crate::numbers::decimal_u64(total));
        header.append(" Cores Active");
        Some(CoreGrid { header, by_worker: false, squares: all })
    }
}

/// The compute grid has one square for each core of a small cluster, and one for each worker of
/// a large one.
pub proof fn law_grid_shows_everything(ws: Seq<WorkerInfo>)
    requires
        all_sound(ws),
    ensures
        drawn_by_worker(ws) ==> grid_squares(ws).len() == ws.len(),
        !drawn_by_worker(ws) ==> grid_squares(ws).len() == sum_over(ws, cores()),
{
    lemma_core_squares(ws);
}

proof fn lemma_core_squares(ws: Seq<WorkerInfo>)
    requires
        all_sound(ws),
    ensures
        all_core_squares(ws).len() == sum_over(ws, cores()),
    decreases ws.len(),
{
    if ws.len() > 0 {
        let rest = ws.drop_last();
        assert forall|i: int| 0 <= i < rest.len() implies (#[trigger] rest[i]).available_cores
            <= rest[i].total_cores by {
            assert(rest[i] == ws[i]);
        }
        lemma_core_squares(rest);
        assert(ws[ws.len() - 1].available_cores <= ws[ws.len() - 1].total_cores);
    }
}

/// Where a restart is asked for: of one controller, of whichever answers, or of the file server.
/// `target` is the host name of the controller, as it may stand in a URL.
pub open spec fn restart_path(component: Seq<char>, target: Option<Seq<char>>) -> Option<Seq<char>> {
    if component == "controller"@ {
        match target {
            Some(target) => Some("/api/v1/system/restart?target="@ + target),
            None => Some("/api/v1/system/restart"@),
        }
    } else if component == "fileserver"@ {
        Some("/api/v1/fileserver/restart"@)
    } else {
        None
    }
}

pub fn restart_url(component: &str, target: &Option<String>) -> (r: Option<String>)
    ensures
        match restart_path(
            component@,
            match *target {
                Some(t) => Some(t@),
                None => None,
            },
        ) {
            Some(path) => r is Some && r->0@ == path,
            None => r is None,
        },
{
    if str_eq(component, "controller") {
        match target {
            Some(target) => {
                let mut r: String = "/api/v1/system/restart?target=".to_string();
                r.append(target);
                Some(r)
            },
            None => Some("/api/v1/system/restart".to_string()),
        }
    } else if str_eq(component, "fileserver") {
        Some("/api/v1/fileserver/restart".to_string())
    } else {
        None
    }
}

/// What a worker has and uses of memory is counted in whole megabytes, each from its own
/// measurement; what it has given to jobs is counted as it is told.
pub proof fn law_memory_is_counted_in_megabytes(w: WorkerInfo, mb: u64, rest: u64)
    requires
        rest < 1048576,
    ensures
        w.total_memory == mb * 1048576 + rest ==> memory_mb()(w) == mb,
        w.used_memory == mb * 1048576 + rest ==> used_mb()(w) == mb,
        w.allocated_memory == mb ==> allocated()(w) == mb,
{
}

/// A sum over the workers counts each of them: one worker more adds its share.
pub proof fn law_sums_count_every_worker(
    ws: Seq<WorkerInfo>,
    w: WorkerInfo,
    amount: spec_fn(WorkerInfo) -> nat,
)
    ensures
        sum_over(Seq::<WorkerInfo>::empty(), amount) == 0,
        sum_over(ws.push(w), amount) == sum_over(ws, amount) + amount(w),
        counted(sum_over(ws, amount)) is Some <==> sum_over(ws, amount) <= u64::MAX,
        counted(sum_over(ws, amount)) is Some ==> counted(sum_over(ws, amount))->0 == sum_over(
            ws,
            amount,
        ),
{
    lemma_sum_push(ws, w, amount);
}

/// A job counts as running, as waiting or as failed exactly if its status says so.
pub proof fn law_jobs_count_by_their_status(j: JobInfo)
    ensures
        is_running(j) <==> j.status is Running,
        is_pending(j) <==> j.status is Pending,
        is_failed(j) <==> j.status is Failed,
{
}

/// A cluster of at most a thousand cores is drawn core by core, a larger one worker by worker.
pub proof fn law_large_clusters_are_drawn_by_worker(ws: Seq<WorkerInfo>, i: int)
    ensures
        sum_over(ws, cores()) <= 1000 ==> grid_squares(ws) == all_core_squares(ws),
        sum_over(ws, cores()) >= 1001 && 0 <= i < ws.len() ==> grid_squares(ws).len() == ws.len()
            && grid_squares(ws)[i] == visual_state(ws[i]),
{
}

/// A worker that is offline has all its cores drawn as offline. One that is online has as many drawn
/// as busy as are in use, and as many as free as are not.
pub proof fn law_cores_are_drawn_as_they_are(w: WorkerInfo, i: int)
    requires
        w.available_cores <= w.total_cores,
        0 <= i < w.total_cores,
    ensures
        core_squares(w).len() == w.total_cores,
        !w.online ==> core_squares(w)[i] == WorkerVisualState::Offline,
        w.online && i < w.total_cores - w.available_cores ==> core_squares(w)[i]
            == WorkerVisualState::Busy,
        w.online && i >= w.total_cores - w.available_cores ==> core_squares(w)[i]
            == WorkerVisualState::Free,
{
}

/// The cores of the workers are drawn one worker after the other.
pub proof fn law_workers_are_drawn_in_order(ws: Seq<WorkerInfo>, w: WorkerInfo)
    ensures
        all_core_squares(ws.push(w)) == all_core_squares(ws) + core_squares(w),
{
    assert(ws.push(w).drop_last() =~= ws);
}

/// A restart of a controller goes to the one that is named, and to whichever answers where none is;
/// that of the file server goes to the file server. Nothing else is restarted.
pub proof fn law_restarts_go_where_they_are_meant(component: Seq<char>, target: Seq<char>)
    ensures
        restart_path("controller"@, Some(target)) == Some("/api/v1/system/restart?target="@ + target),
        restart_path("controller"@, None) == Some("/api/v1/system/restart"@),
        restart_path("fileserver"@, Some(target)) == Some("/api/v1/fileserver/restart"@),
        restart_path("fileserver"@, None) == Some("/api/v1/fileserver/restart"@),
        component != "controller"@ && component != "fileserver"@ ==> restart_path(
            component,
            Some(target),
        ) is None && restart_path(component, None) is None,
{
    reveal_strlit("controller");
    reveal_strlit("fileserver");
    assert("controller"@.len() == 10);
    assert("fileserver"@.len() == 10);
    assert("controller"@[0] != "fileserver"@[0]);
}

/// The line above the grid counts what is drawn: the workers that are online, or the cores that are
/// in use, of all there are.
pub proof fn law_the_grid_is_counted(ws: Seq<WorkerInfo>)
    ensures
        sum_over(ws, cores()) >= 1001 ==> grid_header(ws) == decimal(
            ws.filter(|w: WorkerInfo| w.online).len(),
        ) + " / "@ + decimal(ws.len()) + " Nodes Active"@,
        sum_over(ws, cores()) <= 1000 ==> grid_header(ws) == decimal(sum_over(ws, busy())) + " / "@
            + decimal(sum_over(ws, cores())) + " Cores Active"@,
{
}

} // verus!
