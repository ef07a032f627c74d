//! The page of cluster telemetry: the grid of cores, the running jobs, and the lines of text
//! around them.

use vstd::prelude::*;

use crate::model::JobStatus;
use crate::numbers::decimal;
use crate::numbers::decimal_u32;
use crate::numbers::decimal_u64;
use crate::numbers::decimal_usize;
use crate::order::stable_sort;
use crate::order::stably_sorted;
use crate::order::total_order;
use crate::pieces::join;
use crate::pieces::joined;
use crate::text::lemma_texts_push;
use crate::text::str_eq;
use crate::text::texts;
use crate::text::trim;
use crate::text::trimmed;
use crate::text::uppercase;
use crate::text::uppercased;
use crate::web::dashboard::all_sound;
use crate::web::dashboard::counted;
use crate::web::dashboard::is_running;
use crate::web::format::format_memory;
use crate::web::format::format_uptime;
use crate::web::format::memory_text;
use crate::web::format::uptime_text;
use crate::web::info::ControllerInfo;
use crate::web::info::JobInfo;
use crate::web::info::WorkerInfo;
use crate::web::listing::keep;
use crate::web::topology::busy_cores;
use crate::web::topology::busy_cores_of;
use crate::web::topology::cores;
use crate::web::topology::lemma_sum_push;
use crate::web::topology::lemma_sum_take;
use crate::web::topology::sum_over;
use crate::web::topology::visual_state;
use crate::web::topology::worker_visual_state;
use crate::web::topology::WorkerVisualState;

verus! {

/// When a job started, or was queued if that is not known.
pub open spec fn since(job: JobInfo) -> u64 {
    match job.start_time {
        Some(start) => start,
        None => job.queued_time,
    }
}

fn since_of(job: &JobInfo) -> (r: u64)
    ensures
        r == since(*job),
{
    match job.start_time {
        Some(start) => start,
        None => job.queued_time,
    }
}

/// The order of running jobs: the latest first, and of two that are equally late the one with the
/// higher number.
pub open spec fn latest_first() -> spec_fn(JobInfo, JobInfo) -> bool {
    |a: JobInfo, b: JobInfo| since(b) < since(a) || (since(b) == since(a) && b.id <= a.id)
}

/// The jobs that run, the latest first.
pub fn running_job_list(jobs: Vec<JobInfo>) -> (r: Vec<JobInfo>)
    ensures
        stably_sorted(r@, jobs@.filter(|job: JobInfo| is_running(job)), latest_first()),
{
    let runs = |job: &JobInfo| -> (q: bool)
        ensures
            (q == is_running(*job)),
        {
            match job.status {
                JobStatus::Running => true,
                _ => false,
            }
        };
    let kept: Vec<JobInfo> = keep(jobs, runs, Ghost(|job: JobInfo| is_running(job)));
    let at_most = |a: &JobInfo, b: &JobInfo| -> (q: bool)
        ensures
            (q == latest_first()(*a, *b)),
        { since_of(b) < since_of(a) || (since_of(b) == since_of(a) && b.id <= a.id) };
    assert(total_order(latest_first()));
    stable_sort(kept, at_most, Ghost(latest_first()))
}

/// What a running job is called: its name, or its program if it has none to show.
pub open spec fn shown_name(job: JobInfo) -> Seq<char> {
    if job.job_name is Some && trimmed(job.job_name->0@).len() > 0 {
        job.job_name->0@
    } else {
        job.binary@
    }
}

/// The workers that a job runs on.
pub open spec fn shown_workers(job: JobInfo) -> Seq<char> {
    if job.assigned_workers@.len() == 0 {
        "workers pending"@
    } else {
        joined(texts(job.assigned_workers@), ", "@)
    }
}

/// A line of the list of running jobs.
pub struct RunningRow {
    pub title: String,
    pub workers: String,
    pub tooltip: String,
    pub resources: String,
}

pub fn running_row(job: &JobInfo) -> (r: RunningRow)
    ensures
        r.title@ == "#"@ + decimal(job.id as nat) + " "@ + shown_name(*job),
        r.workers@ == shown_workers(*job),
        r.tooltip@ == "Workers: "@ + shown_workers(*job),
        r.resources@ == decimal(job.req_nodes as nat) + "n x "@ + decimal(job.req_cores as nat)
            + "c"@,
{
    let name: String = match &job.job_name {
        Some(name) => if trim(name).as_str().is_empty() {
            job.binary.clone()
        } else {
            name.clone()
        },
        None => job.binary.clone(),
    };
    let workers: String = if job.assigned_workers.len() == 0 {
        "workers pending".to_string()
    } else {
        join(&job.assigned_workers, ", ")
    };
    let mut title: String = "#".to_string();
    title.append(&decimal_u64(job.id));
    title.append(" ");
    title.append(&name);
    let mut tooltip: String = "Workers: ".to_string();
    tooltip.append(&workers);
    let mut resources: String = decimal_usize(job.req_nodes);
    resources.append("n x ");
    resources.append(&decimal_u32(job.req_cores));
    resources.append("c");
    RunningRow { title, workers, tooltip, resources }
}

/// A cell of the grid, with what is said of it.
pub struct GridCell {
    pub state: WorkerVisualState,
    pub title: String,
}

pub ghost struct CellView {
    pub state: WorkerVisualState,
    pub title: Seq<char>,
}

impl View for GridCell {
    type V = CellView;

    open spec fn view(&self) -> CellView {
        CellView { state: self.state, title: self.title@ }
    }
}

pub open spec fn cell_views(cells: Seq<GridCell>) -> Seq<CellView> {
    Seq::new(cells.len(), |i: int| cells[i]@)
}

/// The state of the `i`th core of a worker: the first ones are those in use.
pub open spec fn core_state(w: WorkerInfo, i: nat) -> WorkerVisualState {
    if !w.online {
        WorkerVisualState::Offline
    } else if i < busy_cores(w) {
        WorkerVisualState::Busy
    } else {
        WorkerVisualState::Free
    }
}

pub open spec fn core_cell(w: WorkerInfo, i: nat) -> CellView {
    CellView {
        state: core_state(w, i),
        title: "Node: "@ + w.hostname@ + " | Core "@ + decimal(i) + " Status: "@ + core_state(
            w,
            i,
        ).square(),
    }
}

pub open spec fn worker_cell(w: WorkerInfo) -> CellView {
    CellView {
        state: visual_state(w),
        title: "Node: "@ + w.hostname@ + " | Status: "@ + visual_state(w).square(),
    }
}

/// The cells of the cores of all workers, worker by worker.
pub open spec fn core_cells(ws: Seq<WorkerInfo>) -> Seq<CellView>
    decreases ws.len(),
{
    if ws.len() == 0 {
        Seq::empty()
    } else {
        core_cells(ws.drop_last()) + Seq::new(
            ws.last().total_cores as nat,
            |i: int| core_cell(ws.last(), i as nat),
        )
    }
}

/// A cluster of fewer than a thousand cores is shown core by core, a larger one worker by worker.
pub open spec fn shown_by_core(ws: Seq<WorkerInfo>) -> bool {
    sum_over(ws, cores()) < 1000
}

pub open spec fn telemetry_cells(ws: Seq<WorkerInfo>) -> Seq<CellView> {
    if shown_by_core(ws) {
        core_cells(ws)
    } else {
        Seq::new(ws.len(), |i: int| worker_cell(ws[i]))
    }
}

fn worker_cell_of(w: &WorkerInfo) -> (r: GridCell)
    ensures
        r@ == worker_cell(*w),
{
    let state: WorkerVisualState = worker_visual_state(w);
    let mut title: String = "Node: ".to_string();
    title.append(&w.hostname);
    title.append(" | Status: ");
    title.append(state.class());
    GridCell { state, title }
}

fn core_cell_of(w: &WorkerInfo, i: usize) -> (r: GridCell)
    ensures
        r@ == core_cell(*w, i as nat),
{
    let state: WorkerVisualState = if !w.online {
        WorkerVisualState::Offline
    } else if i < busy_cores_of(w) {
        WorkerVisualState::Busy
    } else {
        WorkerVisualState::Free
    };
    let mut title: String = "Node: ".to_string();
    title.append(&w.hostname);
    title.append(" | Core ");
    title.append(&decimal_usize(i));
    title.append(" Status: ");
    title.append(state.class());
    GridCell { state, title }
}

/// Whether the cluster is shown core by core, and the line above the grid.
pub fn grid_title(by_core: bool) -> (r: &'static str)
    ensures
        r@ == if by_core {
            "Real-Time CPU Cores Grid"@
        } else {
            "Real-Time Cluster Nodes Grid"@
        },
{
    if by_core {
        "Real-Time CPU Cores Grid"
    } else {
        "Real-Time Cluster Nodes Grid"
    }
}

pub struct TelemetryGrid {
    pub by_core: bool,
    pub cells: Vec<GridCell>,
}

/// The grid, if the cores can be counted.
pub fn telemetry_grid(workers: &Vec<WorkerInfo>) -> (r: Option<TelemetryGrid>)
    requires
        all_sound(workers@),
    ensures
        r is Some <==> counted(sum_over(workers@, cores())) is Some,
        r matches Some(grid) ==> grid.by_core == shown_by_core(workers@) && cell_views(grid.cells@)
            == telemetry_cells(workers@),
{
    let total: u64 = match crate::web::dashboard::total_cores(workers) {
        Some(total) => total,
        None => {
            return None;
        },
    };
    let n: usize = workers.len();
    let mut cells: Vec<GridCell> = Vec::new();
    let mut i: usize = 0;
    if total < 1000 {
        assert(workers@.take(0) =~= Seq::<WorkerInfo>::empty());
        assert(cell_views(cells@) =~= Seq::<CellView>::empty());
        while i < n
            invariant
                i <= n,
                n == workers@.len(),
                cell_views(cells@) == core_cells(workers@.take(i as int)),
            decreases n - i,
        {
            let w: &WorkerInfo = &workers[i];
            let ghost start = cell_views(cells@);
            let mut k: usize = 0;
            assert(start + Seq::new(0, |j: int| core_cell(*w, j as nat)) =~= start);
            while k < w.total_cores
                invariant
                    k <= w.total_cores,
                    cell_views(cells@) == start + Seq::new(
                        k as nat,
                        |j: int| core_cell(*w, j as nat),
                    ),
                decreases w.total_cores - k,
            {
                let ghost seen = cells@;
                let cell: GridCell = core_cell_of(w, k);
                cells.push(cell);
                assert(cell_views(cells@) =~= cell_views(seen).push(core_cell(*w, k as nat)));
                k = k + 1;
                assert(cell_views(cells@) =~= start + Seq::new(
                    k as nat,
                    |j: int| core_cell(*w, j as nat),
                ));
            }
            proof {
                assert(workers@.take(i + 1).drop_last() =~= workers@.take(i as int));
                assert(workers@.take(i + 1).last() == *w);
            }
            i = i + 1;
        }
        assert(workers@.take(n as int) =~= workers@);
        Some(TelemetryGrid { by_core: true, cells })
    } else {
        while i < n
            invariant
                i <= n,
                n == workers@.len(),
                cells@.len() == i,
                forall|k: int| 0 <= k < i ==> (#[trigger] cells@[k])@ == worker_cell(workers@[k]),
            decreases n - i,
        {
            cells.push(worker_cell_of(&workers[i]));
            i = i + 1;
        }
        assert(cell_views(cells@) =~= Seq::new(
            workers@.len(),
            |i: int| worker_cell(workers@[i]),
        ));
        Some(TelemetryGrid { by_core: false, cells })
    }
}

/// What is said of a controller in the head of the page.
pub open spec fn controller_word(c: ControllerInfo) -> Seq<char> {
    c.hostname@ + " ("@ + (if c.online {
        "ON"@
    } else {
        "OFF"@
    }) + ")"@
}

/// What the head of the page says of the controllers.
pub open spec fn controllers_line(cs: Seq<ControllerInfo>) -> Seq<char> {
    if cs.len() == 0 {
        ""@
    } else {
        " | CTRLS: "@ + joined(Seq::new(cs.len(), |i: int| controller_word(cs[i])), ", "@)
    }
}

pub fn controllers_text(controllers: &Vec<ControllerInfo>) -> (r: String)
    ensures
        r@ == controllers_line(controllers@),
{
    if controllers.len() == 0 {
        return "".to_string();
    }
    let mut words: Vec<String> = Vec::new();
    let mut i: usize = 0;
    assert(texts(words@) =~= Seq::new(0, |k: int| controller_word(controllers@[k])));
    while i < controllers.len()
        invariant
            i <= controllers@.len(),
            texts(words@) == Seq::new(i as nat, |k: int| controller_word(controllers@[k])),
        decreases controllers@.len() - i,
    {
        let c: &ControllerInfo = &controllers[i];
        let mut word: String = c.hostname.clone();
        word.append(" (");
        word.append(
            if c.online {
                "ON"
            } else {
                "OFF"
            },
        );
        word.append(")");
        proof {
            lemma_texts_push(words@, word);
        }
        words.push(word);
        i = i + 1;
        assert(texts(words@) =~= Seq::new(i as nat, |k: int| controller_word(controllers@[k])));
    }
    let mut r: String = " | CTRLS: ".to_string();
    r.append(&join(&words, ", "));
    r
}

/// The controllers that are drawn; where none is known, one stands for whichever answers.
pub fn drawn_controllers(controllers: Vec<ControllerInfo>, online: bool) -> (r: Vec<ControllerInfo>)
    ensures
        controllers@.len() > 0 ==> r@ == controllers@,
        controllers@.len() == 0 ==> r@.len() == 1 && r@[0].hostname@ == "CTRL-HA-1"@
            && r@[0].role@ == "Leader"@ && r@[0].online == online,
{
    if controllers.len() == 0 {
        let mut r: Vec<ControllerInfo> = Vec::new();
        r.push(
            ControllerInfo {
                hostname: "CTRL-HA-1".to_string(),
                role: "Leader".to_string(),
                online,
            },
        );
        r
    } else {
        controllers
    }
}

/// A line of the picture, between two of its parts. Controllers go by their place in the list.
#[derive(Clone, Copy, PartialEq, Eq, Structural)]
pub enum Link {
    ControllerToFiles { controller: usize },
    /// The line to the compute pool of a controller that answers, or of one that does not.
    ControllerToPool { controller: usize, live: bool },
    FilesToPool,
}

/// The lines of a controller. Only one that answers is joined to a file server that does.
pub open spec fn links_from(i: usize, online: bool, files_online: bool) -> Seq<Link> {
    let pool = Link::ControllerToPool { controller: i, live: online };
    if online && files_online {
        seq![Link::ControllerToFiles { controller: i }, pool]
    } else {
        seq![pool]
    }
}

/// The lines of the first `n` controllers.
pub open spec fn links_of(cs: Seq<ControllerInfo>, files_online: bool, n: nat) -> Seq<Link>
    decreases n,
{
    if n == 0 {
        Seq::empty()
    } else {
        links_of(cs, files_online, (n - 1) as nat) + links_from(
            (n - 1) as usize,
            cs[n - 1].online,
            files_online,
        )
    }
}

/// The lines between the controllers, the file server and the compute pool.
pub fn links(controllers: &Vec<ControllerInfo>, files_online: bool) -> (r: Vec<Link>)
    ensures
        r@ == links_of(controllers@, files_online, controllers@.len()) + if files_online {
            seq![Link::FilesToPool]
        } else {
            Seq::<Link>::empty()
        },
{
    let mut r: Vec<Link> = Vec::new();
    let mut i: usize = 0;
    while i < controllers.len()
        invariant
            i <= controllers@.len(),
            r@ == links_of(controllers@, files_online, i as nat),
        decreases controllers@.len() - i,
    {
        let ghost before = r@;
        let online: bool = controllers[i].online;
        if online && files_online {
            r.push(Link::ControllerToFiles { controller: i });
        }
        r.push(Link::ControllerToPool { controller: i, live: online });
        assert(r@ =~= before + links_from(i, online, files_online));
        i = i + 1;
    }
    if files_online {
        r.push(Link::FilesToPool);
    }
    r
}

/// A file server that does not answer is joined to nothing.
pub proof fn law_silent_files_are_joined_to_nothing(cs: Seq<ControllerInfo>, n: nat, k: int)
    requires
        n <= cs.len(),
        0 <= k < links_of(cs, false, n).len(),
    ensures
        links_of(cs, false, n)[k] is ControllerToPool,
    decreases n,
{
    if k < links_of(cs, false, (n - 1) as nat).len() {
        law_silent_files_are_joined_to_nothing(cs, (n - 1) as nat, k);
    }
}

/// What stands below a controller: its role, or that it is offline.
pub fn role_text(c: &ControllerInfo) -> (r: String)
    ensures
        r@ == if c.online {
            uppercased(c.role@)
        } else {
            "OFFLINE"@
        },
{
    if c.online {
        uppercase(&c.role)
    } else {
        "OFFLINE".to_string()
    }
}

/// What stands below the compute pool.
pub fn pool_text(nodes: usize, busy: u64, total: u64) -> (r: String)
    ensures
        r@ == decimal(nodes as nat) + " NODES · "@ + decimal(busy as nat) + "/"@ + decimal(
            total as nat,
        ) + " CORES"@,
{
    let mut r: String = decimal_usize(nodes);
    r.append(" NODES · ");
    r.append(&decimal_u64(busy));
    r.append("/");
    r.append(&decimal_u64(total));
    r.append(" CORES");
    r
}

/// How many graphics processors a worker has: the count of the first entry of that name.
pub open spec fn gpus_from(gres: Seq<(String, u64)>, from: int) -> nat
    decreases gres.len() - from,
{
    if from < 0 || from >= gres.len() {
        0
    } else if gres[from].0@ == "gpu"@ {
        gres[from].1 as nat
    } else {
        gpus_from(gres, from + 1)
    }
}

pub open spec fn gpus() -> spec_fn(WorkerInfo) -> nat {
    |w: WorkerInfo| gpus_from(w.gres@, 0)
}

fn gpus_of(w: &WorkerInfo) -> (r: u64)
    ensures
        r == gpus()(*w),
{
    let mut i: usize = 0;
    while i < w.gres.len()
        invariant
            i <= w.gres@.len(),
            gpus_from(w.gres@, 0) == gpus_from(w.gres@, i as int),
        decreases w.gres@.len() - i,
    {
        if str_eq(&w.gres[i].0, "gpu") {
            return w.gres[i].1;
        }
        i = i + 1;
    }
    0
}

/// What is said of the graphics processors of a cluster.
pub open spec fn gpu_line(total: nat) -> Seq<char> {
    if total > 0 {
        decimal(total) + " x NVIDIA GPU Active"@
    } else {
        "No accelerators detected"@
    }
}

/// What is said of the graphics processors, if they can be counted.
pub fn gpu_text(workers: &Vec<WorkerInfo>) -> (r: Option<String>)
    ensures
        match counted(sum_over(workers@, gpus())) {
            Some(total) => r is Some && r->0@ == gpu_line(total as nat),
            None => r is None,
        },
{
    let mut total: u64 = 0;
    let mut i: usize = 0;
    assert(workers@.take(0) =~= Seq::<WorkerInfo>::empty());
    while i < workers.len()
        invariant
            i <= workers@.len(),
            total == sum_over(workers@.take(i as int), gpus()),
        decreases workers@.len() - i,
    {
        proof {
            assert(workers@.take(i + 1) =~= workers@.take(i as int).push(workers@[i as int]));
            lemma_sum_push(workers@.take(i as int), workers@[i as int], gpus());
            lemma_sum_take(workers@, i + 1, gpus());
        }
        match total.checked_add(gpus_of(&workers[i])) {
            Some(sum) => {
                total = sum;
            },
            None => {
                return None;
            },
        }
        i = i + 1;
    }
    assert(workers@.take(workers@.len() as int) =~= workers@);
    if total > 0 {
        let mut r: String = decimal_u64(total);
        r.append(" x NVIDIA GPU Active");
        Some(r)
    } else {
        Some("No accelerators detected".to_string())
    }
}

/// Whether a worker has an entry for graphics processors.
pub open spec fn lists_gpu(w: WorkerInfo) -> bool {
    exists|i: int| 0 <= i < w.gres@.len() && (#[trigger] w.gres@[i]).0@ == "gpu"@
}

pub fn has_gpu(w: &WorkerInfo) -> (r: bool)
    ensures
        r == lists_gpu(*w),
{
    let mut i: usize = 0;
    while i < w.gres.len()
        invariant
            i <= w.gres@.len(),
            forall|k: int| 0 <= k < i ==> (#[trigger] w.gres@[k]).0@ != "gpu"@,
        decreases w.gres@.len() - i,
    {
        if str_eq(&w.gres[i].0, "gpu") {
            return true;
        }
        i = i + 1;
    }
    false
}

/// A worker in the list of nodes: its name, the cores in use of those it has, its memory, and how
/// long it has been up.
pub struct InventoryRow {
    pub node: String,
    pub cores: String,
    pub memory: String,
    pub uptime: String,
}

pub fn inventory_row(w: &WorkerInfo) -> (r: InventoryRow)
    requires
        w.available_cores <= w.total_cores,
    ensures
        r.node@ == w.hostname@,
        r.cores@ == decimal((w.total_cores - w.available_cores) as nat) + "/"@ + decimal(
            w.total_cores as nat,
        ),
        r.memory@ == memory_text(w.allocated_memory as nat, w.total_memory as nat),
        r.uptime@ == uptime_text(w.uptime as nat),
{
    let mut cores: String = decimal_usize(w.total_cores - w.available_cores);
    cores.append("/");
    cores.append(&decimal_usize(w.total_cores));
    InventoryRow {
        node: w.hostname.clone(),
        cores,
        memory: format_memory(w.allocated_memory, w.total_memory),
        uptime: format_uptime(w.uptime),
    }
}

/// Of the running jobs the one that started last comes first; of two that started together, the one
/// with the higher number. A job that has not told its start counts from when it was queued.
pub proof fn law_latest_jobs_come_first(r: Seq<JobInfo>, s: Seq<JobInfo>, i: int, j: int)
    requires
        stably_sorted(r, s, latest_first()),
        0 <= i <= j < r.len(),
    ensures
        since(r[i]) >= since(r[j]),
        since(r[i]) == since(r[j]) ==> r[i].id >= r[j].id,
        r[i].start_time is Some ==> since(r[i]) == r[i].start_time->0,
        r[i].start_time is None ==> since(r[i]) == r[i].queued_time,
{
    assert(latest_first()(r[i], r[j]));
}

/// A running job is shown with its name, or with its program where it has none that can be seen; and
/// with all the workers that it runs on.
pub proof fn law_running_jobs_are_named(job: JobInfo)
    ensures
        job.job_name is None ==> shown_name(job) == job.binary@,
        job.job_name is Some && trimmed(job.job_name->0@).len() > 0 ==> shown_name(job)
            == job.job_name->0@,
        job.job_name is Some && trimmed(job.job_name->0@).len() == 0 ==> shown_name(job)
            == job.binary@,
        job.assigned_workers@.len() == 0 ==> shown_workers(job) == "workers pending"@,
        job.assigned_workers@.len() == 1 ==> shown_workers(job) == job.assigned_workers@[0]@,
        job.assigned_workers@.len() == 2 ==> shown_workers(job) == job.assigned_workers@[0]@ + ", "@
            + job.assigned_workers@[1]@,
{
    let t = texts(job.assigned_workers@);
    if t.len() == 1 {
        assert(t[0] == job.assigned_workers@[0]@);
    }
    if t.len() == 2 {
        assert(t.drop_last()[0] == job.assigned_workers@[0]@);
        assert(joined(t.drop_last(), ", "@) == job.assigned_workers@[0]@);
        assert(t.last() == job.assigned_workers@[1]@);
    }
}

/// As many cores of a worker that is online are shown as busy as are in use, and the rest as free;
/// all the cores of one that is not are shown as offline.
pub proof fn law_cores_are_shown_as_they_are(w: WorkerInfo, i: nat)
    requires
        w.available_cores <= w.total_cores,
        i < w.total_cores,
    ensures
        core_state(w, i) == WorkerVisualState::Offline <==> !w.online,
        core_state(w, i) == WorkerVisualState::Busy <==> w.online && i < w.total_cores
            - w.available_cores,
        core_state(w, i) == WorkerVisualState::Free <==> w.online && i >= w.total_cores
            - w.available_cores,
        core_cell(w, i).state == core_state(w, i),
        worker_cell(w).state == visual_state(w),
{
}

/// Every core of a cluster of fewer than a thousand has a cell, worker by worker; of a larger one
/// every worker has one.
pub proof fn law_telemetry_shows_everything(ws: Seq<WorkerInfo>, w: WorkerInfo, i: int)
    ensures
        sum_over(ws, cores()) <= 999 ==> telemetry_cells(ws) == core_cells(ws),
        sum_over(ws, cores()) >= 1000 ==> telemetry_cells(ws).len() == ws.len() && (0 <= i
            < ws.len() ==> telemetry_cells(ws)[i] == worker_cell(ws[i])),
        core_cells(ws).len() == sum_over(ws, cores()),
        0 <= i < w.total_cores ==> core_cells(ws.push(w))[core_cells(ws).len() + i] == core_cell(
            w,
            i as nat,
        ),
    decreases ws.len(),
{
    assert(ws.push(w).drop_last() =~= ws);
    if ws.len() > 0 {
        law_telemetry_shows_everything(ws.drop_last(), w, i);
    }
}

/// The head of the page says of every controller whether it is on.
pub proof fn law_controllers_are_on_or_off(c: ControllerInfo, cs: Seq<ControllerInfo>)
    ensures
        c.online ==> controller_word(c) == c.hostname@ + " ("@ + "ON"@ + ")"@,
        !c.online ==> controller_word(c) == c.hostname@ + " ("@ + "OFF"@ + ")"@,
        cs.len() == 0 ==> controllers_line(cs).len() == 0,
        controllers_line(seq![c]) == " | CTRLS: "@ + controller_word(c),
        cs.len() > 0 ==> controllers_line(cs.push(c)) == controllers_line(cs) + ", "@
            + controller_word(c),
{
    reveal_strlit("");
    let one = Seq::new(1, |i: int| controller_word(seq![c][i]));
    assert(one[0] == controller_word(c));
    let all = Seq::new(cs.len() + 1, |i: int| controller_word(cs.push(c)[i]));
    let before = Seq::new(cs.len(), |i: int| controller_word(cs[i]));
    if cs.len() > 0 {
        assert(all.drop_last() =~= before);
        assert(all.last() == controller_word(c));
        let head = " | CTRLS: "@;
        let mid = joined(before, ", "@);
        assert(head + (mid + ", "@ + controller_word(c)) =~= head + mid + ", "@ + controller_word(
            c,
        ));
    }
}

/// Every controller is joined to the compute pool, by a live line exactly if it answers; it is joined
/// to the file server exactly if both answer.
pub proof fn law_controllers_are_joined_as_they_answer(
    cs: Seq<ControllerInfo>,
    files_online: bool,
    n: nat,
    i: int,
)
    requires
        0 <= i < n <= cs.len(),
        cs.len() <= usize::MAX,
    ensures
        links_of(cs, files_online, n).contains(
            Link::ControllerToPool { controller: i as usize, live: cs[i].online },
        ),
        !links_of(cs, files_online, n).contains(
            Link::ControllerToPool { controller: i as usize, live: !cs[i].online },
        ),
        links_of(cs, files_online, n).contains(
            Link::ControllerToFiles { controller: i as usize },
        ) <==> cs[i].online && files_online,
    decreases n,
{
    let before = links_of(cs, files_online, (n - 1) as nat);
    let mine = links_from((n - 1) as usize, cs[n - 1].online, files_online);
    let all = before + mine;
    let pool = Link::ControllerToPool { controller: i as usize, live: cs[i].online };
    let dead = Link::ControllerToPool { controller: i as usize, live: !cs[i].online };
    let files = Link::ControllerToFiles { controller: i as usize };
    if i < n - 1 {
        law_controllers_are_joined_as_they_answer(cs, files_online, (n - 1) as nat, i);
        let k = choose|k: int| 0 <= k < before.len() && before[k] == pool;
        assert(all[k] == pool);
        if before.contains(files) {
            let k = choose|k: int| 0 <= k < before.len() && before[k] == files;
            assert(all[k] == files);
        }
    } else {
        lemma_no_later_links(cs, files_online, (n - 1) as nat, i);
        assert(mine.last() == pool);
        assert(all[all.len() - 1] == pool);
        if cs[i].online && files_online {
            assert(mine[0] == files);
            assert(all[before.len() as int] == files);
        }
    }
    if all.contains(dead) {
        let k = choose|k: int| 0 <= k < all.len() && all[k] == dead;
        if k < before.len() {
            assert(before[k] == dead);
            assert(before.contains(dead));
        } else {
            assert(mine[k - before.len()] == dead);
        }
    }
    if all.contains(files) {
        let k = choose|k: int| 0 <= k < all.len() && all[k] == files;
        if k < before.len() {
            assert(before[k] == files);
            assert(before.contains(files));
        } else {
            assert(mine[k - before.len()] == files);
        }
    }
}

proof fn lemma_no_later_links(cs: Seq<ControllerInfo>, files_online: bool, n: nat, i: int)
    requires
        n <= i < cs.len() <= usize::MAX,
    ensures
        forall|k: int|
            0 <= k < links_of(cs, files_online, n).len() ==> (match #[trigger] links_of(
                cs,
                files_online,
                n,
            )[k] {
                Link::ControllerToFiles { controller } => controller != i,
                Link::ControllerToPool { controller, live } => controller != i,
                Link::FilesToPool => false,
            }),
    decreases n,
{
    if n > 0 {
        lemma_no_later_links(cs, files_online, (n - 1) as nat, i);
        let before = links_of(cs, files_online, (n - 1) as nat);
        let mine = links_from((n - 1) as usize, cs[n - 1].online, files_online);
        let all = links_of(cs, files_online, n);
        assert forall|k: int| 0 <= k < all.len() implies (match #[trigger] all[k] {
            Link::ControllerToFiles { controller } => controller != i,
            Link::ControllerToPool { controller, live } => controller != i,
            Link::FilesToPool => false,
        }) by {
            if k < before.len() {
                assert(all[k] == before[k]);
            } else {
                assert(all[k] == mine[k - before.len()]);
            }
        }
    }
}

/// The graphics processors of a worker are as many as its first entry for them says, and none where
/// it has no such entry; a cluster has as many as its workers together.
pub proof fn law_graphics_processors_are_counted(w: WorkerInfo, i: int, total: nat)
    ensures
        0 <= i < w.gres@.len() && w.gres@[i].0@ == "gpu"@ && (forall|k: int|
            0 <= k < i ==> (#[trigger] w.gres@[k]).0@ != "gpu"@) ==> gpus()(w) == w.gres@[i].1
            && lists_gpu(w),
        (forall|k: int| 0 <= k < w.gres@.len() ==> (#[trigger] w.gres@[k]).0@ != "gpu"@)
            ==> gpus()(w) == 0 && !lists_gpu(w),
        total >= 1 ==> gpu_line(total) == decimal(total) + " x NVIDIA GPU Active"@,
        gpu_line(0) == "No accelerators detected"@,
{
    if 0 <= i < w.gres@.len() && w.gres@[i].0@ == "gpu"@ && (forall|k: int|
        0 <= k < i ==> (#[trigger] w.gres@[k]).0@ != "gpu"@) {
        lemma_gpus_at(w.gres@, 0, i);
    }
    if forall|k: int| 0 <= k < w.gres@.len() ==> (#[trigger] w.gres@[k]).0@ != "gpu"@ {
        lemma_no_gpus(w.gres@, 0);
    }
}

proof fn lemma_gpus_at(gres: Seq<(String, u64)>, from: int, i: int)
    requires
        0 <= from <= i < gres.len(),
        gres[i].0@ == "gpu"@,
        forall|k: int| 0 <= k < i ==> (#[trigger] gres[k]).0@ != "gpu"@,
    ensures
        gpus_from(gres, from) == gres[i].1,
    decreases i - from,
{
    if from < i {
        assert(gres[from].0@ != "gpu"@);
        lemma_gpus_at(gres, from + 1, i);
    }
}

proof fn lemma_no_gpus(gres: Seq<(String, u64)>, from: int)
    requires
        0 <= from,
        forall|k: int| 0 <= k < gres.len() ==> (#[trigger] gres[k]).0@ != "gpu"@,
    ensures
        gpus_from(gres, from) == 0,
    decreases gres.len() - from,
{
    if from < gres.len() {
        assert(gres[from].0@ != "gpu"@);
        lemma_no_gpus(gres, from + 1);
    }
}

} // verus!
