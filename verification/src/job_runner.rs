//! Running a job: the environment it is started in, the files beside it, how it is brought to
//! an end, and what is reported of it.

use vstd::prelude::*;

use std::collections::HashMap;

use crate::cgroups::GresEntry;
use crate::envs::pair_texts;
use crate::envs::EnvList;
use crate::model::JobStatus;
use crate::model::StatusView;
use crate::numbers::decimal;
use crate::numbers::decimal_i64;
use crate::numbers::decimal_int;
use crate::numbers::decimal_u32;
use crate::numbers::decimal_u64;
use crate::numbers::decimal_usize;
use crate::numbers::parse_u32;
use crate::numbers::parse_u64;
use crate::numbers::parsed_u32;
use crate::numbers::parsed_u64;
use crate::paths::join_path;
use crate::paths::path_join;
use crate::pieces::join;
use crate::pieces::joined;
use crate::pieces::replace;
use crate::pieces::replaced;
use crate::text::optional_text;
use crate::text::drop_trailing;
use crate::text::last_at;
use crate::text::rfind_char;
use crate::text::str_eq;
use crate::text::take_chars;
use crate::text::texts;
use crate::text::trim_end_char;

verus! {

/// How a job is asked to stop.
#[derive(Debug, Clone, Copy, PartialEq, Eq, Structural)]
pub enum KillSignal {
    Cancel,
    Preempt,
}

/// What `serde_json::from_str` reads out of a text as a map from names to lists of units.
pub uninterp spec fn gres_of_json(text: Seq<char>) -> Option<Map<Seq<char>, Seq<u32>>>;

/// No name occurs twice.
pub open spec fn distinct_gres(list: Seq<GresEntry>) -> bool {
    forall|i: int, j: int|
        0 <= i < j < list.len() ==> (#[trigger] list[i]).name@ != (#[trigger] list[j]).name@
}

/// The units that a list gives for each name.
pub open spec fn gres_map(list: Seq<GresEntry>) -> Map<Seq<char>, Seq<u32>>
    decreases list.len(),
{
    if list.len() == 0 {
        Map::empty()
    } else {
        gres_map(list.drop_last()).insert(list.last().name@, list.last().ids@)
    }
}

/// `serde_json::to_string` on a map from names to lists of units. It does not fail, and what it
/// writes is read back as the same map. In which order the names are written is left open.
#[verifier::external_body]
fn gres_json(list: &Vec<GresEntry>) -> (r: Option<String>)
    requires
        distinct_gres(list@),
    ensures
        r is Some && gres_of_json(r->0@) == Some(gres_map(list@)),
{
    let map: HashMap<&str, &Vec<u32>> = list.iter().map(|e| (e.name.as_str(), &e.ids)).collect();
    serde_json::to_string(&map).ok()
}

/// What a job is told about itself.
pub struct JobFacts {
    pub job_id: u64,
    pub node_list: Vec<String>,
    pub working_directory: String,
    pub hostfile_path: String,
    pub array_id: Option<u64>,
    pub array_task_id: Option<u32>,
    pub user_id: String,
}

/// The first node of a job, or nothing.
pub open spec fn master_node(nodes: Seq<String>) -> Seq<char> {
    if nodes.len() > 0 {
        nodes[0]@
    } else {
        Seq::empty()
    }
}

/// The variables that tell a job about itself, without those that it may lack.
pub open spec fn basic_env(f: JobFacts) -> Map<Seq<char>, Seq<char>> {
    Map::<Seq<char>, Seq<char>>::empty().insert(
        "VELOCE_NODES"@,
        joined(texts(f.node_list@), ","@),
    ).insert("VELOCE_JOB_ID"@, decimal(f.job_id as nat)).insert(
        "VELOCE_NODE_COUNT"@,
        decimal(f.node_list@.len()),
    ).insert("VELOCE_MASTER_ADDR"@, master_node(f.node_list@)).insert(
        "VELOCE_WORKING_DIR"@,
        f.working_directory@,
    ).insert("VELOCE_HOSTFILE"@, f.hostfile_path@).insert(
        "OMPI_MCA_orte_default_hostfile"@,
        f.hostfile_path@,
    ).insert("HYDRA_HOST_FILE"@, f.hostfile_path@).insert("VELOCE_SUBMITTING_USER"@, f.user_id@)
}

/// The variables that tell a job about itself; `gres` is the text of the units it was given,
/// where it was given any.
pub open spec fn job_env(f: JobFacts, gres: Option<Seq<char>>) -> Map<Seq<char>, Seq<char>> {
    let e0 = basic_env(f);
    let e1 = match gres {
        Some(json) => e0.insert("VELOCE_ALLOCATED_GRES"@, json),
        None => e0,
    };
    let e2 = match f.array_id {
        Some(id) => e1.insert("VELOCE_ARRAY_JOB_ID"@, decimal(id as nat)),
        None => e1,
    };
    match f.array_task_id {
        Some(id) => e2.insert("VELOCE_ARRAY_TASK_ID"@, decimal(id as nat)),
        None => e2,
    }
}

/// `prepare_job_env`, with the text of the units given.
pub fn job_env_with(f: &JobFacts, gres: Option<String>) -> (r: EnvList)
    ensures
        r@ == job_env(*f, optional_text(gres)),
{
    let master: String = if f.node_list.len() > 0 {
        f.node_list[0].clone()
    } else {
        String::new()
    };
    let mut e: EnvList = EnvList::new();
    e = e.with("VELOCE_NODES".to_owned(), join(&f.node_list, ","));
    e = e.with("VELOCE_JOB_ID".to_owned(), decimal_u64(f.job_id));
    e = e.with("VELOCE_NODE_COUNT".to_owned(), decimal_usize(f.node_list.len()));
    e = e.with("VELOCE_MASTER_ADDR".to_owned(), master);
    e = e.with("VELOCE_WORKING_DIR".to_owned(), f.working_directory.clone());
    e = e.with("VELOCE_HOSTFILE".to_owned(), f.hostfile_path.clone());
    e = e.with("OMPI_MCA_orte_default_hostfile".to_owned(), f.hostfile_path.clone());
    e = e.with("HYDRA_HOST_FILE".to_owned(), f.hostfile_path.clone());
    e = e.with("VELOCE_SUBMITTING_USER".to_owned(), f.user_id.clone());
    if let Some(json) = gres {
        e = e.with("VELOCE_ALLOCATED_GRES".to_owned(), json);
    }
    if let Some(id) = f.array_id {
        e = e.with("VELOCE_ARRAY_JOB_ID".to_owned(), decimal_u64(id));
    }
    if let Some(id) = f.array_task_id {
        e = e.with("VELOCE_ARRAY_TASK_ID".to_owned(), decimal_u32(id));
    }
    e
}

/// The variables that tell a job about itself and about the units it was given.
pub fn prepare_job_env(f: &JobFacts, allocated_gres: &Vec<GresEntry>) -> (r: EnvList)
    requires
        distinct_gres(allocated_gres@),
    ensures
        allocated_gres@.len() == 0 ==> r@ == job_env(*f, None),
        allocated_gres@.len() > 0 ==> exists|json: Seq<char>| #[trigger]
            gres_of_json(json) == Some(gres_map(allocated_gres@)) && r@ == job_env(*f, Some(json)),
{
    if allocated_gres.len() == 0 {
        return job_env_with(f, None);
    }
    job_env_with(f, gres_json(allocated_gres))
}

/// A node without its port.
pub open spec fn host_of(node: Seq<char>) -> Seq<char> {
    match last_at(node, ':') {
        Some(i) => node.take(i),
        None => node,
    }
}

fn host_name(node: &str) -> (r: String)
    ensures
        r@ == host_of(node@),
{
    match rfind_char(node, ':') {
        Some(i) => take_chars(node, i),
        None => node.to_owned(),
    }
}

/// The lines of the first `n` nodes: each host, followed by `tail`.
pub open spec fn host_lines(nodes: Seq<String>, tail: Seq<char>, n: int) -> Seq<char>
    decreases n,
{
    if n <= 0 {
        Seq::empty()
    } else {
        host_lines(nodes, tail, n - 1) + host_of(nodes[n - 1]@) + tail
    }
}

fn write_host_lines(nodes: &Vec<String>, tail: &str) -> (r: String)
    ensures
        r@ == host_lines(nodes@, tail@, nodes@.len() as int),
{
    let mut r = String::new();
    let mut i: usize = 0;
    while i < nodes.len()
        invariant
            i <= nodes@.len(),
            r@ == host_lines(nodes@, tail@, i as int),
        decreases nodes@.len() - i,
    {
        r.append(&host_name(&nodes[i]));
        r.append(tail);
        i = i + 1;
    }
    r
}

/// The host file of a job: every host with its slots.
pub fn hostfile(nodes: &Vec<String>, slots: usize) -> (r: String)
    ensures
        r@ == host_lines(
            nodes@,
            " slots="@ + decimal(slots as nat) + "\n"@,
            nodes@.len() as int,
        ),
{
    let mut tail: String = " slots=".to_owned();
    tail.append(&decimal_usize(slots));
    tail.append("\n");
    write_host_lines(nodes, &tail)
}

/// The host file of a step: every host.
pub fn step_hostfile(nodes: &Vec<String>) -> (r: String)
    ensures
        r@ == host_lines(nodes@, "\n"@, nodes@.len() as int),
{
    write_host_lines(nodes, "\n")
}

/// The slots on each host.
pub open spec fn slots_for(assigned_cores: Option<usize>) -> usize {
    match assigned_cores {
        Some(n) => n,
        None => 1,
    }
}

/// The name of a job's host file.
pub open spec fn hosts_name(job_id: u64) -> Seq<char> {
    "veloce_hostfile_"@ + decimal(job_id as nat) + ".txt"@
}

/// The name of a step's host file.
pub open spec fn step_hosts_name(job_id: u64, step_id: u32) -> Seq<char> {
    "veloce_hostfile_"@ + decimal(job_id as nat) + "_"@ + decimal(step_id as nat) + ".txt"@
}

/// The name of the archive of a job's working directory.
pub open spec fn archive_of(job_id: u64) -> Seq<char> {
    "veloce_job_"@ + decimal(job_id as nat) + "_workdir.tar.gz"@
}

/// The slots on each host: the cores that were assigned, or one.
pub fn slots(assigned_cores: Option<usize>) -> (r: usize)
    ensures
        r == slots_for(assigned_cores),
        r == (match assigned_cores {
            Some(n) => n,
            None => 1,
        }),
{
    match assigned_cores {
        Some(n) => n,
        None => 1,
    }
}

/// The name of a job's host file.
pub fn hostfile_name(job_id: u64) -> (r: String)
    ensures
        r@ == hosts_name(job_id),
        r@ == "veloce_hostfile_"@ + decimal(job_id as nat) + ".txt"@,
{
    let mut r: String = "veloce_hostfile_".to_owned();
    r.append(&decimal_u64(job_id));
    r.append(".txt");
    r
}

/// The name of a step's host file.
pub fn step_hostfile_name(job_id: u64, step_id: u32) -> (r: String)
    ensures
        r@ == step_hosts_name(job_id, step_id),
        r@ == "veloce_hostfile_"@ + decimal(job_id as nat) + "_"@ + decimal(step_id as nat)
            + ".txt"@,
{
    let mut r: String = "veloce_hostfile_".to_owned();
    r.append(&decimal_u64(job_id));
    r.append("_");
    r.append(&decimal_u32(step_id));
    r.append(".txt");
    r
}

/// Where the output of a job on this worker goes.
pub open spec fn log_name(job_id: u64, worker_id: Seq<char>, errors: bool) -> Seq<char> {
    decimal(job_id as nat) + "-"@ + worker_id + (if errors {
        "-stderr.log"@
    } else {
        "-stdout.log"@
    })
}

pub fn log_file_name(job_id: u64, worker_id: &str, errors: bool) -> (r: String)
    ensures
        r@ == log_name(job_id, worker_id@, errors),
{
    let mut r: String = decimal_u64(job_id);
    r.append("-");
    r.append(worker_id);
    if errors {
        r.append("-stderr.log");
    } else {
        r.append("-stdout.log");
    }
    r
}

/// The file of a job's output in its working directory.
pub fn log_path(working_directory: &str, job_id: u64, worker_id: &str, errors: bool) -> (r: String)
    ensures
        r@ == path_join(working_directory@, log_name(job_id, worker_id@, errors)),
{
    join_path(working_directory, &log_file_name(job_id, worker_id, errors))
}

/// Where the output of one rank of a step goes.
pub open spec fn rank_log(job_id: u64, step_id: u32, rank: u32, errors: bool) -> Seq<char> {
    decimal(job_id as nat) + "-step-"@ + decimal(step_id as nat) + "-rank-"@ + decimal(rank as nat)
        + (if errors {
        "-stderr.log"@
    } else {
        "-stdout.log"@
    })
}

pub fn rank_log_name(job_id: u64, step_id: u32, rank: u32, errors: bool) -> (r: String)
    ensures
        r@ == rank_log(job_id, step_id, rank, errors),
        r@ == decimal(job_id as nat) + "-step-"@ + decimal(step_id as nat) + "-rank-"@ + decimal(
            rank as nat,
        ) + (if errors {
            "-stderr.log"@
        } else {
            "-stdout.log"@
        }),
{
    let mut r: String = decimal_u64(job_id);
    r.append("-step-");
    r.append(&decimal_u32(step_id));
    r.append("-rank-");
    r.append(&decimal_u32(rank));
    if errors {
        r.append("-stderr.log");
    } else {
        r.append("-stdout.log");
    }
    r
}

/// The first value that a list of pairs gives for a name.
pub open spec fn first_value(pairs: Seq<(Seq<char>, Seq<char>)>, name: Seq<char>) -> Option<
    Seq<char>,
>
    decreases pairs.len(),
{
    if pairs.len() == 0 {
        None
    } else if pairs[0].0 == name {
        Some(pairs[0].1)
    } else {
        first_value(pairs.skip(1), name)
    }
}

fn find_value(pairs: &Vec<(String, String)>, name: &str) -> (r: Option<String>)
    ensures
        optional_text(r) == first_value(pair_texts(pairs@), name@),
{
    let ghost all = pair_texts(pairs@);
    let mut i: usize = 0;
    assert(all.skip(0) =~= all);
    while i < pairs.len()
        invariant
            i <= pairs@.len(),
            all == pair_texts(pairs@),
            first_value(all, name@) == first_value(all.skip(i as int), name@),
        decreases pairs@.len() - i,
    {
        assert(all.skip(i as int)[0] == (pairs@[i as int].0@, pairs@[i as int].1@));
        if str_eq(&pairs[i].0, name) {
            return Some(pairs[i].1.clone());
        }
        assert(all.skip(i as int).skip(1) =~= all.skip(i + 1));
        i = i + 1;
    }
    None
}

/// The port on which a job can be reached, as its variables give it.
pub open spec fn port_in(pairs: Seq<(Seq<char>, Seq<char>)>) -> Option<u16> {
    match first_value(pairs, "VELOCE_INTERACTIVE_PORT"@) {
        Some(v) => match parsed_u32(v) {
            Some(n) => if n <= u16::MAX {
                Some(n as u16)
            } else {
                None
            },
            None => None,
        },
        None => None,
    }
}

pub fn interactive_port(env_vars: &Vec<(String, String)>) -> (r: Option<u16>)
    ensures
        r == port_in(pair_texts(env_vars@)),
{
    match find_value(env_vars, "VELOCE_INTERACTIVE_PORT") {
        Some(v) => match parse_u32(&v) {
            Some(n) => if n <= 0xffff {
                Some(n as u16)
            } else {
                None
            },
            None => None,
        },
        None => None,
    }
}

/// The position of a worker in a list; 0, where it is not in it.
pub open spec fn position_in(nodes: Seq<String>, worker_id: Seq<char>, from: int) -> int
    decreases nodes.len() - from,
{
    if from < 0 || from >= nodes.len() {
        0
    } else if nodes[from]@ == worker_id {
        from
    } else {
        position_in(nodes, worker_id, from + 1)
    }
}

pub fn node_position(nodes: &Vec<String>, worker_id: &str) -> (r: usize)
    ensures
        r == position_in(nodes@, worker_id@, 0),
{
    let mut i: usize = 0;
    while i < nodes.len()
        invariant
            i <= nodes@.len(),
            position_in(nodes@, worker_id@, 0) == position_in(nodes@, worker_id@, i as int),
        decreases nodes@.len() - i,
    {
        if str_eq(&nodes[i], worker_id) {
            return i;
        }
        i = i + 1;
    }
    0
}

/// The number that a variable holds, if it holds one.
pub open spec fn env_number(env: Map<Seq<char>, Seq<char>>, name: Seq<char>) -> Option<u64> {
    if env.contains_key(name) {
        parsed_u64(env[name])
    } else {
        None
    }
}

/// The rank of a worker in a job: what the job's variables say, or else the position of the
/// worker among the nodes.
pub open spec fn rank_in(
    env: Map<Seq<char>, Seq<char>>,
    nodes: Seq<String>,
    worker_id: Seq<char>,
) -> int {
    match env_number(env, "VELOCE_RANK"@) {
        Some(n) => n as int,
        None => position_in(nodes, worker_id, 0),
    }
}

pub fn job_rank(env: &EnvList, nodes: &Vec<String>, worker_id: &str) -> (r: u64)
    ensures
        r == rank_in(env@, nodes@, worker_id@),
{
    let given: Option<u64> = match env.get("VELOCE_RANK") {
        Some(v) => parse_u64(&v),
        None => None,
    };
    match given {
        Some(n) => n,
        None => node_position(nodes, worker_id) as u64,
    }
}

/// The size of a job: what its variables say, or else the number of nodes.
pub open spec fn size_in(env: Map<Seq<char>, Seq<char>>, nodes: Seq<String>) -> int {
    match env_number(env, "VELOCE_SIZE"@) {
        Some(n) => n as int,
        None => nodes.len() as int,
    }
}

pub fn job_size(env: &EnvList, nodes: &Vec<String>) -> (r: u64)
    ensures
        r == size_in(env@, nodes@),
{
    let given: Option<u64> = match env.get("VELOCE_SIZE") {
        Some(v) => parse_u64(&v),
        None => None,
    };
    match given {
        Some(n) => n,
        None => nodes.len() as u64,
    }
}

/// The name under which an image is kept.
pub fn image_file_name(image_uri: &str) -> (r: String)
    ensures
        r@ == replaced(replaced(image_uri@, "/"@, "_"@), ":"@, "_"@),
{
    proof {
        reveal_strlit("/");
        reveal_strlit(":");
    }
    replace(&replace(image_uri, "/", "_"), ":", "_")
}

/// How long a job may run where it was given no limit: a hundred years, in seconds.
pub const NO_LIMIT_SECONDS: u64 = 3153600000;

/// How long a job may run.
pub open spec fn time_limit(walltime: u64) -> u64 {
    if walltime > 0 {
        walltime
    } else {
        NO_LIMIT_SECONDS
    }
}

pub fn walltime_limit(walltime: u64) -> (r: u64)
    ensures
        r == time_limit(walltime),
        r == (if walltime > 0 {
            walltime
        } else {
            NO_LIMIT_SECONDS
        }),
{
    if walltime > 0 {
        walltime
    } else {
        NO_LIMIT_SECONDS
    }
}

/// How a job's process came to its end.
pub enum JobEnd {
    /// It exited, with a code or by a signal.
    Exited { code: Option<i32> },
    /// It could not be waited for.
    WaitFailed { error: String },
    /// It was asked to stop.
    Stopped,
    /// It ran for longer than it may.
    WalltimeExceeded,
}

/// What is sent to the controller when a job has ended.
pub enum EndMessage {
    Done { exit_code: i32 },
    Error { error: String },
    Killed,
}

/// What the end of a job means: what is sent, the exit code on record, and the status.
pub struct JobOutcome {
    pub message: EndMessage,
    pub exit_code: Option<i32>,
    pub status: JobStatus,
}

pub open spec fn end_message_text(m: EndMessage) -> Option<Seq<char>> {
    match m {
        EndMessage::Error { error } => Some(error@),
        _ => None,
    }
}

/// A message as it is sent.
pub ghost enum MessageView {
    Done(i32),
    Error(Seq<char>),
    Killed,
}

pub open spec fn message_view(m: EndMessage) -> MessageView {
    match m {
        EndMessage::Done { exit_code } => MessageView::Done(exit_code),
        EndMessage::Error { error } => MessageView::Error(error@),
        EndMessage::Killed => MessageView::Killed,
    }
}

pub ghost struct OutcomeView {
    pub message: MessageView,
    pub exit_code: Option<i32>,
    pub status: StatusView,
}

pub open spec fn outcome_view(o: JobOutcome) -> OutcomeView {
    OutcomeView { message: message_view(o.message), exit_code: o.exit_code, status: o.status@ }
}

/// What the end of a job means.
pub open spec fn outcome_of(end: JobEnd) -> OutcomeView {
    match end {
        JobEnd::Exited { code } => {
            let c = match code {
                Some(n) => n,
                None => -1i32,
            };
            OutcomeView {
                message: MessageView::Done(c),
                exit_code: Some(c),
                status: StatusView::Completed(c),
            }
        },
        JobEnd::WaitFailed { error } => OutcomeView {
            message: MessageView::Error(error@),
            exit_code: None,
            status: StatusView::Failed(error@),
        },
        JobEnd::Stopped => OutcomeView {
            message: MessageView::Killed,
            exit_code: Some(-9i32),
            status: StatusView::Killed,
        },
        JobEnd::WalltimeExceeded => OutcomeView {
            message: MessageView::Error("Walltime exceeded"@),
            exit_code: None,
            status: StatusView::Failed("Walltime exceeded"@),
        },
    }
}

pub fn job_outcome(end: JobEnd) -> (r: JobOutcome)
    ensures
        outcome_view(r) == outcome_of(end),
        match end {
            JobEnd::Exited { code } => {
                let c = match code {
                    Some(n) => n,
                    None => -1i32,
                };
                &&& r.message == (EndMessage::Done { exit_code: c })
                &&& r.exit_code == Some(c)
                &&& r.status@ == StatusView::Completed(c)
            },
            JobEnd::WaitFailed { error } => {
                &&& end_message_text(r.message) == Some(error@)
                &&& r.exit_code is None
                &&& r.status@ == StatusView::Failed(error@)
            },
            JobEnd::Stopped => {
                &&& r.message is Killed
                &&& r.exit_code == Some(-9i32)
                &&& r.status@ == StatusView::Killed
            },
            JobEnd::WalltimeExceeded => {
                &&& end_message_text(r.message) == Some("Walltime exceeded"@)
                &&& r.exit_code is None
                &&& r.status@ == StatusView::Failed("Walltime exceeded"@)
            },
        },
{
    match end {
        JobEnd::Exited { code } => {
            let c: i32 = match code {
                Some(n) => n,
                None => -1,
            };
            JobOutcome {
                message: EndMessage::Done { exit_code: c },
                exit_code: Some(c),
                status: JobStatus::Completed(c),
            }
        },
        JobEnd::WaitFailed { error } => JobOutcome {
            message: EndMessage::Error { error: error.clone() },
            exit_code: None,
            status: JobStatus::Failed(error),
        },
        JobEnd::Stopped => JobOutcome {
            message: EndMessage::Killed,
            exit_code: Some(-9),
            status: JobStatus::Killed,
        },
        JobEnd::WalltimeExceeded => JobOutcome {
            message: EndMessage::Error { error: "Walltime exceeded".to_owned() },
            exit_code: None,
            status: JobStatus::Failed("Walltime exceeded".to_owned()),
        },
    }
}

/// What to do to a job's processes.
#[derive(Debug, Clone, Copy, PartialEq, Eq, Structural)]
pub enum StopStep {
    /// Kill them at once.
    Kill,
    /// Ask them to end, and wait this many seconds.
    Ask { wait_seconds: u64 },
    /// They have ended.
    Ended,
}

/// The first step of stopping a job.
pub open spec fn first_stop(signal: Option<KillSignal>) -> StopStep {
    match signal {
        Some(KillSignal::Preempt) => StopStep::Ask { wait_seconds: 5 },
        _ => StopStep::Kill,
    }
}

/// The step after the job has been asked to end.
pub open spec fn next_stop(ended: bool) -> StopStep {
    if ended {
        StopStep::Ended
    } else {
        StopStep::Kill
    }
}

/// The first step of stopping a job. Where the request itself was lost, the job is cancelled.
pub fn stop_job(signal: Option<KillSignal>) -> (r: StopStep)
    ensures
        r == first_stop(signal),
        r == (match signal {
            Some(KillSignal::Preempt) => StopStep::Ask { wait_seconds: 5 },
            _ => StopStep::Kill,
        }),
{
    match signal {
        Some(KillSignal::Preempt) => StopStep::Ask { wait_seconds: 5 },
        _ => StopStep::Kill,
    }
}

/// The step after the job has been asked to end.
pub fn after_asking(ended: bool) -> (r: StopStep)
    ensures
        r == next_stop(ended),
        r == (if ended {
            StopStep::Ended
        } else {
            StopStep::Kill
        }),
{
    if ended {
        StopStep::Ended
    } else {
        StopStep::Kill
    }
}

/// The limit on a job's memory in bytes, where it is not held by a control group.
pub open spec fn bytes_limit(req_memory_mb: u64, held_by_cgroup: bool) -> Option<u64> {
    if held_by_cgroup || req_memory_mb == 0 {
        None
    } else {
        Some(crate::resources::saturated(req_memory_mb * (1024 * 1024)))
    }
}

pub fn memory_limit(req_memory_mb: u64, held_by_cgroup: bool) -> (r: Option<u64>)
    ensures
        r == bytes_limit(req_memory_mb, held_by_cgroup),
        r is Some <==> !held_by_cgroup && req_memory_mb > 0,
        r is Some ==> r->0 == crate::resources::saturated(req_memory_mb * (1024 * 1024)),
{
    if held_by_cgroup || req_memory_mb == 0 {
        return None;
    }
    Some(
        match req_memory_mb.checked_mul(1048576) {
            Some(b) => b,
            None => u64::MAX,
        },
    )
}

/// The process group that the system reports, or 0 where it reports none.
pub fn known_group(reported: i32) -> (r: u32)
    ensures
        r == (if reported > 0 {
            reported as int
        } else {
            0
        }),
{
    if reported > 0 {
        reported as u32
    } else {
        0
    }
}

/// A working directory is kept after its job, unless it is the root, the directory for temporary
/// files, or none.
pub open spec fn kept_after(working_directory: Seq<char>) -> bool {
    drop_trailing(working_directory, '/') != "/tmp"@ && drop_trailing(working_directory, '/').len()
        > 0 && working_directory != "/"@
}

/// A job's working directory is kept after it, unless it is the root, the directory for
/// temporary files, or none.
pub fn keeps_working_directory(working_directory: &str) -> (r: bool)
    ensures
        r == kept_after(working_directory@),
        r == (drop_trailing(working_directory@, '/') != "/tmp"@ && drop_trailing(
            working_directory@,
            '/',
        ).len() > 0 && working_directory@ != "/"@),
{
    let t: String = trim_end_char(working_directory, '/');
    !str_eq(&t, "/tmp") && !t.as_str().is_empty() && !str_eq(working_directory, "/")
}

/// The name of the archive of a job's working directory.
pub fn archive_name(job_id: u64) -> (r: String)
    ensures
        r@ == archive_of(job_id),
        r@ == "veloce_job_"@ + decimal(job_id as nat) + "_workdir.tar.gz"@,
{
    let mut r: String = "veloce_job_".to_owned();
    r.append(&decimal_u64(job_id));
    r.append("_workdir.tar.gz");
    r
}

/// A command as one line.
pub open spec fn command_line(binary: Seq<char>, args: Seq<Seq<char>>) -> Seq<char> {
    binary + " "@ + joined(args, " "@)
}

pub fn command_line_text(binary: &str, args: &Vec<String>) -> (r: String)
    ensures
        r@ == command_line(binary@, texts(args@)),
{
    let mut r: String = binary.to_owned();
    r.append(" ");
    r.append(&join(args, " "));
    r
}

/// How a script of the site is reported that ended with this code, if it failed.
pub open spec fn script_error(path: Seq<char>, code: Option<i32>) -> Seq<char> {
    "Script "@ + path + " failed with exit code "@ + (match code {
        Some(c) => "Some("@ + decimal_int(c as int) + ")"@,
        None => "None"@,
    })
}

pub fn script_result(path: &str, code: Option<i32>) -> (r: Result<(), String>)
    ensures
        r is Ok <==> code == Some(0i32),
        r matches Err(e) ==> e@ == script_error(path@, code),
{
    let mut tail: String = match code {
        Some(c) => {
            if c == 0 {
                return Ok(());
            }
            let mut t: String = "Some(".to_owned();
            t.append(&decimal_i64(c as i64));
            t.append(")");
            t
        },
        None => "None".to_owned(),
    };
    let mut e: String = "Script ".to_owned();
    e.append(path);
    e.append(" failed with exit code ");
    e.append(&tail);
    Err(e)
}

/// How a process of a step came to its end.
#[derive(Debug, Clone, Copy, PartialEq, Eq, Structural)]
pub enum RankEnd {
    Exited { code: Option<i32> },
    WaitFailed,
    /// The step was asked to stop while this process was waited for.
    Stopped,
}

/// The code that the first `n` ends leave behind: that of the last process that failed.
pub open spec fn last_failure(ends: Seq<RankEnd>, n: int) -> int
    decreases n,
{
    if n <= 0 {
        0
    } else {
        match ends[n - 1] {
            RankEnd::Exited { code: Some(c) } => if c != 0 {
                c as int
            } else {
                last_failure(ends, n - 1)
            },
            _ => -1,
        }
    }
}

/// The code of a step: -1 where it was stopped, 0 where every process succeeded, and otherwise
/// that of the last process that did not.
pub open spec fn step_code(ends: Seq<RankEnd>) -> int
{
    if exists|i: int| 0 <= i < ends.len() && #[trigger] ends[i] == RankEnd::Stopped {
        -1
    } else {
        last_failure(ends, ends.len() as int)
    }
}

/// The exit code of a step from the ends of its processes, in the order in which they were
/// waited for. After a stop none is waited for any more.
pub fn step_exit_code(ends: &Vec<RankEnd>) -> (r: i32)
    ensures
        r == step_code(ends@),
{
    let mut code: i32 = 0;
    let mut i: usize = 0;
    while i < ends.len()
        invariant
            i <= ends@.len(),
            code == last_failure(ends@, i as int),
            forall|k: int| 0 <= k < i ==> #[trigger] ends@[k] != RankEnd::Stopped,
        decreases ends@.len() - i,
    {
        match ends[i] {
            RankEnd::Stopped => {
                assert(ends@[i as int] == RankEnd::Stopped);
                return -1;
            },
            RankEnd::WaitFailed => {
                code = -1;
            },
            RankEnd::Exited { code: c } => {
                match c {
                    Some(n) => {
                        if n != 0 {
                            code = n;
                        }
                    },
                    None => {
                        code = -1;
                    },
                }
            },
        }
        i = i + 1;
    }
    code
}

proof fn lemma_no_failure(ends: Seq<RankEnd>, n: int)
    requires
        0 <= n <= ends.len(),
    ensures
        last_failure(ends, n) == 0 <==> forall|i: int|
            0 <= i < n ==> #[trigger] ends[i] == (RankEnd::Exited { code: Some(0i32) }),
    decreases n,
{
    if n > 0 {
        lemma_no_failure(ends, n - 1);
    }
}

/// A step succeeds exactly when every one of its processes exited with 0.
pub proof fn law_step_succeeds_iff_every_rank_does(ends: Seq<RankEnd>)
    ensures
        step_code(ends) == 0 <==> forall|i: int|
            0 <= i < ends.len() ==> #[trigger] ends[i] == (RankEnd::Exited { code: Some(0i32) }),
{
    lemma_no_failure(ends, ends.len() as int);
    if exists|i: int| 0 <= i < ends.len() && #[trigger] ends[i] == RankEnd::Stopped {
        let i = choose|i: int| 0 <= i < ends.len() && #[trigger] ends[i] == RankEnd::Stopped;
        assert(ends[i] != (RankEnd::Exited { code: Some(0i32) }));
    }
}

/// A job can read its nodes out of its variables, the first of which is its master; it learns its
/// number, how many nodes it has, where it runs, its host file under every name by which programs
/// look for it, and who submitted it. It learns of units and of an array exactly where there are
/// any.
pub proof fn law_jobs_learn_about_themselves(f: JobFacts, gres: Option<Seq<char>>)
    ensures
        ({
            let e = job_env(f, gres);
            &&& f.node_list@.len() > 0 && (forall|i: int|
                0 <= i < f.node_list@.len() ==> !(#[trigger] f.node_list@[i])@.contains(',')) ==> {
                &&& crate::pieces::split_on(e["VELOCE_NODES"@], ',') == texts(f.node_list@)
                &&& e["VELOCE_MASTER_ADDR"@] == crate::pieces::split_on(e["VELOCE_NODES"@], ',')[0]
            }
            &&& crate::numbers::read_nat(e["VELOCE_JOB_ID"@]) == Some(f.job_id as nat)
            &&& crate::numbers::read_nat(e["VELOCE_NODE_COUNT"@]) == Some(f.node_list@.len())
            &&& e["VELOCE_WORKING_DIR"@] == f.working_directory@
            &&& e["VELOCE_HOSTFILE"@] == f.hostfile_path@
            &&& e["OMPI_MCA_orte_default_hostfile"@] == f.hostfile_path@
            &&& e["HYDRA_HOST_FILE"@] == f.hostfile_path@
            &&& e["VELOCE_SUBMITTING_USER"@] == f.user_id@
            &&& e.contains_key("VELOCE_ALLOCATED_GRES"@) <==> gres is Some
            &&& gres is Some ==> e["VELOCE_ALLOCATED_GRES"@] == gres->0
            &&& e.contains_key("VELOCE_ARRAY_JOB_ID"@) <==> f.array_id is Some
            &&& f.array_id is Some ==> crate::numbers::read_nat(e["VELOCE_ARRAY_JOB_ID"@]) == Some(
                f.array_id->0 as nat,
            )
            &&& e.contains_key("VELOCE_ARRAY_TASK_ID"@) <==> f.array_task_id is Some
            &&& f.array_task_id is Some ==> crate::numbers::read_nat(e["VELOCE_ARRAY_TASK_ID"@])
                == Some(f.array_task_id->0 as nat)
        }),
{
    reveal_strlit("VELOCE_NODES");
    reveal_strlit("VELOCE_JOB_ID");
    reveal_strlit("VELOCE_NODE_COUNT");
    reveal_strlit("VELOCE_MASTER_ADDR");
    reveal_strlit("VELOCE_WORKING_DIR");
    reveal_strlit("VELOCE_HOSTFILE");
    reveal_strlit("OMPI_MCA_orte_default_hostfile");
    reveal_strlit("HYDRA_HOST_FILE");
    reveal_strlit("VELOCE_SUBMITTING_USER");
    reveal_strlit("VELOCE_ALLOCATED_GRES");
    reveal_strlit("VELOCE_ARRAY_JOB_ID");
    reveal_strlit("VELOCE_ARRAY_TASK_ID");
    assert("VELOCE_NODES"@.len() == 12);
    assert("VELOCE_JOB_ID"@.len() == 13);
    assert("VELOCE_NODE_COUNT"@.len() == 17);
    assert("VELOCE_MASTER_ADDR"@.len() == 18);
    assert("VELOCE_WORKING_DIR"@.len() == 18);
    assert("VELOCE_HOSTFILE"@.len() == 15);
    assert("OMPI_MCA_orte_default_hostfile"@.len() == 30);
    assert("HYDRA_HOST_FILE"@.len() == 15);
    assert("VELOCE_SUBMITTING_USER"@.len() == 22);
    assert("VELOCE_ALLOCATED_GRES"@.len() == 21);
    assert("VELOCE_ARRAY_JOB_ID"@.len() == 19);
    assert("VELOCE_ARRAY_TASK_ID"@.len() == 20);
    assert("VELOCE_MASTER_ADDR"@[7] != "VELOCE_WORKING_DIR"@[7]);
    assert("VELOCE_HOSTFILE"@[0] != "HYDRA_HOST_FILE"@[0]);
    reveal_strlit(",");
    let e = job_env(f, gres);
    crate::numbers::law_read_undoes_decimal(f.job_id as nat);
    crate::numbers::law_read_undoes_decimal(f.node_list@.len());
    if let Some(id) = f.array_id {
        crate::numbers::law_read_undoes_decimal(id as nat);
    }
    if let Some(id) = f.array_task_id {
        crate::numbers::law_read_undoes_decimal(id as nat);
    }
    let t = texts(f.node_list@);
    if f.node_list@.len() > 0 && (forall|i: int|
        0 <= i < f.node_list@.len() ==> !(#[trigger] f.node_list@[i])@.contains(',')) {
        assert forall|i: int| 0 <= i < t.len() implies !(#[trigger] t[i]).contains(',') by {
            assert(t[i] == f.node_list@[i]@);
        }
        assert(","@ =~= seq![',']);
        crate::pieces::law_split_undoes_join(t, ',');
        assert(e["VELOCE_NODES"@] == joined(t, seq![',']));
        assert(t[0] == f.node_list@[0]@);
    }
}

/// A node that is given with its port is known by what stands before the port, and one without a
/// port by all of it.
pub proof fn law_hosts_are_named_without_ports(host: Seq<char>, port: Seq<char>)
    requires
        !port.contains(':'),
    ensures
        host_of(host + seq![':'] + port) == host,
        host_of(port) == port,
{
    crate::text::law_last_is_found(host, ':', port);
    assert(host + seq![':'] + port =~= host.push(':') + port);
    assert((host.push(':') + port).take(host.len() as int) =~= host);
}

/// A host file has one line for each node, in order: its host, and behind it what every line ends
/// with.
pub proof fn law_host_files_have_a_line_per_node(nodes: Seq<String>, rest: Seq<char>, n: int)
    requires
        0 <= n <= nodes.len(),
        !rest.contains('\n'),
        forall|i: int| 0 <= i < nodes.len() ==> !host_of((#[trigger] nodes[i])@).contains('\n'),
    ensures
        ({
            let lines = crate::pieces::split_on(host_lines(nodes, rest + "\n"@, n), '\n');
            &&& lines.len() == n + 1
            &&& forall|i: int| 0 <= i < n ==> #[trigger] lines[i] == host_of(nodes[i]@) + rest
            &&& lines[n].len() == 0
        }),
    decreases n,
{
    reveal_strlit("\n");
    let tail = rest + "\n"@;
    let all = host_lines(nodes, tail, n);
    let none = Seq::<char>::empty();
    if n == 0 {
        assert(!none.contains('\n'));
        crate::pieces::law_split_of_one_piece(none, '\n');
    } else {
        law_host_files_have_a_line_per_node(nodes, rest, n - 1);
        let before = host_lines(nodes, tail, n - 1);
        let line = host_of(nodes[n - 1]@) + rest;
        assert(!line.contains('\n')) by {
            if line.contains('\n') {
                let i = choose|i: int| 0 <= i < line.len() && line[i] == '\n';
                let host = host_of(nodes[n - 1]@);
                if i < host.len() {
                    assert(host[i] == '\n');
                } else {
                    assert(rest[i - host.len()] == '\n');
                }
            }
        }
        assert(all =~= (before + line).push('\n') + none);
        assert(!none.contains('\n'));
        crate::pieces::law_split_at_the_end(before + line, '\n', none);
        if n == 1 {
            assert(before + line =~= line);
            crate::pieces::law_split_of_one_piece(line, '\n');
        } else {
            let cut = before.drop_last();
            assert(before.last() == '\n');
            assert(before =~= cut.push('\n') + none);
            crate::pieces::law_split_at_the_end(cut, '\n', none);
            assert(before + line =~= cut.push('\n') + line);
            crate::pieces::law_split_at_the_end(cut, '\n', line);
        }
        let lines = crate::pieces::split_on(all, '\n');
        let old_lines = crate::pieces::split_on(before, '\n');
        assert forall|i: int| 0 <= i < n implies #[trigger] lines[i] == host_of(nodes[i]@)
            + rest by {
            if i < n - 1 {
                assert(lines[i] == old_lines[i]);
            }
        }
    }
}

/// A worker's place in a list is that of its first mention, and the first place where it is not
/// mentioned.
pub proof fn law_workers_are_found_in_their_place(nodes: Seq<String>, worker_id: Seq<char>, i: int)
    ensures
        0 <= i < nodes.len() && nodes[i]@ == worker_id && (forall|k: int|
            0 <= k < i ==> (#[trigger] nodes[k])@ != worker_id) ==> position_in(nodes, worker_id, 0)
            == i,
        (forall|k: int| 0 <= k < nodes.len() ==> (#[trigger] nodes[k])@ != worker_id)
            ==> position_in(nodes, worker_id, 0) == 0,
{
    if 0 <= i < nodes.len() && nodes[i]@ == worker_id && (forall|k: int|
        0 <= k < i ==> (#[trigger] nodes[k])@ != worker_id) {
        lemma_position(nodes, worker_id, 0, i);
    }
    if forall|k: int| 0 <= k < nodes.len() ==> (#[trigger] nodes[k])@ != worker_id {
        lemma_no_position(nodes, worker_id, 0);
    }
}

proof fn lemma_position(nodes: Seq<String>, worker_id: Seq<char>, from: int, i: int)
    requires
        0 <= from <= i < nodes.len(),
        nodes[i]@ == worker_id,
        forall|k: int| 0 <= k < i ==> (#[trigger] nodes[k])@ != worker_id,
    ensures
        position_in(nodes, worker_id, from) == i,
    decreases i - from,
{
    if from < i {
        assert(nodes[from]@ != worker_id);
        lemma_position(nodes, worker_id, from + 1, i);
    }
}

proof fn lemma_no_position(nodes: Seq<String>, worker_id: Seq<char>, from: int)
    requires
        0 <= from,
        forall|k: int| 0 <= k < nodes.len() ==> (#[trigger] nodes[k])@ != worker_id,
    ensures
        position_in(nodes, worker_id, from) == 0,
    decreases nodes.len() - from,
{
    if from < nodes.len() {
        assert(nodes[from]@ != worker_id);
        lemma_no_position(nodes, worker_id, from + 1);
    }
}

/// A job that says its rank and its size has them; one that says neither has the place of its
/// worker and the number of its nodes.
pub proof fn law_given_ranks_go_before_places(
    env: Map<Seq<char>, Seq<char>>,
    nodes: Seq<String>,
    worker_id: Seq<char>,
    n: u64,
)
    ensures
        env.contains_key("VELOCE_RANK"@) && env["VELOCE_RANK"@] == decimal(n as nat) ==> rank_in(
            env,
            nodes,
            worker_id,
        ) == n,
        env.contains_key("VELOCE_SIZE"@) && env["VELOCE_SIZE"@] == decimal(n as nat) ==> size_in(
            env,
            nodes,
        ) == n,
        !env.contains_key("VELOCE_RANK"@) ==> rank_in(env, nodes, worker_id) == position_in(
            nodes,
            worker_id,
            0,
        ),
        !env.contains_key("VELOCE_SIZE"@) ==> size_in(env, nodes) == nodes.len(),
{
    crate::numbers::law_read_undoes_decimal(n as nat);
}

/// The port of a job is the number that its variable gives first, where it is one of a port.
pub proof fn law_ports_are_read(
    before: Seq<(Seq<char>, Seq<char>)>,
    n: u32,
    after: Seq<(Seq<char>, Seq<char>)>,
)
    requires
        forall|i: int|
            0 <= i < before.len() ==> (#[trigger] before[i]).0 != "VELOCE_INTERACTIVE_PORT"@,
    ensures
        ({
            let pair = ("VELOCE_INTERACTIVE_PORT"@, decimal(n as nat));
            &&& n <= 65535 ==> port_in(before.push(pair) + after) == Some(n as u16)
            &&& n > 65535 ==> port_in(before.push(pair) + after) is None
            &&& port_in(before) is None
        }),
    decreases before.len(),
{
    crate::numbers::law_read_undoes_decimal(n as nat);
    let name = "VELOCE_INTERACTIVE_PORT"@;
    let pair = (name, decimal(n as nat));
    if before.len() == 0 {
        assert((before.push(pair) + after)[0] == pair);
    } else {
        let rest = before.skip(1);
        assert forall|i: int| 0 <= i < rest.len() implies (#[trigger] rest[i]).0 != name by {
            assert(rest[i] == before[i + 1]);
        }
        law_ports_are_read(rest, n, after);
        assert((before.push(pair) + after).skip(1) =~= rest.push(pair) + after);
        assert((before.push(pair) + after)[0] == before[0]);
    }
}

/// The name of a rank's log says the job, the step, the rank and the stream, and these can be read
/// out of it.
pub proof fn law_rank_logs_tell_whose_they_are(job_id: u64, step_id: u32, rank: u32, errors: bool)
    ensures
        crate::pieces::split_on(rank_log(job_id, step_id, rank, errors), '-') == seq![
            decimal(job_id as nat),
            "step"@,
            decimal(step_id as nat),
            "rank"@,
            decimal(rank as nat),
            if errors {
                "stderr.log"@
            } else {
                "stdout.log"@
            },
        ],
{
    reveal_strlit("step");
    reveal_strlit("rank");
    reveal_strlit("-step-");
    reveal_strlit("-rank-");
    reveal_strlit("stderr.log");
    reveal_strlit("stdout.log");
    reveal_strlit("-stderr.log");
    reveal_strlit("-stdout.log");
    let j = decimal(job_id as nat);
    let s = decimal(step_id as nat);
    let r = decimal(rank as nat);
    let e = if errors {
        "stderr.log"@
    } else {
        "stdout.log"@
    };
    lemma_no_dash(job_id as nat);
    lemma_no_dash(step_id as nat);
    lemma_no_dash(rank as nat);
    crate::pieces::law_split_of_one_piece(j, '-');
    let t1 = j.push('-') + "step"@;
    crate::pieces::law_split_at_the_end(j, '-', "step"@);
    let t2 = t1.push('-') + s;
    crate::pieces::law_split_at_the_end(t1, '-', s);
    let t3 = t2.push('-') + "rank"@;
    crate::pieces::law_split_at_the_end(t2, '-', "rank"@);
    let t4 = t3.push('-') + r;
    crate::pieces::law_split_at_the_end(t3, '-', r);
    let t5 = t4.push('-') + e;
    crate::pieces::law_split_at_the_end(t4, '-', e);
    assert(j + "-step-"@ =~= t1.push('-'));
    assert(t2 =~= j + "-step-"@ + s);
    assert(t2 + "-rank-"@ =~= t3.push('-'));
    assert(t4 =~= t2 + "-rank-"@ + r);
    assert(rank_log(job_id, step_id, rank, errors) =~= t5);
}

proof fn lemma_no_dash(n: nat)
    ensures
        !decimal(n).contains('-'),
{
    crate::numbers::lemma_decimal_digits(n);
    if decimal(n).contains('-') {
        let i = choose|i: int| 0 <= i < decimal(n).len() && decimal(n)[i] == '-';
        assert(crate::numbers::is_digit(decimal(n)[i]));
    }
}

/// What is sent when a job has ended says the same as what goes on record. A job that exits is done
/// with its code, one that a signal ended with -1; what went wrong is told as it was found.
pub proof fn law_ends_are_told_as_they_are_recorded(end: JobEnd)
    ensures
        ({
            let o = outcome_of(end);
            &&& match o.message {
                MessageView::Done(code) => o.exit_code == Some(code) && o.status
                    == StatusView::Completed(code),
                MessageView::Error(error) => o.exit_code is None && o.status == StatusView::Failed(
                    error,
                ),
                MessageView::Killed => o.exit_code == Some(-9i32) && o.status
                    == StatusView::Killed,
            }
            &&& end is Exited <==> o.message is Done
            &&& end is Stopped <==> o.message is Killed
            &&& end matches JobEnd::Exited { code: Some(c) } ==> o.message == MessageView::Done(c)
            &&& end matches JobEnd::Exited { code: None } ==> o.message == MessageView::Done(-1i32)
            &&& end matches JobEnd::WaitFailed { error } ==> o.message == MessageView::Error(
                error@,
            )
            &&& end is WalltimeExceeded ==> o.message == MessageView::Error("Walltime exceeded"@)
        }),
{
}

/// Only a job that is preempted is given time to end by itself; it is killed if it has not ended
/// then. Any other is killed at once.
pub proof fn law_only_preempted_jobs_are_given_time(signal: Option<KillSignal>, ended: bool)
    ensures
        first_stop(signal) is Ask <==> signal == Some(KillSignal::Preempt),
        first_stop(signal) is Kill <==> signal != Some(KillSignal::Preempt),
        first_stop(signal) matches StopStep::Ask { wait_seconds } ==> wait_seconds == 5,
        next_stop(ended) is Ended <==> ended,
        next_stop(ended) is Kill <==> !ended,
{
}

/// A job may run for as long as it was given, and one that was given no limit for a hundred years.
pub proof fn law_jobs_run_for_their_time(walltime: u64)
    ensures
        walltime >= 1 ==> time_limit(walltime) == walltime,
        walltime == 0 ==> time_limit(walltime) == 100 * 365 * 24 * 3600,
{
}

/// A job that no control group holds is held to the memory that it asked for; one that asked for
/// none is not.
pub proof fn law_memory_is_held_once(req_memory_mb: u64, held_by_cgroup: bool)
    ensures
        held_by_cgroup ==> bytes_limit(req_memory_mb, held_by_cgroup) is None,
        req_memory_mb == 0 ==> bytes_limit(req_memory_mb, held_by_cgroup) is None,
        !held_by_cgroup && req_memory_mb >= 1 && req_memory_mb * 1048576 <= u64::MAX
            ==> bytes_limit(req_memory_mb, held_by_cgroup) == Some((req_memory_mb * 1048576) as u64),
{
}

/// A working directory is given up only if it is that for temporary files or none at all; what lies
/// below it is kept.
pub proof fn law_directories_below_are_kept(name: Seq<char>)
    requires
        name.len() > 0 && name.last() != '/',
    ensures
        kept_after("/tmp/"@ + name),
        !kept_after("/tmp"@),
        !kept_after("/tmp/"@),
        !kept_after("/"@),
        !kept_after(Seq::<char>::empty()),
        name != "/tmp"@ ==> kept_after(name),
{
    reveal_strlit("/tmp/");
    reveal_strlit("/tmp");
    reveal_strlit("/");
    let below = "/tmp/"@ + name;
    assert(below.last() == name.last());
    assert(drop_trailing(below, '/') == below);
    assert(below.len() > 5 && "/tmp"@.len() == 4);
    assert("/tmp/"@.drop_last() =~= "/tmp"@);
    assert("/tmp"@.last() == 'p');
    assert(drop_trailing("/tmp/"@, '/') == drop_trailing("/tmp"@, '/'));
    assert("/"@.drop_last() =~= Seq::<char>::empty());
    assert(drop_trailing(name, '/') == name);
    if name == "/"@ {
        assert(name.last() == '/');
    }
}

/// A site's script that failed is told by its path, and by its code where it has one.
pub proof fn law_failed_scripts_are_told(path: Seq<char>, code: i32)
    ensures
        crate::text::has_text(script_error(path, Some(code)), path),
        crate::text::has_text(script_error(path, Some(code)), decimal_int(code as int)),
        script_error(path, None) == "Script "@ + path + " failed with exit code "@ + "None"@,
{
    let a = "Script "@;
    let m = " failed with exit code "@;
    let d = decimal_int(code as int);
    let t = "Some("@ + d + ")"@;
    assert(a + path + m + t =~= a + path + (m + t));
    crate::text::lemma_holds(a, path, m + t);
    assert(a + path + m + t =~= (a + path + m + "Some("@) + d + ")"@);
    crate::text::lemma_holds(a + path + m + "Some("@, d, ")"@);
}

/// The units of a job are those that its list gives, each under its name.
pub proof fn law_units_go_by_name(list: Seq<GresEntry>, i: int)
    requires
        0 <= i < list.len(),
        distinct_gres(list),
    ensures
        gres_map(list).contains_key(list[i].name@),
        gres_map(list)[list[i].name@] == list[i].ids@,
    decreases list.len(),
{
    let front = list.drop_last();
    if i < front.len() {
        assert(distinct_gres(front)) by {
            assert forall|a: int, b: int| 0 <= a < b < front.len() implies (#[trigger] front[a]).name@
                != (#[trigger] front[b]).name@ by {
                assert(list[a].name@ != list[b].name@);
            }
        }
        law_units_go_by_name(front, i);
        assert(front[i] == list[i]);
        assert(list[i].name@ != list[list.len() - 1].name@);
    }
}

/// The command line of a job can be taken apart again into its program and its arguments.
pub proof fn law_commands_are_told_in_one_line(binary: Seq<char>, args: Seq<Seq<char>>)
    requires
        crate::pieces::is_word(binary),
        args.len() > 0,
        forall|i: int| 0 <= i < args.len() ==> crate::pieces::is_word(#[trigger] args[i]),
    ensures
        crate::pieces::words(command_line(binary, args)) == seq![binary] + args,
{
    reveal_strlit(" ");
    assert(" "@ =~= seq![' ']);
    lemma_joined_front(binary, args);
    let all = seq![binary] + args;
    assert forall|i: int| 0 <= i < all.len() implies crate::pieces::is_word(#[trigger] all[i]) by {
        if i > 0 {
            assert(all[i] == args[i - 1]);
        }
    }
    crate::pieces::law_words_are_read(all);
}

proof fn lemma_joined_front(binary: Seq<char>, args: Seq<Seq<char>>)
    requires
        args.len() > 0,
    ensures
        joined(seq![binary] + args, seq![' ']) == binary + seq![' '] + joined(args, seq![' ']),
    decreases args.len(),
{
    let all = seq![binary] + args;
    let sep = seq![' '];
    if args.len() == 1 {
        assert(all.drop_last() =~= seq![binary]);
        assert(joined(seq![binary], sep) == binary);
        assert(all.last() == args[0]);
    } else {
        let front = args.drop_last();
        lemma_joined_front(binary, front);
        assert(all.drop_last() =~= seq![binary] + front);
        assert(all.last() == args.last());
        let t = joined(front, sep);
        assert(binary + sep + t + sep + args.last() =~= binary + sep + (t + sep + args.last()));
    }
}

/// The files beside a job are named after it: those of different jobs, and of different steps of
/// one, have different names.
pub proof fn law_files_are_named_after_their_job(a: u64, b: u64, s: u32, t: u32)
    ensures
        hosts_name(a) == hosts_name(b) ==> a == b,
        archive_of(a) == archive_of(b) ==> a == b,
        step_hosts_name(a, s) == step_hosts_name(a, t) ==> s == t,
        crate::text::has_text(hosts_name(a), "_"@ + decimal(a as nat) + "."@),
        crate::text::has_text(archive_of(a), "_"@ + decimal(a as nat) + "_"@),
        crate::text::has_text(
            step_hosts_name(a, s),
            "_"@ + decimal(a as nat) + "_"@ + decimal(s as nat) + "."@,
        ),
        crate::text::has_suffix(archive_of(a), ".tar.gz"@),
        crate::text::has_suffix(hosts_name(a), ".txt"@),
{
    reveal_strlit("veloce_hostfile_");
    reveal_strlit("veloce_hostfile");
    reveal_strlit("veloce_job_");
    reveal_strlit("veloce_job");
    reveal_strlit("_workdir.tar.gz");
    reveal_strlit("workdir.tar.gz");
    reveal_strlit("_workdir");
    reveal_strlit(".tar.gz");
    reveal_strlit(".txt");
    reveal_strlit("txt");
    reveal_strlit("_");
    reveal_strlit(".");
    let h = "veloce_hostfile_"@;
    let d = decimal(a as nat);
    lemma_named(h, a as nat, b as nat, ".txt"@);
    lemma_named("veloce_job_"@, a as nat, b as nat, "_workdir.tar.gz"@);
    lemma_named(h + d + "_"@, s as nat, t as nat, ".txt"@);
    assert(hosts_name(a) =~= "veloce_hostfile"@ + ("_"@ + d + "."@) + "txt"@);
    crate::text::lemma_holds("veloce_hostfile"@, "_"@ + d + "."@, "txt"@);
    assert(archive_of(a) =~= "veloce_job"@ + ("_"@ + d + "_"@) + "workdir.tar.gz"@);
    crate::text::lemma_holds("veloce_job"@, "_"@ + d + "_"@, "workdir.tar.gz"@);
    let e = decimal(s as nat);
    assert(step_hosts_name(a, s) =~= "veloce_hostfile"@ + ("_"@ + d + "_"@ + e + "."@) + "txt"@);
    crate::text::lemma_holds("veloce_hostfile"@, "_"@ + d + "_"@ + e + "."@, "txt"@);
    assert(archive_of(a) =~= ("veloce_job_"@ + d + "_workdir"@) + ".tar.gz"@);
    crate::text::lemma_ends_with("veloce_job_"@ + d + "_workdir"@, ".tar.gz"@);
    crate::text::lemma_ends_with(h + d, ".txt"@);
}

proof fn lemma_named(p: Seq<char>, a: nat, b: nat, q: Seq<char>)
    ensures
        p + decimal(a) + q == p + decimal(b) + q ==> a == b,
{
    let x = p + decimal(a) + q;
    let y = p + decimal(b) + q;
    if x == y {
        assert(x.len() == y.len());
        assert(x.subrange(p.len() as int, x.len() - q.len()) =~= decimal(a));
        assert(y.subrange(p.len() as int, y.len() - q.len()) =~= decimal(b));
        crate::numbers::law_decimal_is_injective(a, b);
    }
}

/// A host has as many slots as cores were assigned, and one where nothing was said.
pub proof fn law_slots_are_the_assigned_cores(n: usize)
    ensures
        slots_for(Some(n)) == n,
        slots_for(None) == 1,
{
}

} // verus!
