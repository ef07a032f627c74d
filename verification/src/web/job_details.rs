//! The page of one job.

use vstd::prelude::*;

use crate::json::json_field_of;
use crate::json::new_job_id;
use crate::json::number_in;
use crate::model::JobStatus;
use crate::model::StatusView;
use crate::numbers::decimal;
use crate::numbers::decimal_u32;
use crate::numbers::decimal_u64;
use crate::numbers::decimal_usize;
use crate::numbers::law_read_undoes_decimal;
use crate::numbers::parse_u64;
use crate::numbers::parsed_u64;
use crate::pieces::char_from;
use crate::pieces::find_char;
use crate::pieces::split_whitespace;
use crate::pieces::words;
use crate::text::copy_texts;
use crate::text::occurs_at;
use crate::text::optional_text;
use crate::text::find;
use crate::text::first_at;
use crate::text::lemma_first_at;
use crate::text::lemma_texts_push;
use crate::text::skip_chars;
use crate::text::str_eq;
use crate::text::take_chars;
use crate::text::texts;
use crate::web::api::is_ok;
use crate::web::api::ok;
use crate::web::format::format_megabytes;
use crate::web::format::megabytes_text;
use crate::web::info::ContainerRef;
use crate::web::info::JobInfo;
use crate::web::info::MpiStats;
use crate::web::jobs::job_href;
use crate::web::jobs::job_path;
use crate::web::jobs::list_numbers;
use crate::web::jobs::numbers_listed;

verus! {

/// Where a job is asked for.
pub open spec fn endpoint(id: Seq<char>) -> Seq<char> {
    "/api/v1/jobs/"@ + id
}

pub fn job_endpoint(id: &str) -> (r: String)
    ensures
        r@ == endpoint(id@),
{
    let mut r: String = "/api/v1/jobs/".to_string();
    r.append(id);
    r
}

/// Where something that belongs to a job is asked for.
pub open spec fn child_endpoint(id: Seq<char>, child: Seq<char>) -> Seq<char> {
    endpoint(id) + "/"@ + child
}

pub fn job_child_endpoint(id: &str, child: &str) -> (r: String)
    ensures
        r@ == child_endpoint(id@, child@),
{
    let mut r: String = job_endpoint(id);
    r.append("/");
    r.append(child);
    r
}

/// Where the output of one rank is asked for.
pub fn logs_url(id: &str, log_type: &str, rank: usize) -> (r: String)
    ensures
        r@ == child_endpoint(id@, "logs"@) + "?type="@ + log_type@ + "&rank="@ + decimal(
            rank as nat,
        ),
{
    let mut r: String = job_child_endpoint(id, "logs");
    r.append("?type=");
    r.append(log_type);
    r.append("&rank=");
    r.append(&decimal_usize(rank));
    r
}

fn same_optional(a: &Option<String>, b: &Option<String>) -> (r: bool)
    ensures
        r == (optional_text(*a) == optional_text(*b)),
{
    match (a, b) {
        (Some(x), Some(y)) => str_eq(x, y),
        (None, None) => true,
        _ => false,
    }
}

fn same_texts(a: &Vec<String>, b: &Vec<String>) -> (r: bool)
    ensures
        r == (texts(a@) == texts(b@)),
{
    let ghost x = texts(a@);
    let ghost y = texts(b@);
    if a.len() != b.len() {
        assert(x.len() != y.len());
        return false;
    }
    let mut i: usize = 0;
    while i < a.len()
        invariant
            i <= a@.len(),
            a@.len() == b@.len(),
            x == texts(a@),
            y == texts(b@),
            forall|k: int| 0 <= k < i ==> #[trigger] x[k] == y[k],
        decreases a@.len() - i,
    {
        assert(x[i as int] == a@[i as int]@ && y[i as int] == b@[i as int]@);
        if !str_eq(&a[i], &b[i]) {
            return false;
        }
        i = i + 1;
    }
    assert(x =~= y);
    true
}

pub open spec fn numbers_of(v: Option<Vec<u64>>) -> Option<Seq<u64>> {
    match v {
        Some(v) => Some(v@),
        None => None,
    }
}

fn same_numbers(a: &Option<Vec<u64>>, b: &Option<Vec<u64>>) -> (r: bool)
    ensures
        r == (numbers_of(*a) == numbers_of(*b)),
{
    match (a, b) {
        (Some(x), Some(y)) => {
            if x.len() != y.len() {
                return false;
            }
            let mut i: usize = 0;
            while i < x.len()
                invariant
                    i <= x@.len(),
                    x@.len() == y@.len(),
                    numbers_of(*a) == Some(x@),
                    numbers_of(*b) == Some(y@),
                    forall|k: int| 0 <= k < i ==> #[trigger] x@[k] == y@[k],
                decreases x@.len() - i,
            {
                if x[i] != y[i] {
                    assert(x@[i as int] != y@[i as int]);
                    return false;
                }
                i = i + 1;
            }
            assert(x@ =~= y@);
            true
        },
        (None, None) => true,
        _ => false,
    }
}

pub open spec fn container_texts(c: Option<ContainerRef>) -> Option<(Seq<char>, Seq<char>)> {
    match c {
        Some(c) => Some((c.id@, c.name@)),
        None => None,
    }
}

fn same_container(a: &Option<ContainerRef>, b: &Option<ContainerRef>) -> (r: bool)
    ensures
        r == (container_texts(*a) == container_texts(*b)),
{
    match (a, b) {
        (Some(x), Some(y)) => str_eq(&x.id, &y.id) && str_eq(&x.name, &y.name),
        (None, None) => true,
        _ => false,
    }
}

fn same_pairs(a: &Vec<(String, String)>, b: &Vec<(String, String)>) -> (r: bool)
    ensures
        r == (crate::envs::pair_texts(a@) == crate::envs::pair_texts(b@)),
{
    let ghost x = crate::envs::pair_texts(a@);
    let ghost y = crate::envs::pair_texts(b@);
    if a.len() != b.len() {
        assert(x.len() != y.len());
        return false;
    }
    let mut i: usize = 0;
    while i < a.len()
        invariant
            i <= a@.len(),
            a@.len() == b@.len(),
            x == crate::envs::pair_texts(a@),
            y == crate::envs::pair_texts(b@),
            forall|k: int| 0 <= k < i ==> #[trigger] x[k] == y[k],
        decreases a@.len() - i,
    {
        assert(x[i as int] == (a@[i as int].0@, a@[i as int].1@));
        assert(y[i as int] == (b@[i as int].0@, b@[i as int].1@));
        if !str_eq(&a[i].0, &b[i].0) || !str_eq(&a[i].1, &b[i].1) {
            return false;
        }
        i = i + 1;
    }
    assert(x =~= y);
    true
}

/// What is said of what a job sent through MPI.
pub open spec fn mpi_texts(stats: Option<MpiStats>) -> Option<(u64, u64, Seq<char>)> {
    match stats {
        Some(s) => Some((s.send_calls, s.send_bytes, s.send_time_secs@)),
        None => None,
    }
}

fn same_mpi(a: &Option<MpiStats>, b: &Option<MpiStats>) -> (r: bool)
    ensures
        r == (mpi_texts(*a) == mpi_texts(*b)),
{
    match (a, b) {
        (Some(x), Some(y)) => x.send_calls == y.send_calls && x.send_bytes == y.send_bytes
            && str_eq(&x.send_time_secs, &y.send_time_secs),
        (None, None) => true,
        _ => false,
    }
}

/// Two descriptions of a job say the same, but for how long it has been idle and how much memory
/// it takes at the moment.
pub open spec fn same_details(a: JobInfo, b: JobInfo) -> bool {
    &&& a.id == b.id
    &&& a.status@ == b.status@
    &&& a.user_id@ == b.user_id@
    &&& optional_text(a.job_name) == optional_text(b.job_name)
    &&& optional_text(a.job_comment) == optional_text(b.job_comment)
    &&& a.binary@ == b.binary@
    &&& texts(a.args@) == texts(b.args@)
    &&& a.req_nodes == b.req_nodes
    &&& a.req_cores == b.req_cores
    &&& a.req_memory == b.req_memory
    &&& a.walltime == b.walltime
    &&& a.priority == b.priority
    &&& a.working_directory@ == b.working_directory@
    &&& a.queued_time == b.queued_time
    &&& a.start_time == b.start_time
    &&& a.end_time == b.end_time
    &&& a.array_id == b.array_id
    &&& a.array_task_id == b.array_task_id
    &&& texts(a.assigned_workers@) == texts(b.assigned_workers@)
    &&& container_texts(a.container) == container_texts(b.container)
    &&& numbers_of(a.dependencies) == numbers_of(b.dependencies)
    &&& optional_text(a.reason) == optional_text(b.reason)
    &&& a.is_idle == b.is_idle
    &&& a.cgroup_active == b.cgroup_active
    &&& a.vnc_enabled == b.vnc_enabled
    &&& a.interactive_port == b.interactive_port
    &&& optional_text(a.stdout_file_id) == optional_text(b.stdout_file_id)
    &&& optional_text(a.stderr_file_id) == optional_text(b.stderr_file_id)
    &&& optional_text(a.workdir_file_id) == optional_text(b.workdir_file_id)
    &&& mpi_texts(a.mpi_stats) == mpi_texts(b.mpi_stats)
    &&& crate::envs::pair_texts(a.carried@) == crate::envs::pair_texts(b.carried@)
    &&& crate::envs::pair_texts(a.compared@) == crate::envs::pair_texts(b.compared@)
}

fn same_u64(a: Option<u64>, b: Option<u64>) -> (r: bool)
    ensures
        r == (a == b),
{
    match (a, b) {
        (Some(x), Some(y)) => x == y,
        (None, None) => true,
        _ => false,
    }
}

fn same_requirements(prev: &JobInfo, next: &JobInfo) -> (r: bool)
    ensures
        r == (prev.req_nodes == next.req_nodes && prev.req_cores == next.req_cores
            && prev.req_memory == next.req_memory && prev.walltime == next.walltime && prev.priority
            == next.priority && prev.array_id == next.array_id && prev.array_task_id
            == next.array_task_id && prev.interactive_port == next.interactive_port),
{
    let same_task: bool = match (prev.array_task_id, next.array_task_id) {
        (Some(x), Some(y)) => x == y,
        (None, None) => true,
        _ => false,
    };
    let same_port: bool = match (prev.interactive_port, next.interactive_port) {
        (Some(x), Some(y)) => x == y,
        (None, None) => true,
        _ => false,
    };
    prev.req_nodes == next.req_nodes && prev.req_cores == next.req_cores && prev.req_memory
        == next.req_memory && prev.walltime == next.walltime && prev.priority == next.priority
        && same_u64(prev.array_id, next.array_id) && same_task && same_port
}

/// Whether the page has to be built anew. What is measured all the time is left out: it is shown
/// in a chart of its own.
pub fn job_details_changed(prev: &JobInfo, next: &JobInfo) -> (r: bool)
    ensures
        r == !same_details(*prev, *next),
{
    !(prev.id == next.id && prev.status.same(&next.status) && str_eq(&prev.user_id, &next.user_id)
        && same_optional(&prev.job_name, &next.job_name) && same_optional(
        &prev.job_comment,
        &next.job_comment,
    ) && str_eq(&prev.binary, &next.binary) && same_texts(&prev.args, &next.args)
        && same_requirements(prev, next) && str_eq(
        &prev.working_directory,
        &next.working_directory,
    ) && prev.queued_time == next.queued_time && same_u64(prev.start_time, next.start_time)
        && same_u64(prev.end_time, next.end_time) && same_texts(
        &prev.assigned_workers,
        &next.assigned_workers,
    ) && same_container(&prev.container, &next.container) && same_numbers(
        &prev.dependencies,
        &next.dependencies,
    ) && same_optional(&prev.reason, &next.reason) && prev.is_idle == next.is_idle
        && prev.cgroup_active == next.cgroup_active && prev.vnc_enabled == next.vnc_enabled
        && same_optional(&prev.stdout_file_id, &next.stdout_file_id) && same_optional(
        &prev.stderr_file_id,
        &next.stderr_file_id,
    ) && same_optional(&prev.workdir_file_id, &next.workdir_file_id) && same_mpi(
        &prev.mpi_stats,
        &next.mpi_stats,
    ) && same_pairs(&prev.carried, &next.carried) && same_pairs(&prev.compared, &next.compared))
}

/// Whether a description that has come takes the place of the one shown: the first one does, and
/// any that tells of a change.
pub fn takes_details(shown: &Option<JobInfo>, next: &JobInfo) -> (r: bool)
    ensures
        r == (match *shown {
            Some(prev) => !same_details(prev, *next),
            None => true,
        }),
{
    match shown {
        Some(prev) => job_details_changed(prev, next),
        None => true,
    }
}

/// A job whose idle time and memory alone have moved on has not changed.
pub proof fn law_measurements_change_nothing(job: JobInfo, idle: u64, memory: u64)
    ensures
        same_details(
            job,
            (JobInfo { idle_duration: idle, current_memory_usage: memory, ..job }),
        ),
{
}

/// Sameness of details is symmetric and goes from one description to the next.
pub proof fn law_sameness_carries_over(a: JobInfo, b: JobInfo, c: JobInfo)
    requires
        same_details(a, b),
        same_details(b, c),
    ensures
        same_details(b, a),
        same_details(a, c),
{
}

/// The number of the file with the results, which a job writes into its output.
pub open spec fn result_id(text: Seq<char>) -> Option<Seq<char>> {
    match first_at(text, "[VELOCE_RESULT_ID: "@, 0) {
        Some(start) => {
            let rest = text.skip(start + 19);
            match char_from(rest, ']', 0) {
                Some(end) => Some(rest.take(end)),
                None => None,
            }
        },
        None => None,
    }
}

/// The number of the file with the results; only what is written to standard output counts.
pub fn result_file_id(log_type: &str, text: &str) -> (r: Option<String>)
    ensures
        optional_text(r) == if log_type@ == "stdout"@ {
            result_id(text@)
        } else {
            None
        },
{
    if !str_eq(log_type, "stdout") {
        return None;
    }
    match find(text, "[VELOCE_RESULT_ID: ") {
        Some(start) => {
            proof {
                reveal_strlit("[VELOCE_RESULT_ID: ");
                lemma_first_at(text@, "[VELOCE_RESULT_ID: "@, 0);
            }
            let rest: String = skip_chars(&skip_chars(text, start), 19);
            assert(rest@ =~= text@.skip(start + 19));
            match find_char(&rest, ']') {
                Some(end) => {
                    let id: String = take_chars(&rest, end);
                    assert(id@ =~= rest@.take(end as int));
                    Some(id)
                },
                None => None,
            }
        },
        None => None,
    }
}

/// A request for a job like one that there is.
pub struct CloneRequest {
    pub job_name: Option<String>,
    pub job_comment: Option<String>,
    pub binary: String,
    pub args: Vec<String>,
    pub req_nodes: usize,
    pub req_cores: u32,
    pub req_memory: u64,
    pub walltime: u64,
    pub priority: u32,
    pub user_id: String,
    pub working_directory: String,
    pub array_indices: Option<Vec<u32>>,
    pub dependencies: Option<Vec<u64>>,
    pub image_uri: Option<String>,
    pub vnc_enabled: bool,
    pub carried: Vec<(String, String)>,
}

fn copy_optional(text: &Option<String>) -> (r: Option<String>)
    ensures
        optional_text(r) == optional_text(*text),
{
    match text {
        Some(text) => Some(text.clone()),
        None => None,
    }
}

fn copy_pairs(v: &Vec<(String, String)>) -> (r: Vec<(String, String)>)
    ensures
        crate::envs::pair_texts(r@) == crate::envs::pair_texts(v@),
{
    let mut r: Vec<(String, String)> = Vec::new();
    let mut i: usize = 0;
    while i < v.len()
        invariant
            i <= v@.len(),
            r@.len() == i,
            forall|k: int|
                0 <= k < i ==> (#[trigger] r@[k]).0@ == v@[k].0@ && r@[k].1@ == v@[k].1@,
        decreases v@.len() - i,
    {
        r.push((v[i].0.clone(), v[i].1.clone()));
        i = i + 1;
    }
    assert(crate::envs::pair_texts(r@) =~= crate::envs::pair_texts(v@));
    r
}

fn copy_numbers(v: &Option<Vec<u64>>) -> (r: Option<Vec<u64>>)
    ensures
        numbers_of(r) == numbers_of(*v),
{
    match v {
        Some(v) => {
            let mut r: Vec<u64> = Vec::new();
            let mut i: usize = 0;
            while i < v.len()
                invariant
                    i <= v@.len(),
                    r@ == v@.take(i as int),
                decreases v@.len() - i,
            {
                r.push(v[i]);
                i = i + 1;
                assert(r@ =~= v@.take(i as int));
            }
            assert(r@ =~= v@);
            Some(r)
        },
        None => None,
    }
}

/// What a request for a job like one that there is asks for.
pub ghost struct CloneView {
    pub job_name: Option<Seq<char>>,
    pub job_comment: Option<Seq<char>>,
    pub binary: Seq<char>,
    pub args: Seq<Seq<char>>,
    pub req_nodes: usize,
    pub req_cores: u32,
    pub req_memory: u64,
    pub walltime: u64,
    pub priority: u32,
    pub user_id: Seq<char>,
    pub working_directory: Seq<char>,
    pub array_indices: Option<Seq<u32>>,
    pub dependencies: Option<Seq<u64>>,
    pub image_uri: Option<Seq<char>>,
    pub vnc_enabled: bool,
    pub carried: Seq<(Seq<char>, Seq<char>)>,
}

pub open spec fn clone_view(r: CloneRequest) -> CloneView {
    CloneView {
        job_name: optional_text(r.job_name),
        job_comment: optional_text(r.job_comment),
        binary: r.binary@,
        args: texts(r.args@),
        req_nodes: r.req_nodes,
        req_cores: r.req_cores,
        req_memory: r.req_memory,
        walltime: r.walltime,
        priority: r.priority,
        user_id: r.user_id@,
        working_directory: r.working_directory@,
        array_indices: match r.array_indices {
            Some(v) => Some(v@),
            None => None,
        },
        dependencies: numbers_of(r.dependencies),
        image_uri: optional_text(r.image_uri),
        vnc_enabled: r.vnc_enabled,
        carried: crate::envs::pair_texts(r.carried@),
    }
}

pub open spec fn clone_of(job: JobInfo) -> CloneView {
    CloneView {
        job_name: optional_text(job.job_name),
        job_comment: optional_text(job.job_comment),
        binary: job.binary@,
        args: texts(job.args@),
        req_nodes: job.req_nodes,
        req_cores: job.req_cores,
        req_memory: job.req_memory,
        walltime: job.walltime,
        priority: job.priority,
        user_id: job.user_id@,
        working_directory: job.working_directory@,
        array_indices: match job.array_task_id {
            Some(task) => Some(seq![task]),
            None => None,
        },
        dependencies: numbers_of(job.dependencies),
        image_uri: match job.container {
            Some(c) => Some("veloce://"@ + c.id@),
            None => None,
        },
        vnc_enabled: job.vnc_enabled,
        carried: crate::envs::pair_texts(job.carried@),
    }
}

/// A request that asks for the same as a job did: of an array, for the one task; in a container,
/// by its number.
pub fn clone_request(job: &JobInfo) -> (r: CloneRequest)
    ensures
        clone_view(r) == clone_of(*job),
        optional_text(r.job_name) == optional_text(job.job_name),
        optional_text(r.job_comment) == optional_text(job.job_comment),
        r.binary@ == job.binary@,
        texts(r.args@) == texts(job.args@),
        r.req_nodes == job.req_nodes,
        r.req_cores == job.req_cores,
        r.req_memory == job.req_memory,
        r.walltime == job.walltime,
        r.priority == job.priority,
        r.user_id@ == job.user_id@,
        r.working_directory@ == job.working_directory@,
        match job.array_task_id {
            Some(task) => r.array_indices is Some && r.array_indices->0@ == seq![task],
            None => r.array_indices is None,
        },
        numbers_of(r.dependencies) == numbers_of(job.dependencies),
        optional_text(r.image_uri) == match job.container {
            Some(c) => Some("veloce://"@ + c.id@),
            None => None,
        },
        r.vnc_enabled == job.vnc_enabled,
        crate::envs::pair_texts(r.carried@) == crate::envs::pair_texts(job.carried@),
{
    let array_indices: Option<Vec<u32>> = match job.array_task_id {
        Some(task) => {
            let mut indices: Vec<u32> = Vec::new();
            indices.push(task);
            assert(indices@ =~= seq![task]);
            Some(indices)
        },
        None => None,
    };
    let image_uri: Option<String> = match &job.container {
        Some(c) => {
            let mut uri: String = "veloce://".to_string();
            uri.append(&c.id);
            Some(uri)
        },
        None => None,
    };
    CloneRequest {
        job_name: copy_optional(&job.job_name),
        job_comment: copy_optional(&job.job_comment),
        binary: job.binary.clone(),
        args: copy_texts(&job.args),
        req_nodes: job.req_nodes,
        req_cores: job.req_cores,
        req_memory: job.req_memory,
        walltime: job.walltime,
        priority: job.priority,
        user_id: job.user_id.clone(),
        working_directory: job.working_directory.clone(),
        array_indices,
        dependencies: copy_numbers(&job.dependencies),
        image_uri,
        vnc_enabled: job.vnc_enabled,
        carried: copy_pairs(&job.carried),
    }
}

/// What comes of cloning a job: the page of the new one, or what is said instead.
pub open spec fn clone_answer(status: Option<u16>, body: Seq<char>, id: Option<u64>) -> (
    bool,
    Seq<char>,
) {
    match status {
        None => (false, "Clone failed: network error"@),
        Some(status) => if is_ok(status) {
            match id {
                Some(id) => (true, job_path(id as nat)),
                None => (
                    false,
                    "Job cloned, but response did not include a job ID (HTTP "@ + decimal(
                        status as nat,
                    ) + ")."@,
                ),
            }
        } else if body.len() == 0 {
            (false, "Clone failed: HTTP "@ + decimal(status as nat))
        } else {
            (false, "Clone failed: HTTP "@ + decimal(status as nat) + " - "@ + body)
        },
    }
}

/// What comes of cloning a job whose number in the answer is `id`.
pub fn clone_result(status: Option<u16>, body: &str, id: Option<u64>) -> (r: (bool, String))
    ensures
        (r.0, r.1@) == clone_answer(status, body@, id),
{
    match status {
        None => (false, "Clone failed: network error".to_string()),
        Some(status) => if ok(status) {
            match id {
                Some(id) => (true, job_href(id)),
                None => {
                    let mut text: String =
                        "Job cloned, but response did not include a job ID (HTTP ".to_string();
                    text.append(&decimal_u32(status as u32));
                    text.append(").");
                    (false, text)
                },
            }
        } else {
            let mut text: String = "Clone failed: HTTP ".to_string();
            text.append(&decimal_u32(status as u32));
            if !body.is_empty() {
                text.append(" - ");
                text.append(body);
            }
            (false, text)
        },
    }
}

/// What comes of cloning a job, by the controller's answer.
pub fn job_cloned(status: Option<u16>, body: &str) -> (r: (bool, String))
    ensures
        (r.0, r.1@) == clone_answer(
            status,
            body@,
            number_in(json_field_of(body@, "job_id"@), json_field_of(body@, "base_job_id"@)),
        ),
{
    clone_result(status, body, new_job_id(body))
}

/// Why a job cannot be cloned yet.
pub fn clone_obstacle(job_loaded: bool, configured: bool) -> (r: Option<&'static str>)
    ensures
        match r {
            Some(text) => if !job_loaded {
                text@ == "Job details are still loading."@
            } else {
                !configured && text@ == "Controller configuration is not loaded."@
            },
            None => job_loaded && configured,
        },
{
    if !job_loaded {
        Some("Job details are still loading.")
    } else if !configured {
        Some("Controller configuration is not loaded.")
    } else {
        None
    }
}

/// A request for a step of a job.
pub struct StepRequest {
    pub binary: String,
    pub args: Vec<String>,
    pub req_nodes: u32,
    pub req_cores: u32,
    pub ntasks: u32,
}

pub ghost struct StepView {
    pub binary: Seq<char>,
    pub args: Seq<Seq<char>>,
    pub req_nodes: u32,
    pub req_cores: u32,
    pub ntasks: u32,
}

pub open spec fn step_view(r: StepRequest) -> StepView {
    StepView {
        binary: r.binary@,
        args: texts(r.args@),
        req_nodes: r.req_nodes,
        req_cores: r.req_cores,
        ntasks: r.ntasks,
    }
}

/// What a step asks for.
pub open spec fn step_of(binary: Seq<char>, args: Seq<char>, ntasks: u32) -> StepView {
    StepView { binary, args: words(args), req_nodes: 1, req_cores: 1, ntasks }
}

pub fn step_request(binary: &str, args: &str, ntasks: u32) -> (r: StepRequest)
    ensures
        step_view(r) == step_of(binary@, args@, ntasks),
        r.binary@ == binary@,
        texts(r.args@) == words(args@),
        r.req_nodes == 1,
        r.req_cores == 1,
        r.ntasks == ntasks,
{
    StepRequest {
        binary: binary.to_string(),
        args: split_whitespace(args),
        req_nodes: 1,
        req_cores: 1,
        ntasks,
    }
}

/// What is said of the answer to a step; of one that was taken, nothing, and the form is emptied.
pub fn step_failure(status: u16) -> (r: Option<String>)
    ensures
        r is None <==> is_ok(status),
        r matches Some(text) ==> text@ == "Step submission failed: "@ + decimal(status as nat),
{
    if ok(status) {
        None
    } else {
        let mut text: String = "Step submission failed: ".to_string();
        text.append(&decimal_u32(status as u32));
        Some(text)
    }
}

/// The files of a job that can be fetched.
#[derive(Clone, Copy, PartialEq, Eq, Structural)]
pub enum JobFile {
    Results,
    Stdout,
    Stderr,
    Workdir,
}

/// The name under which a file of a job is saved.
pub open spec fn saved_name(file: JobFile, id: Seq<char>) -> Seq<char> {
    match file {
        JobFile::Results => "results_job_"@ + id + ".tar.gz"@,
        JobFile::Stdout => "job_"@ + id + "_stdout.log"@,
        JobFile::Stderr => "job_"@ + id + "_stderr.log"@,
        JobFile::Workdir => "job_"@ + id + "_workdir.tar.gz"@,
    }
}

pub fn download_name(file: JobFile, id: &str) -> (r: String)
    ensures
        r@ == saved_name(file, id@),
{
    let mut r: String = match file {
        JobFile::Results => "results_job_".to_string(),
        _ => "job_".to_string(),
    };
    r.append(id);
    r.append(
        match file {
            JobFile::Results => ".tar.gz",
            JobFile::Stdout => "_stdout.log",
            JobFile::Stderr => "_stderr.log",
            JobFile::Workdir => "_workdir.tar.gz",
        },
    );
    r
}

/// Where a file is fetched.
pub fn file_url(file_id: &str) -> (r: String)
    ensures
        r@ == "/api/v1/files/"@ + file_id@,
{
    let mut r: String = "/api/v1/files/".to_string();
    r.append(file_id);
    r
}

/// A job that waits or runs can be cancelled.
pub open spec fn cancellable(status: StatusView) -> bool {
    status is Pending || status is Running
}

pub fn can_cancel(status: &JobStatus) -> (r: bool)
    ensures
        r == cancellable(status@),
        r == (status@ is Pending || status@ is Running),
{
    match status {
        JobStatus::Pending => true,
        JobStatus::Running => true,
        _ => false,
    }
}

/// What a job asks for.
pub fn resources_text(job: &JobInfo) -> (r: String)
    ensures
        r@ == decimal(job.req_nodes as nat) + " Nodes, "@ + decimal(job.req_cores as nat)
            + " Cores, "@ + decimal(job.req_memory as nat) + " MB Mem"@,
{
    let mut r: String = decimal_usize(job.req_nodes);
    r.append(" Nodes, ");
    r.append(&decimal_u32(job.req_cores));
    r.append(" Cores, ");
    r.append(&decimal_u64(job.req_memory));
    r.append(" MB Mem");
    r
}

/// The place of a job in its array, if it is part of one.
pub fn array_info(job: &JobInfo) -> (r: Option<String>)
    ensures
        r is Some <==> job.array_id is Some && job.array_task_id is Some,
        r matches Some(text) ==> text@ == "Array ID: "@ + decimal(job.array_id->0 as nat)
            + ", Task ID: "@ + decimal(job.array_task_id->0 as nat),
{
    match (job.array_id, job.array_task_id) {
        (Some(array), Some(task)) => {
            let mut r: String = "Array ID: ".to_string();
            r.append(&decimal_u64(array));
            r.append(", Task ID: ");
            r.append(&decimal_u32(task));
            Some(r)
        },
        _ => None,
    }
}

/// The jobs that a job waits for, if there are any.
pub fn dependencies_info(job: &JobInfo) -> (r: Option<String>)
    ensures
        r is Some <==> job.dependencies is Some && job.dependencies->0@.len() > 0,
        r matches Some(text) ==> text@ == numbers_listed(job.dependencies->0@),
{
    match &job.dependencies {
        Some(ids) => if ids.len() == 0 {
            None
        } else {
            Some(list_numbers(ids))
        },
        None => None,
    }
}

/// How the limits of a job are enforced.
pub fn enforcement_text(job: &JobInfo) -> (r: &'static str)
    ensures
        r@ == if job.cgroup_active {
            "Cgroup v2 Isolation"@
        } else {
            "Traditional (setrlimit)"@
        },
{
    if job.cgroup_active {
        "Cgroup v2 Isolation"
    } else {
        "Traditional (setrlimit)"
    }
}

/// What is said of a job that does nothing, and of no other.
pub fn idle_note(job: &JobInfo) -> (r: Option<String>)
    ensures
        r is Some <==> job.is_idle,
        r matches Some(text) ==> text@ == "IDLE DETECTED ("@ + decimal(job.idle_duration as nat)
            + "s)"@,
{
    if !job.is_idle {
        return None;
    }
    let mut r: String = "IDLE DETECTED (".to_string();
    r.append(&decimal_u64(job.idle_duration));
    r.append("s)");
    Some(r)
}

/// How many ranks the output of a job comes from; one, while nothing is known of it.
pub fn rank_count(job: &Option<JobInfo>) -> (r: usize)
    ensures
        r == (match *job {
            Some(j) => j.req_nodes,
            None => 1,
        }),
{
    match job {
        Some(j) => j.req_nodes,
        None => 1,
    }
}

/// The ranks that the output can be chosen of: all of them, where there is more than one.
pub open spec fn ranks_offered(ranks: nat) -> Seq<Seq<char>> {
    Seq::new(
        if ranks > 1 {
            ranks
        } else {
            0
        },
        |i: int| "Rank "@ + decimal(i as nat),
    )
}

pub fn rank_labels(ranks: usize) -> (r: Vec<String>)
    ensures
        texts(r@) == ranks_offered(ranks as nat),
{
    let mut r: Vec<String> = Vec::new();
    if ranks > 1 {
        let mut i: usize = 0;
        assert(texts(r@) =~= ranks_offered(ranks as nat).take(0));
        while i < ranks
            invariant
                1 < ranks,
                i <= ranks,
                texts(r@) == ranks_offered(ranks as nat).take(i as int),
            decreases ranks - i,
        {
            let mut label: String = "Rank ".to_string();
            label.append(&decimal_usize(i));
            proof {
                lemma_texts_push(r@, label);
            }
            r.push(label);
            i = i + 1;
            assert(texts(r@) =~= ranks_offered(ranks as nat).take(i as int));
        }
    }
    assert(texts(r@) =~= ranks_offered(ranks as nat));
    r
}

/// The output as it is shown.
pub fn shown_logs(logs: &str) -> (r: String)
    ensures
        r@ == if logs@.len() == 0 {
            "No logs available."@
        } else {
            logs@
        },
{
    if logs.is_empty() {
        "No logs available.".to_string()
    } else {
        logs.to_owned()
    }
}

/// The tabs of a job. One that does not run has its output only; a shell is there while it runs,
/// and a desktop and a notebook if it has them.
pub open spec fn tabs_of(job: Option<JobInfo>) -> Seq<Seq<char>> {
    match job {
        Some(j) => if j.status is Running {
            let shell = seq!["logs"@, "terminal"@];
            let desktop = if j.vnc_enabled {
                shell.push("vnc"@)
            } else {
                shell
            };
            if j.interactive_port is Some {
                desktop.push("jupyter"@)
            } else {
                desktop
            }
        } else {
            seq!["logs"@]
        },
        None => seq!["logs"@],
    }
}

pub fn tabs(job: &Option<JobInfo>) -> (r: Vec<String>)
    ensures
        texts(r@) == tabs_of(*job),
{
    let mut r: Vec<String> = Vec::new();
    r.push("logs".to_owned());
    if let Some(j) = job {
        if let JobStatus::Running = j.status {
            r.push("terminal".to_owned());
            if j.vnc_enabled {
                r.push("vnc".to_owned());
            }
            if j.interactive_port.is_some() {
                r.push("jupyter".to_owned());
            }
        }
    }
    assert(texts(r@) =~= tabs_of(*job));
    r
}

/// Every tab that a job is shown with has a panel.
pub proof fn law_offered_tabs_have_panels(job: JobInfo, i: int)
    requires
        0 <= i < tabs_of(Some(job)).len(),
    ensures
        panel_of(tabs_of(Some(job))[i], decimal(job.id as nat)) != Panel::Nothing,
{
    law_read_undoes_decimal(job.id as nat);
}

/// Milliseconds between two times at which the details of a job are asked for.
pub const DETAILS_INTERVAL_MS: u32 = 5000;

/// Milliseconds between two times at which the output of a job is asked for.
pub const LOGS_INTERVAL_MS: u32 = 2000;

/// Why the page may ask for something anew.
#[derive(Clone, Copy, PartialEq, Eq, Structural)]
pub enum Occasion {
    /// The job, the stream or the rank that is shown, or the set-up of the console, has changed.
    Changed,
    DetailsTimer,
    LogsTimer,
}

pub open spec fn wants_details(occasion: Occasion, id: Seq<char>, configured: bool) -> bool {
    id.len() > 0 && configured && (occasion == Occasion::Changed || occasion
        == Occasion::DetailsTimer)
}

pub open spec fn wants_logs(
    occasion: Occasion,
    id: Seq<char>,
    tab: Seq<char>,
    configured: bool,
) -> bool {
    id.len() > 0 && configured && (occasion == Occasion::Changed || (occasion
        == Occasion::LogsTimer && tab == "logs"@))
}

/// Whether the details of a job and its steps are asked for: at every change and by their timer,
/// of a job that is known, and once the console is set up.
pub fn asks_for_details(occasion: Occasion, id: &str, configured: bool) -> (r: bool)
    ensures
        r == wants_details(occasion, id@, configured),
        r == (id@.len() > 0 && configured && (occasion == Occasion::Changed || occasion
            == Occasion::DetailsTimer)),
{
    !id.is_empty() && configured && (occasion == Occasion::Changed || occasion
        == Occasion::DetailsTimer)
}

/// Whether the output of a job is asked for: at every change, whatever is shown, and by its timer
/// while the output is shown; of a job that is known, and once the console is set up.
pub fn asks_for_logs(occasion: Occasion, id: &str, tab: &str, configured: bool) -> (r: bool)
    ensures
        r == wants_logs(occasion, id@, tab@, configured),
        r == (id@.len() > 0 && configured && (occasion == Occasion::Changed || (occasion
            == Occasion::LogsTimer && tab@ == "logs"@))),
{
    !id.is_empty() && configured && (occasion == Occasion::Changed || (occasion
        == Occasion::LogsTimer && str_eq(tab, "logs")))
}

/// What is shown below the tabs.
#[derive(Clone, Copy, PartialEq, Eq, Structural)]
pub enum Panel {
    Logs,
    Terminal(u64),
    Vnc(u64),
    Jupyter(u64),
    Nothing,
}

/// The panel of a tab. All but the output need the number of the job.
pub open spec fn panel_of(tab: Seq<char>, id: Seq<char>) -> Panel {
    if tab == "logs"@ {
        Panel::Logs
    } else {
        match parsed_u64(id) {
            Some(id) => if tab == "terminal"@ {
                Panel::Terminal(id)
            } else if tab == "vnc"@ {
                Panel::Vnc(id)
            } else if tab == "jupyter"@ {
                Panel::Jupyter(id)
            } else {
                Panel::Nothing
            },
            None => Panel::Nothing,
        }
    }
}

pub fn panel(tab: &str, id: &str) -> (r: Panel)
    ensures
        r == panel_of(tab@, id@),
{
    if str_eq(tab, "logs") {
        Panel::Logs
    } else {
        match parse_u64(id) {
            Some(id) => if str_eq(tab, "terminal") {
                Panel::Terminal(id)
            } else if str_eq(tab, "vnc") {
                Panel::Vnc(id)
            } else if str_eq(tab, "jupyter") {
                Panel::Jupyter(id)
            } else {
                Panel::Nothing
            },
            None => Panel::Nothing,
        }
    }
}

/// What the consoles of a job are opened with.
pub fn console_url(id: u64, vnc: bool) -> (r: String)
    ensures
        r@ == job_path(id as nat) + if vnc {
            "/vnc"@
        } else {
            "/terminal"@
        },
{
    let mut r: String = job_href(id);
    r.append(
        if vnc {
            "/vnc"
        } else {
            "/terminal"
        },
    );
    r
}

/// Where the notebook of a job is.
pub fn notebook_url(id: u64) -> (r: String)
    ensures
        r@ == "/api/v1/jobs/"@ + decimal(id as nat) + "/proxy/lab"@,
{
    let mut r: String = "/api/v1/jobs/".to_string();
    r.append(&decimal_u64(id));
    r.append("/proxy/lab");
    r
}

/// The title of a console that takes the whole window; a job whose number cannot be read counts
/// as job zero.
pub fn console_title(id: &str, vnc: bool) -> (r: String)
    ensures
        r@ == "Job "@ + decimal(
            match parsed_u64(id@) {
                Some(id) => id as nat,
                None => 0,
            },
        ) + if vnc {
            " - Fullscreen VNC Desktop"@
        } else {
            " - Interactive Shell"@
        },
{
    let number: u64 = match parse_u64(id) {
        Some(id) => id,
        None => 0,
    };
    let mut r: String = "Job ".to_string();
    r.append(&decimal_u64(number));
    r.append(
        if vnc {
            " - Fullscreen VNC Desktop"
        } else {
            " - Interactive Shell"
        },
    );
    r
}

/// What is shown of what a job sent through MPI: the number of calls, the amount of data, and the
/// longest time.
pub struct MpiPanel {
    pub send_calls: String,
    pub data: String,
    pub time: String,
}

pub fn mpi_panel(job: &JobInfo) -> (r: Option<MpiPanel>)
    ensures
        match job.mpi_stats {
            Some(stats) => {
                &&& r matches Some(panel)
                &&& panel.send_calls@ == decimal(stats.send_calls as nat)
                &&& panel.data@ == megabytes_text(stats.send_bytes as nat)
                &&& panel.time@ == stats.send_time_secs@ + " s"@
            },
            None => r is None,
        },
{
    match &job.mpi_stats {
        Some(stats) => {
            let mut time: String = stats.send_time_secs.clone();
            time.append(" s");
            Some(
                MpiPanel {
                    send_calls: decimal_u64(stats.send_calls),
                    data: format_megabytes(stats.send_bytes),
                    time,
                },
            )
        },
        None => None,
    }
}

/// A page is left as it is only if nothing that it shows has changed: neither what the job is, nor
/// how it stands, nor what it asked for, nor what can be fetched of it.
pub proof fn law_every_change_is_shown(a: JobInfo, b: JobInfo)
    requires
        same_details(a, b),
    ensures
        a.id == b.id && a.status@ == b.status@ && a.user_id@ == b.user_id@,
        optional_text(a.job_name) == optional_text(b.job_name),
        optional_text(a.job_comment) == optional_text(b.job_comment),
        a.binary@ == b.binary@ && texts(a.args@) == texts(b.args@),
        a.req_nodes == b.req_nodes && a.req_cores == b.req_cores && a.req_memory == b.req_memory,
        a.walltime == b.walltime && a.priority == b.priority,
        a.working_directory@ == b.working_directory@,
        a.queued_time == b.queued_time && a.start_time == b.start_time && a.end_time == b.end_time,
        a.array_id == b.array_id && a.array_task_id == b.array_task_id,
        texts(a.assigned_workers@) == texts(b.assigned_workers@),
        container_texts(a.container) == container_texts(b.container),
        numbers_of(a.dependencies) == numbers_of(b.dependencies),
        optional_text(a.reason) == optional_text(b.reason),
        a.is_idle == b.is_idle && a.cgroup_active == b.cgroup_active,
        a.vnc_enabled == b.vnc_enabled && a.interactive_port == b.interactive_port,
        optional_text(a.stdout_file_id) == optional_text(b.stdout_file_id),
        optional_text(a.stderr_file_id) == optional_text(b.stderr_file_id),
        optional_text(a.workdir_file_id) == optional_text(b.workdir_file_id),
        mpi_texts(a.mpi_stats) == mpi_texts(b.mpi_stats),
{
}

/// The number that a job writes into its output between the mark and the closing bracket is found,
/// whatever stands around it.
pub proof fn law_results_are_found_in_the_output(a: Seq<char>, id: Seq<char>, b: Seq<char>)
    requires
        !a.contains('['),
        !id.contains(']'),
    ensures
        result_id(a + "[VELOCE_RESULT_ID: "@ + id + seq![']'] + b) == Some(id),
        result_id(a) is None,
{
    reveal_strlit("[VELOCE_RESULT_ID: ");
    let mark = "[VELOCE_RESULT_ID: "@;
    let text = a + mark + id + seq![']'] + b;
    let at = a.len() as int;
    assert(text.subrange(at, at + mark.len()) =~= mark);
    assert(occurs_at(text, mark, at));
    lemma_first_at(text, mark, 0);
    lemma_first_at(a, mark, 0);
    if let Some(start) = first_at(text, mark, 0) {
        if start < at {
            assert(text.subrange(start, start + mark.len())[0] == '[');
            assert(a[start] == '[');
        }
    }
    if let Some(start) = first_at(a, mark, 0) {
        assert(a.subrange(start, start + mark.len())[0] == '[');
        assert(a[start] == '[');
    }
    assert(mark.len() == 19);
    let rest = text.skip(at + 19);
    assert(rest =~= id.push(']') + b);
    crate::pieces::law_cut_finds_the_first(id, ']', b);
    crate::pieces::lemma_char_from(rest, ']', 0);
    let end = char_from(rest, ']', 0);
    assert(end is Some);
    assert(rest.take(end->0) == id);
}

/// A job is cloned exactly if the controller grants it and names the new job, whose page is then
/// shown; otherwise it is told what went wrong.
pub proof fn law_clones_lead_to_the_new_job(status: u16, body: Seq<char>, id: u64)
    ensures
        200 <= status <= 299 ==> clone_answer(Some(status), body, Some(id)) == (
            true,
            "/jobs/"@ + decimal(id as nat),
        ),
        200 <= status <= 299 ==> !clone_answer(Some(status), body, None).0,
        !(200 <= status <= 299) ==> !clone_answer(Some(status), body, Some(id)).0 && clone_answer(
            Some(status),
            body,
            Some(id),
        ).1 == (if body.len() == 0 {
            "Clone failed: HTTP "@ + decimal(status as nat)
        } else {
            "Clone failed: HTTP "@ + decimal(status as nat) + " - "@ + body
        }),
        clone_answer(None, body, Some(id)) == (false, "Clone failed: network error"@),
{
}

/// A clone asks for what the job asked for: the same program with the same arguments, the same nodes,
/// cores and memory, the same time and priority, for the same user and in the same directory and
/// container. Of an array it asks for the one task.
pub proof fn law_clones_ask_for_the_same(job: JobInfo)
    ensures
        ({
            let c = clone_of(job);
            &&& c.binary == job.binary@ && c.args == texts(job.args@)
            &&& c.req_nodes == job.req_nodes && c.req_cores == job.req_cores && c.req_memory
                == job.req_memory
            &&& c.walltime == job.walltime && c.priority == job.priority
            &&& c.user_id == job.user_id@ && c.working_directory == job.working_directory@
            &&& c.job_name == optional_text(job.job_name) && c.job_comment == optional_text(
                job.job_comment,
            )
            &&& c.dependencies == numbers_of(job.dependencies) && c.vnc_enabled == job.vnc_enabled
            &&& c.array_indices is Some <==> job.array_task_id is Some
            &&& c.array_indices is Some ==> c.array_indices->0 == seq![job.array_task_id->0]
            &&& c.image_uri is Some <==> job.container is Some
            &&& c.image_uri is Some ==> c.image_uri->0 == "veloce://"@ + job.container->0.id@
            &&& c.carried == crate::envs::pair_texts(job.carried@)
        }),
{
}

/// A file of a job is saved under a name that tells the job; its output and its errors are saved
/// apart, and apart from its archives.
pub proof fn law_saved_files_are_told_apart(a: JobFile, b: JobFile, id: Seq<char>)
    ensures
        saved_name(a, id) == saved_name(b, id) ==> a == b,
        crate::text::has_text(saved_name(a, id), id),
        a == JobFile::Stdout ==> crate::text::has_suffix(saved_name(a, id), "_stdout.log"@),
        a == JobFile::Stderr ==> crate::text::has_suffix(saved_name(a, id), "_stderr.log"@),
        a == JobFile::Workdir ==> crate::text::has_suffix(saved_name(a, id), "_workdir.tar.gz"@),
        a == JobFile::Results ==> crate::text::has_suffix(saved_name(a, id), ".tar.gz"@)
            && crate::text::has_prefix(saved_name(a, id), "results_job_"@),
{
    reveal_strlit("results_job_");
    reveal_strlit("job_");
    reveal_strlit(".tar.gz");
    reveal_strlit("_stdout.log");
    reveal_strlit("_stderr.log");
    reveal_strlit("_workdir.tar.gz");
    let j = "job_"@;
    let o = j + id + "_stdout.log"@;
    let e = j + id + "_stderr.log"@;
    let w = j + id + "_workdir.tar.gz"@;
    let r = "results_job_"@ + id + ".tar.gz"@;
    assert(o.len() == id.len() + 15 && e.len() == id.len() + 15 && w.len() == id.len() + 19
        && r.len() == id.len() + 19);
    assert(o[id.len() as int + 8] == 'o');
    assert(e[id.len() as int + 8] == 'e');
    assert(w[0] == 'j' && r[0] == 'r');
    crate::text::lemma_holds(j, id, "_stdout.log"@);
    crate::text::lemma_holds(j, id, "_stderr.log"@);
    crate::text::lemma_holds(j, id, "_workdir.tar.gz"@);
    crate::text::lemma_holds("results_job_"@, id, ".tar.gz"@);
    crate::text::lemma_ends_with(j + id, "_stdout.log"@);
    crate::text::lemma_ends_with(j + id, "_stderr.log"@);
    crate::text::lemma_ends_with(j + id, "_workdir.tar.gz"@);
    crate::text::lemma_ends_with("results_job_"@ + id, ".tar.gz"@);
    assert(r.subrange(0, 12) =~= "results_job_"@);
}

/// The output of a job can always be seen. Its shell can be opened while it runs; so can its desktop
/// and its notebook, if it has them.
pub proof fn law_consoles_are_there_while_a_job_runs(job: JobInfo)
    ensures
        ({
            let t = tabs_of(Some(job));
            let running = job.status is Running;
            &&& t.contains("logs"@)
            &&& t.contains("terminal"@) <==> running
            &&& t.contains("vnc"@) <==> running && job.vnc_enabled
            &&& t.contains("jupyter"@) <==> running && job.interactive_port is Some
            &&& tabs_of(None) == seq!["logs"@]
        }),
{
    reveal_strlit("logs");
    reveal_strlit("terminal");
    reveal_strlit("vnc");
    reveal_strlit("jupyter");
    assert("logs"@.len() == 4);
    assert("terminal"@.len() == 8);
    assert("vnc"@.len() == 3);
    assert("jupyter"@.len() == 7);
    let t = tabs_of(Some(job));
    assert(t[0] == "logs"@);
    if job.status is Running {
        assert(t[1] == "terminal"@);
        if job.vnc_enabled {
            assert(t[2] == "vnc"@);
        }
        if job.interactive_port is Some {
            assert(t[t.len() - 1] == "jupyter"@);
        }
    }
}

/// A tab shows what it says, and of the job that the page is of.
pub proof fn law_tabs_show_their_job(id: u64)
    ensures
        panel_of("logs"@, decimal(id as nat)) == Panel::Logs,
        panel_of("terminal"@, decimal(id as nat)) == Panel::Terminal(id),
        panel_of("vnc"@, decimal(id as nat)) == Panel::Vnc(id),
        panel_of("jupyter"@, decimal(id as nat)) == Panel::Jupyter(id),
{
    reveal_strlit("logs");
    reveal_strlit("terminal");
    reveal_strlit("vnc");
    reveal_strlit("jupyter");
    assert("logs"@.len() == 4);
    assert("terminal"@.len() == 8);
    assert("vnc"@.len() == 3);
    assert("jupyter"@.len() == 7);
    law_read_undoes_decimal(id as nat);
}

/// The output of every rank can be chosen where there are several, and none where there is one.
pub proof fn law_every_rank_is_offered(ranks: nat, i: int)
    ensures
        ranks >= 2 ==> ranks_offered(ranks).len() == ranks,
        ranks <= 1 ==> ranks_offered(ranks).len() == 0,
        ranks >= 2 && 0 <= i < ranks ==> ranks_offered(ranks)[i] == "Rank "@ + decimal(i as nat),
{
}

/// What belongs to a job is asked for below the job.
pub proof fn law_jobs_are_asked_for_by_number(id: Seq<char>, child: Seq<char>)
    ensures
        endpoint(id) == "/api/v1/jobs/"@ + id,
        child_endpoint(id, child) == endpoint(id) + "/"@ + child,
{
}

/// A step runs the program that was typed, with its arguments word by word, as so many tasks, on one
/// core of one node.
pub proof fn law_steps_run_what_was_typed(binary: Seq<char>, w: Seq<Seq<char>>, ntasks: u32)
    requires
        w.len() > 0,
        forall|i: int| 0 <= i < w.len() ==> crate::pieces::is_word(#[trigger] w[i]),
    ensures
        ({
            let s = step_of(binary, crate::pieces::joined(w, seq![' ']), ntasks);
            &&& s.binary == binary && s.args == w && s.ntasks == ntasks
            &&& s.req_nodes == 1 && s.req_cores == 1
        }),
{
    crate::pieces::law_words_are_read(w);
}

/// A job can be cancelled exactly as long as it has not ended.
pub proof fn law_only_unended_jobs_can_be_cancelled(status: StatusView)
    ensures
        cancellable(status) <==> !crate::web::notifications::is_terminal(status),
{
}

/// Nothing is asked for of a job that is not known, nor before the console is set up. Every change
/// asks for both the details and the output; each timer asks for its own, that of the output only
/// while the output is shown.
pub proof fn law_timers_ask_for_their_own(occasion: Occasion, id: Seq<char>, tab: Seq<char>)
    ensures
        !wants_details(occasion, id, false) && !wants_logs(occasion, id, tab, false),
        id.len() == 0 ==> !wants_details(occasion, id, true) && !wants_logs(occasion, id, tab, true),
        id.len() > 0 ==> {
            &&& wants_details(Occasion::Changed, id, true) && wants_logs(
                Occasion::Changed,
                id,
                tab,
                true,
            )
            &&& wants_details(Occasion::DetailsTimer, id, true) && !wants_logs(
                Occasion::DetailsTimer,
                id,
                tab,
                true,
            )
            &&& !wants_details(Occasion::LogsTimer, id, true)
            &&& wants_logs(Occasion::LogsTimer, id, tab, true) <==> tab == "logs"@
        },
{
}

} // verus!
