//! The list of jobs: which are shown, in which order, and what is told of each.

use vstd::prelude::*;

use crate::model::status_name;
use crate::model::JobStatus;
use crate::model::StatusView;
use crate::numbers::decimal;
use crate::numbers::decimal_u32;
use crate::numbers::decimal_u64;
use crate::order::law_text_order_is_total;
use crate::order::law_text_order_is_transitive;
use crate::order::stable_sort;
use crate::order::stably_sorted;
use crate::order::text_at_most;
use crate::order::text_le;
use crate::order::total_order;
use crate::pieces::join;
use crate::pieces::joined;
use crate::text::contains;
use crate::text::has_text;
use crate::text::lemma_texts_push;
use crate::text::optional_text;
use crate::text::str_eq;
use crate::text::texts;
use crate::web::format::job_duration;
use crate::web::format::job_duration_text;
use crate::web::info::JobInfo;
use crate::web::listing::keep;
use crate::web::listing::page_of;
use crate::web::listing::take_page;

verus! {

/// How many jobs stand on a page.
pub const JOBS_PER_PAGE: usize = 10;

/// The status is of the kind that the list is narrowed to; a kind that is not known narrows
/// nothing.
pub open spec fn status_matches(status: StatusView, filter: Seq<char>) -> bool {
    if filter == "All"@ {
        true
    } else if filter == "Pending"@ {
        status is Pending
    } else if filter == "Running"@ {
        status is Running
    } else if filter == "Completed"@ {
        status is Completed
    } else if filter == "Failed"@ {
        status is Failed
    } else if filter == "Killed"@ {
        status is Killed
    } else {
        true
    }
}

/// A job is shown: its user's name holds the text asked for, and its status is of the kind
/// asked for.
pub open spec fn job_shown(job: JobInfo, user: Seq<char>, filter: Seq<char>) -> bool {
    (user.len() == 0 || has_text(job.user_id@, user)) && status_matches(job.status@, filter)
}

/// The jobs that are shown, in the order in which they came.
pub open spec fn shown_jobs(jobs: Seq<JobInfo>, user: Seq<char>, filter: Seq<char>) -> Seq<
    JobInfo,
> {
    jobs.filter(|job: JobInfo| job_shown(job, user, filter))
}

fn is_shown(job: &JobInfo, user: &str, filter: &str) -> (r: bool)
    ensures
        r == job_shown(*job, user@, filter@),
{
    if !(user.is_empty() || contains(&job.user_id, user)) {
        return false;
    }
    if str_eq(filter, "All") {
        true
    } else if str_eq(filter, "Pending") {
        match job.status {
            JobStatus::Pending => true,
            _ => false,
        }
    } else if str_eq(filter, "Running") {
        match job.status {
            JobStatus::Running => true,
            _ => false,
        }
    } else if str_eq(filter, "Completed") {
        match job.status {
            JobStatus::Completed(_) => true,
            _ => false,
        }
    } else if str_eq(filter, "Failed") {
        match job.status {
            JobStatus::Failed(_) => true,
            _ => false,
        }
    } else if str_eq(filter, "Killed") {
        match job.status {
            JobStatus::Killed => true,
            _ => false,
        }
    } else {
        true
    }
}

/// The order of texts of which some are missing: those come first.
pub open spec fn optional_le(a: Option<String>, b: Option<String>) -> bool {
    match (a, b) {
        (None, _) => true,
        (Some(_), None) => false,
        (Some(x), Some(y)) => text_le(x@, y@),
    }
}

fn optional_at_most(a: &Option<String>, b: &Option<String>) -> (r: bool)
    ensures
        r == optional_le(*a, *b),
{
    match (a, b) {
        (None, _) => true,
        (Some(_), None) => false,
        (Some(x), Some(y)) => text_at_most(x, y),
    }
}

/// `a` stands before `b`, or level with it, in the rising order of a column. In a column that is
/// not known all jobs stand level.
pub open spec fn job_le(column: Seq<char>, a: JobInfo, b: JobInfo) -> bool {
    if column == "id"@ {
        a.id <= b.id
    } else if column == "name"@ {
        optional_le(a.job_name, b.job_name)
    } else if column == "user"@ {
        text_le(a.user_id@, b.user_id@)
    } else if column == "status"@ {
        text_le(status_name(a.status@), status_name(b.status@))
    } else if column == "nodes"@ {
        a.req_nodes <= b.req_nodes
    } else if column == "cores"@ {
        a.req_cores <= b.req_cores
    } else if column == "priority"@ {
        a.priority <= b.priority
    } else if column == "submitted"@ {
        a.queued_time <= b.queued_time
    } else {
        true
    }
}

fn job_at_most(column: &str, a: &JobInfo, b: &JobInfo) -> (r: bool)
    ensures
        r == job_le(column@, *a, *b),
{
    if str_eq(column, "id") {
        a.id <= b.id
    } else if str_eq(column, "name") {
        optional_at_most(&a.job_name, &b.job_name)
    } else if str_eq(column, "user") {
        text_at_most(&a.user_id, &b.user_id)
    } else if str_eq(column, "status") {
        text_at_most(&a.status.name(), &b.status.name())
    } else if str_eq(column, "nodes") {
        a.req_nodes <= b.req_nodes
    } else if str_eq(column, "cores") {
        a.req_cores <= b.req_cores
    } else if str_eq(column, "priority") {
        a.priority <= b.priority
    } else if str_eq(column, "submitted") {
        a.queued_time <= b.queued_time
    } else {
        true
    }
}

/// The order in which jobs are listed: by a column, rising or falling.
pub open spec fn job_order(column: Seq<char>, descending: bool) -> spec_fn(
    JobInfo,
    JobInfo,
) -> bool {
    if descending {
        |a: JobInfo, b: JobInfo| job_le(column, b, a)
    } else {
        |a: JobInfo, b: JobInfo| job_le(column, a, b)
    }
}

proof fn lemma_job_le_total(column: Seq<char>, a: JobInfo, b: JobInfo)
    ensures
        job_le(column, a, b) || job_le(column, b, a),
{
    law_text_order_is_total(a.user_id@, b.user_id@);
    law_text_order_is_total(status_name(a.status@), status_name(b.status@));
    if a.job_name is Some && b.job_name is Some {
        law_text_order_is_total(a.job_name->0@, b.job_name->0@);
    }
}

proof fn lemma_job_le_transitive(column: Seq<char>, a: JobInfo, b: JobInfo, c: JobInfo)
    requires
        job_le(column, a, b),
        job_le(column, b, c),
    ensures
        job_le(column, a, c),
{
    if column == "user"@ && column != "id"@ && column != "name"@ {
        law_text_order_is_transitive(a.user_id@, b.user_id@, c.user_id@);
    } else if column == "status"@ && column != "id"@ && column != "name"@ {
        law_text_order_is_transitive(
            status_name(a.status@),
            status_name(b.status@),
            status_name(c.status@),
        );
    } else if column == "name"@ && column != "id"@ {
        if a.job_name is Some && b.job_name is Some && c.job_name is Some {
            law_text_order_is_transitive(a.job_name->0@, b.job_name->0@, c.job_name->0@);
        }
    }
}

/// Any two jobs can be put into the order of a column, rising or falling.
pub proof fn law_jobs_can_be_ordered(column: Seq<char>, descending: bool)
    ensures
        total_order(job_order(column, descending)),
{
    let le = job_order(column, descending);
    assert forall|a: JobInfo, b: JobInfo| #[trigger] le(a, b) || le(b, a) by {
        lemma_job_le_total(column, a, b);
    }
    assert forall|a: JobInfo, b: JobInfo, c: JobInfo| #[trigger] le(a, b) && #[trigger] le(
        b,
        c,
    ) implies le(a, c) by {
        if descending {
            lemma_job_le_transitive(column, c, b, a);
        } else {
            lemma_job_le_transitive(column, a, b, c);
        }
    }
}

/// The jobs to be listed, in order; jobs that stand level keep the order in which they came.
pub fn filtered_jobs(
    jobs: Vec<JobInfo>,
    user: &str,
    filter: &str,
    column: &str,
    descending: bool,
) -> (r: Vec<JobInfo>)
    ensures
        stably_sorted(
            r@,
            shown_jobs(jobs@, user@, filter@),
            job_order(column@, descending),
        ),
{
    let shown = |job: &JobInfo| -> (q: bool)
        ensures
            (q == job_shown(*job, user@, filter@)),
        { is_shown(job, user, filter) };
    let kept: Vec<JobInfo> = keep(
        jobs,
        shown,
        Ghost(|job: JobInfo| job_shown(job, user@, filter@)),
    );
    proof {
        law_jobs_can_be_ordered(column@, descending);
    }
    let at_most = |a: &JobInfo, b: &JobInfo| -> (q: bool)
        ensures
            (q == job_order(column@, descending)(*a, *b)),
        {
            if descending {
                job_at_most(column, b, a)
            } else {
                job_at_most(column, a, b)
            }
        };
    stable_sort(kept, at_most, Ghost(job_order(column@, descending)))
}

/// The jobs on one page of the list.
pub fn paginated_jobs(
    jobs: Vec<JobInfo>,
    user: &str,
    filter: &str,
    column: &str,
    descending: bool,
    page: usize,
) -> (r: Vec<JobInfo>)
    ensures
        exists|all: Seq<JobInfo>| #[trigger]
            stably_sorted(
                all,
                shown_jobs(jobs@, user@, filter@),
                job_order(column@, descending),
            ) && r@ == page_of(all, page as nat, JOBS_PER_PAGE as nat),
{
    take_page(filtered_jobs(jobs, user, filter, column, descending), page, JOBS_PER_PAGE)
}

/// Which column the list is sorted by, and which way.
pub struct SortState {
    pub column: String,
    pub descending: bool,
}

/// Columns of numbers start with the largest, columns of texts with the first.
pub open spec fn starts_descending(column: Seq<char>) -> bool {
    column == "id"@ || column == "submitted"@ || column == "nodes"@ || column == "cores"@
        || column == "priority"@
}

/// How a list is sorted after a click on the head of a column.
pub open spec fn clicked(sorted_by: Seq<char>, descending: bool, column: Seq<char>) -> (
    Seq<char>,
    bool,
) {
    if sorted_by == column {
        (column, !descending)
    } else {
        (column, starts_descending(column))
    }
}

impl SortState {
    /// A list starts out with the newest job.
    pub fn new() -> (r: SortState)
        ensures
            r.column@ == "id"@,
            r.descending,
    {
        SortState { column: "id".to_string(), descending: true }
    }

    /// The head of a column is clicked: the column sorted by is turned round, another one takes
    /// its place.
    pub fn click(&mut self, column: &str)
        ensures
            (final(self).column@, final(self).descending) == clicked(
                old(self).column@,
                old(self).descending,
                column@,
            ),
            final(self).column@ == column@,
            final(self).descending == if old(self).column@ == column@ {
                !old(self).descending
            } else {
                starts_descending(column@)
            },
    {
        if str_eq(&self.column, column) {
            self.descending = !self.descending;
        } else {
            self.column = column.to_string();
            self.descending = str_eq(column, "id") || str_eq(column, "submitted") || str_eq(
                column,
                "nodes",
            ) || str_eq(column, "cores") || str_eq(column, "priority");
        }
    }

    /// The mark at the head of a column.
    pub fn arrow(&self, column: &str) -> (r: &'static str)
        ensures
            r@ == if self.column@ != column@ {
                ""@
            } else if self.descending {
                " ▼"@
            } else {
                " ▲"@
            },
    {
        if !str_eq(&self.column, column) {
            ""
        } else if self.descending {
            " ▼"
        } else {
            " ▲"
        }
    }
}

/// What the list says of a status: a killed job was cancelled.
pub open spec fn shown_status(status: StatusView) -> Seq<char> {
    if status is Killed {
        "CANCELLED"@
    } else {
        status_name(status)
    }
}

pub fn status_text(status: &JobStatus) -> (r: String)
    ensures
        r@ == shown_status(status@),
{
    match status {
        JobStatus::Killed => "CANCELLED".to_string(),
        _ => status.name(),
    }
}

/// The class of the badge of a status.
pub open spec fn badge_class(status: StatusView) -> Seq<char> {
    match status {
        StatusView::Pending => "badge pending"@,
        StatusView::Running => "badge running"@,
        StatusView::Completed(_) => "badge completed"@,
        StatusView::Failed(_) => "badge failed"@,
        StatusView::Killed => "badge killed"@,
    }
}

pub fn status_class(status: &JobStatus) -> (r: &'static str)
    ensures
        r@ == badge_class(status@),
{
    match status {
        JobStatus::Pending => "badge pending",
        JobStatus::Running => "badge running",
        JobStatus::Completed(_) => "badge completed",
        JobStatus::Failed(_) => "badge failed",
        JobStatus::Killed => "badge killed",
    }
}

/// The place of a job in its array.
pub open spec fn array_place(array_id: Option<u64>, task: Option<u32>) -> Seq<char> {
    if array_id is Some && task is Some {
        decimal(array_id->0 as nat) + ":"@ + decimal(task->0 as nat)
    } else {
        "-"@
    }
}

pub fn array_text(array_id: Option<u64>, task: Option<u32>) -> (r: String)
    ensures
        r@ == array_place(array_id, task),
{
    match (array_id, task) {
        (Some(id), Some(task)) => {
            let mut r: String = decimal_u64(id);
            r.append(":");
            r.append(&decimal_u32(task));
            r
        },
        _ => "-".to_string(),
    }
}

/// A list of jobs by number.
pub open spec fn numbers_listed(ids: Seq<u64>) -> Seq<char> {
    joined(Seq::new(ids.len(), |i: int| decimal(ids[i] as nat)), ", "@)
}

pub fn list_numbers(ids: &Vec<u64>) -> (r: String)
    ensures
        r@ == numbers_listed(ids@),
{
    let mut parts: Vec<String> = Vec::new();
    let mut i: usize = 0;
    assert(texts(parts@) =~= Seq::new(0, |k: int| decimal(ids@[k] as nat)));
    while i < ids.len()
        invariant
            i <= ids@.len(),
            texts(parts@) == Seq::new(i as nat, |k: int| decimal(ids@[k] as nat)),
        decreases ids@.len() - i,
    {
        let ghost seen = parts@;
        let part: String = decimal_u64(ids[i]);
        proof {
            lemma_texts_push(seen, part);
        }
        parts.push(part);
        i = i + 1;
        assert(texts(parts@) =~= Seq::new(i as nat, |k: int| decimal(ids@[k] as nat)));
    }
    join(&parts, ", ")
}

/// The jobs that a job waits for.
pub open spec fn dependency_list(deps: Option<Vec<u64>>) -> Seq<char> {
    match deps {
        Some(ids) => if ids@.len() == 0 {
            "-"@
        } else {
            numbers_listed(ids@)
        },
        None => "-"@,
    }
}

pub fn deps_text(deps: &Option<Vec<u64>>) -> (r: String)
    ensures
        r@ == dependency_list(*deps),
{
    match deps {
        Some(ids) => if ids.len() == 0 {
            "-".to_string()
        } else {
            list_numbers(ids)
        },
        None => "-".to_string(),
    }
}

/// A text, or a dash where it is missing.
pub open spec fn or_dash(text: Option<String>) -> Seq<char> {
    match text {
        Some(text) => text@,
        None => "-"@,
    }
}

pub fn text_or_dash(text: &Option<String>) -> (r: String)
    ensures
        r@ == or_dash(*text),
{
    match text {
        Some(text) => text.clone(),
        None => "-".to_string(),
    }
}

/// The address of the page of a job.
pub open spec fn job_path(id: nat) -> Seq<char> {
    "/jobs/"@ + decimal(id)
}

pub fn job_href(id: u64) -> (r: String)
    ensures
        r@ == job_path(id as nat),
{
    let mut r: String = "/jobs/".to_string();
    r.append(&decimal_u64(id));
    r
}

/// Why a job waits; only of one that waits, and only if a reason is known.
pub open spec fn waiting_reason(job: JobInfo) -> Option<Seq<char>> {
    if job.status is Pending && job.reason is Some && job.reason->0@.len() > 0 {
        Some(job.reason->0@)
    } else {
        None
    }
}

pub fn shown_reason(job: &JobInfo) -> (r: Option<String>)
    ensures
        match waiting_reason(*job) {
            Some(reason) => r is Some && r->0@ == reason,
            None => r is None,
        },
{
    match (&job.status, &job.reason) {
        (JobStatus::Pending, Some(reason)) => if reason.as_str().is_empty() {
            None
        } else {
            Some(reason.clone())
        },
        _ => None,
    }
}

/// The badge of a job that has been idle.
pub fn idle_badge(job: &JobInfo) -> (r: Option<String>)
    ensures
        r is Some <==> job.is_idle,
        r matches Some(text) ==> text@ == "IDLE "@ + decimal(job.idle_duration as nat) + "s"@,
{
    if job.is_idle {
        let mut text: String = "IDLE ".to_string();
        text.append(&decimal_u64(job.idle_duration));
        text.append("s");
        Some(text)
    } else {
        None
    }
}

/// The badge of a job of which MPI statistics are known.
pub fn mpi_badge(job: &JobInfo) -> (r: Option<&'static str>)
    ensures
        r is Some <==> job.mpi_stats is Some,
        r matches Some(text) ==> text@ == "MPI"@,
{
    if job.mpi_stats.is_some() {
        Some("MPI")
    } else {
        None
    }
}

/// What a line of the list shows.
pub ghost struct RowView {
    pub href: Seq<char>,
    pub name: Seq<char>,
    pub status_class: Seq<char>,
    pub status_text: Seq<char>,
    pub idle: Option<Seq<char>>,
    pub mpi: bool,
    pub duration: Seq<char>,
    pub array: Seq<char>,
    pub container: Seq<char>,
    pub deps: Seq<char>,
    pub reason: Option<Seq<char>>,
}

pub open spec fn row_view(r: JobRow) -> RowView {
    RowView {
        href: r.href@,
        name: r.name@,
        status_class: r.status_class@,
        status_text: r.status_text@,
        idle: optional_text(r.idle),
        mpi: r.mpi is Some,
        duration: r.duration@,
        array: r.array@,
        container: r.container@,
        deps: r.deps@,
        reason: optional_text(r.reason),
    }
}

pub open spec fn row_of(job: JobInfo, now: u64) -> RowView {
    RowView {
        href: job_path(job.id as nat),
        name: or_dash(job.job_name),
        status_class: badge_class(job.status@),
        status_text: shown_status(job.status@),
        idle: if job.is_idle {
            Some("IDLE "@ + decimal(job.idle_duration as nat) + "s"@)
        } else {
            None
        },
        mpi: job.mpi_stats is Some,
        duration: job_duration(job.start_time, job.end_time, now),
        array: array_place(job.array_id, job.array_task_id),
        container: match job.container {
            Some(container) => container.name@,
            None => "-"@,
        },
        deps: dependency_list(job.dependencies),
        reason: waiting_reason(job),
    }
}

/// A line of the list.
pub struct JobRow {
    pub href: String,
    pub name: String,
    pub status_class: &'static str,
    pub status_text: String,
    pub idle: Option<String>,
    pub mpi: Option<&'static str>,
    pub duration: String,
    pub array: String,
    pub container: String,
    pub deps: String,
    pub reason: Option<String>,
}

pub fn job_row(job: &JobInfo, now: u64) -> (r: JobRow)
    ensures
        row_view(r) == row_of(*job, now),
        r.href@ == job_path(job.id as nat),
        r.name@ == or_dash(job.job_name),
        r.status_class@ == badge_class(job.status@),
        r.status_text@ == shown_status(job.status@),
        r.idle is Some <==> job.is_idle,
        r.idle matches Some(text) ==> text@ == "IDLE "@ + decimal(job.idle_duration as nat) + "s"@,
        r.mpi is Some <==> job.mpi_stats is Some,
        r.mpi matches Some(text) ==> text@ == "MPI"@,
        r.duration@ == job_duration(job.start_time, job.end_time, now),
        r.array@ == array_place(job.array_id, job.array_task_id),
        r.container@ == match job.container {
            Some(container) => container.name@,
            None => "-"@,
        },
        r.deps@ == dependency_list(job.dependencies),
        match waiting_reason(*job) {
            Some(reason) => r.reason is Some && r.reason->0@ == reason,
            None => r.reason is None,
        },
{
    let container: String = match &job.container {
        Some(container) => container.name.clone(),
        None => "-".to_string(),
    };
    JobRow {
        href: job_href(job.id),
        name: text_or_dash(&job.job_name),
        status_class: status_class(&job.status),
        status_text: status_text(&job.status),
        idle: idle_badge(job),
        mpi: mpi_badge(job),
        duration: job_duration_text(job.start_time, job.end_time, now),
        array: array_text(job.array_id, job.array_task_id),
        container,
        deps: deps_text(&job.dependencies),
        reason: shown_reason(job),
    }
}

/// Every job is shown in the list of all jobs, and in that of its own status; in that of another
/// status it is not shown.
pub proof fn law_jobs_are_shown_under_their_status(job: JobInfo)
    ensures
        ({
            let none = Seq::<char>::empty();
            &&& job_shown(job, none, "All"@)
            &&& job_shown(job, none, "Pending"@) <==> job.status@ is Pending
            &&& job_shown(job, none, "Running"@) <==> job.status@ is Running
            &&& job_shown(job, none, "Completed"@) <==> job.status@ is Completed
            &&& job_shown(job, none, "Failed"@) <==> job.status@ is Failed
            &&& job_shown(job, none, "Killed"@) <==> job.status@ is Killed
        }),
{
    reveal_strlit("All");
    reveal_strlit("Pending");
    reveal_strlit("Running");
    reveal_strlit("Completed");
    reveal_strlit("Failed");
    reveal_strlit("Killed");
    assert("All"@.len() == 3);
    assert("Pending"@.len() == 7);
    assert("Running"@.len() == 7);
    assert("Completed"@.len() == 9);
    assert("Failed"@.len() == 6);
    assert("Killed"@.len() == 6);
    assert("Pending"@[0] != "Running"@[0]);
    assert("Failed"@[0] != "Killed"@[0]);
}

/// A list for a user shows the jobs whose user's name holds what was typed, and no others.
pub proof fn law_jobs_are_shown_to_their_users(
    job: JobInfo,
    a: Seq<char>,
    user: Seq<char>,
    b: Seq<char>,
)
    ensures
        job.user_id@ == a + user + b ==> job_shown(job, user, "All"@),
        user.len() > 0 && !has_text(job.user_id@, user) ==> !job_shown(job, user, "All"@),
{
    crate::text::lemma_holds(a, user, b);
}

/// What is listed are jobs that came, and every job that came is listed if it is to be shown.
pub proof fn law_no_shown_job_is_missing(
    jobs: Seq<JobInfo>,
    user: Seq<char>,
    filter: Seq<char>,
    job: JobInfo,
)
    ensures
        shown_jobs(jobs, user, filter).contains(job) <==> jobs.contains(job) && job_shown(
            job,
            user,
            filter,
        ),
{
    let p = |job: JobInfo| job_shown(job, user, filter);
    crate::web::listing::lemma_kept_exactly(jobs, p, job);
}

/// A list that is sorted by a column rises in that column, or falls.
pub proof fn law_lists_are_sorted_by_their_column(
    r: Seq<JobInfo>,
    s: Seq<JobInfo>,
    column: Seq<char>,
    i: int,
    j: int,
)
    requires
        0 <= i <= j < r.len(),
    ensures
        ({
            let rising = stably_sorted(r, s, job_order(column, false));
            let falling = stably_sorted(r, s, job_order(column, true));
            &&& column == "id"@ ==> (rising ==> r[i].id <= r[j].id) && (falling ==> r[i].id
                >= r[j].id)
            &&& column == "user"@ ==> (rising ==> text_le(r[i].user_id@, r[j].user_id@)) && (falling
                ==> text_le(r[j].user_id@, r[i].user_id@))
            &&& column == "status"@ ==> (rising ==> text_le(
                status_name(r[i].status@),
                status_name(r[j].status@),
            )) && (falling ==> text_le(status_name(r[j].status@), status_name(r[i].status@)))
            &&& column == "nodes"@ ==> (rising ==> r[i].req_nodes <= r[j].req_nodes) && (falling
                ==> r[i].req_nodes >= r[j].req_nodes)
            &&& column == "cores"@ ==> (rising ==> r[i].req_cores <= r[j].req_cores) && (falling
                ==> r[i].req_cores >= r[j].req_cores)
            &&& column == "priority"@ ==> (rising ==> r[i].priority <= r[j].priority) && (falling
                ==> r[i].priority >= r[j].priority)
            &&& column == "submitted"@ ==> (rising ==> r[i].queued_time <= r[j].queued_time) && (
            falling ==> r[i].queued_time >= r[j].queued_time)
            &&& column == "name"@ && r[i].job_name is Some && r[j].job_name is Some ==> (rising
                ==> text_le(r[i].job_name->0@, r[j].job_name->0@)) && (falling ==> text_le(
                r[j].job_name->0@,
                r[i].job_name->0@,
            ))
            &&& column == "name"@ && rising && r[j].job_name is None ==> r[i].job_name is None
            &&& column == "name"@ && falling && r[i].job_name is None ==> r[j].job_name is None
        }),
{
    reveal_strlit("id");
    reveal_strlit("name");
    reveal_strlit("user");
    reveal_strlit("status");
    reveal_strlit("nodes");
    reveal_strlit("cores");
    reveal_strlit("priority");
    reveal_strlit("submitted");
    assert("id"@.len() == 2);
    assert("name"@.len() == 4);
    assert("user"@.len() == 4);
    assert("status"@.len() == 6);
    assert("nodes"@.len() == 5);
    assert("cores"@.len() == 5);
    assert("priority"@.len() == 8);
    assert("submitted"@.len() == 9);
    assert("name"@[0] != "user"@[0]);
    assert("nodes"@[0] != "cores"@[0]);
    let up = job_order(column, false);
    let down = job_order(column, true);
    if stably_sorted(r, s, up) {
        assert(up(r[i], r[j]));
    }
    if stably_sorted(r, s, down) {
        assert(down(r[i], r[j]));
    }
}

/// A column of numbers is shown with the largest first when it is clicked, a column of texts with
/// the first.
pub proof fn law_numbers_start_with_the_largest()
    ensures
        starts_descending("id"@) && starts_descending("submitted"@) && starts_descending("nodes"@)
            && starts_descending("cores"@) && starts_descending("priority"@),
        !starts_descending("name"@) && !starts_descending("user"@) && !starts_descending(
            "status"@,
        ),
{
    reveal_strlit("id");
    reveal_strlit("name");
    reveal_strlit("user");
    reveal_strlit("status");
    reveal_strlit("nodes");
    reveal_strlit("cores");
    reveal_strlit("priority");
    reveal_strlit("submitted");
    assert("id"@.len() == 2);
    assert("name"@.len() == 4);
    assert("user"@.len() == 4);
    assert("status"@.len() == 6);
    assert("nodes"@.len() == 5);
    assert("cores"@.len() == 5);
    assert("priority"@.len() == 8);
    assert("submitted"@.len() == 9);
    assert("name"@[0] != "user"@[0]);
    assert("nodes"@[0] != "cores"@[0]);
}

/// Jobs of different status have different badges, and the same badge if they only differ in the
/// code or the reason.
pub proof fn law_badges_tell_the_status(a: StatusView, b: StatusView)
    ensures
        badge_class(a) == badge_class(b) <==> (a is Pending && b is Pending) || (a is Running && b
            is Running) || (a is Completed && b is Completed) || (a is Failed && b is Failed) || (a
            is Killed && b is Killed),
        shown_status(a) == "CANCELLED"@ || shown_status(a) == status_name(a),
        a is Killed ==> shown_status(a) == "CANCELLED"@,
        !(a is Killed) ==> shown_status(a) == status_name(a),
        badge_class(StatusView::Running) == "badge running"@,
        badge_class(StatusView::Pending) == "badge pending"@,
        badge_class(StatusView::Killed) == "badge killed"@,
        a is Completed ==> badge_class(a) == "badge completed"@,
        a is Failed ==> badge_class(a) == "badge failed"@,
{
    reveal_strlit("badge pending");
    reveal_strlit("badge running");
    reveal_strlit("badge completed");
    reveal_strlit("badge failed");
    reveal_strlit("badge killed");
    assert("badge pending"@.len() == 13);
    assert("badge running"@.len() == 13);
    assert("badge completed"@.len() == 15);
    assert("badge failed"@.len() == 12);
    assert("badge killed"@.len() == 12);
    assert("badge pending"@[6] != "badge running"@[6]);
    assert("badge failed"@[6] != "badge killed"@[6]);
}

/// The place of a job in its array names the array and the task, which can be read out of it.
pub proof fn law_array_places_are_read(id: u64, task: u32)
    ensures
        crate::pieces::split_on(array_place(Some(id), Some(task)), ':') == seq![
            decimal(id as nat),
            decimal(task as nat),
        ],
        array_place(None, Some(task)) == "-"@,
        array_place(Some(id), None) == "-"@,
{
    reveal_strlit(":");
    let a = decimal(id as nat);
    let b = decimal(task as nat);
    crate::numbers::lemma_decimal_digits(id as nat);
    crate::numbers::lemma_decimal_digits(task as nat);
    if a.contains(':') {
        let i = choose|i: int| 0 <= i < a.len() && a[i] == ':';
        assert(crate::numbers::is_digit(a[i]));
    }
    if b.contains(':') {
        let i = choose|i: int| 0 <= i < b.len() && b[i] == ':';
        assert(crate::numbers::is_digit(b[i]));
    }
    crate::pieces::law_split_of_one_piece(a, ':');
    crate::pieces::law_split_at_the_end(a, ':', b);
    assert(array_place(Some(id), Some(task)) =~= a.push(':') + b);
    assert(seq![a].push(b) =~= seq![a, b]);
}

/// Why it waits is told of a job that waits, where a reason is known, and of no other.
pub proof fn law_only_waiting_jobs_have_a_reason(job: JobInfo)
    ensures
        waiting_reason(job) is Some ==> job.status@ is Pending,
        job.status@ is Pending && job.reason is Some && job.reason->0@.len() > 0
            ==> waiting_reason(job) == Some(job.reason->0@),
        job.reason is None ==> waiting_reason(job) is None,
{
}

/// The jobs that a job waits for are told by number, all of them and in order.
pub proof fn law_dependencies_are_listed(ids: Vec<u64>)
    ensures
        dependency_list(None) == "-"@,
        ids@.len() == 0 ==> dependency_list(Some(ids)) == "-"@,
        ids@.len() == 1 ==> dependency_list(Some(ids)) == decimal(ids@[0] as nat),
        ids@.len() >= 2 ==> dependency_list(Some(ids)) == numbers_listed(ids@.drop_last()) + ", "@
            + decimal(ids@.last() as nat),
{
    let all = Seq::new(ids@.len(), |i: int| decimal(ids@[i] as nat));
    if ids@.len() >= 2 {
        let front = ids@.drop_last();
        assert(all.drop_last() =~= Seq::new(front.len(), |i: int| decimal(front[i] as nat)));
    }
}

/// A line of the list shows what is known of its job: its own name and number, how it stands and how
/// long it has run, its array, its container, what it waits for and why.
pub proof fn law_rows_show_their_job(job: JobInfo, now: u64)
    ensures
        ({
            let r = row_of(job, now);
            &&& r.href == "/jobs/"@ + decimal(job.id as nat)
            &&& r.name == (match job.job_name {
                Some(name) => name@,
                None => "-"@,
            })
            &&& r.status_class == badge_class(job.status@)
            &&& r.status_text == shown_status(job.status@)
            &&& r.idle is Some <==> job.is_idle
            &&& r.idle is Some ==> r.idle->0 == "IDLE "@ + decimal(job.idle_duration as nat) + "s"@
            &&& r.mpi <==> job.mpi_stats is Some
            &&& r.duration == job_duration(job.start_time, job.end_time, now)
            &&& r.array == array_place(job.array_id, job.array_task_id)
            &&& job.container is Some ==> r.container == job.container->0.name@
            &&& job.container is None ==> r.container == "-"@
            &&& r.deps == dependency_list(job.dependencies)
            &&& r.reason == waiting_reason(job)
        }),
{
}

/// A click on the column that a list is sorted by turns it round, and a second one turns it back; a
/// click on another column sorts by that, whichever way it starts.
pub proof fn law_clicks_turn_columns_round(
    column: Seq<char>,
    descending: bool,
    other: Seq<char>,
)
    ensures
        clicked(column, descending, column) == (column, !descending),
        ({
            let once = clicked(column, descending, column);
            clicked(once.0, once.1, column) == (column, descending)
        }),
        other != column ==> clicked(column, descending, other) == (other, starts_descending(other)),
{
}

} // verus!
