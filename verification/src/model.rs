//! What the cluster says of its jobs.

use vstd::prelude::*;

use crate::numbers::decimal_i64;
use crate::numbers::decimal_int;
use crate::text::debug_quoted;
use crate::text::quote;
use crate::text::str_eq;

verus! {

/// Where a job stands.
pub enum JobStatus {
    Pending,
    Running,
    Completed(i32),
    Failed(String),
    Killed,
}

/// What a status says.
pub enum StatusView {
    Pending,
    Running,
    Completed(i32),
    Failed(Seq<char>),
    Killed,
}

/// The name of a status, with the exit code or the reason, which `quoted` gives in quotes, in
/// brackets.
pub open spec fn status_name_with(status: StatusView, quoted: Seq<char>) -> Seq<char> {
    match status {
        StatusView::Pending => "Pending"@,
        StatusView::Running => "Running"@,
        StatusView::Completed(code) => "Completed("@ + decimal_int(code as int) + ")"@,
        StatusView::Failed(_) => "Failed("@ + quoted + ")"@,
        StatusView::Killed => "Killed"@,
    }
}

/// The name of a status, with the exit code or the quoted reason in brackets.
pub open spec fn status_name(status: StatusView) -> Seq<char> {
    status_name_with(
        status,
        match status {
            StatusView::Failed(reason) => debug_quoted(reason),
            _ => Seq::empty(),
        },
    )
}

impl View for JobStatus {
    type V = StatusView;

    open spec fn view(&self) -> StatusView {
        match *self {
            JobStatus::Pending => StatusView::Pending,
            JobStatus::Running => StatusView::Running,
            JobStatus::Completed(code) => StatusView::Completed(code),
            JobStatus::Failed(reason) => StatusView::Failed(reason@),
            JobStatus::Killed => StatusView::Killed,
        }
    }
}

impl JobStatus {
    pub fn same(&self, other: &JobStatus) -> (r: bool)
        ensures
            r == (self@ == other@),
    {
        match (self, other) {
            (JobStatus::Pending, JobStatus::Pending) => true,
            (JobStatus::Running, JobStatus::Running) => true,
            (JobStatus::Completed(a), JobStatus::Completed(b)) => *a == *b,
            (JobStatus::Failed(a), JobStatus::Failed(b)) => str_eq(a, b),
            (JobStatus::Killed, JobStatus::Killed) => true,
            _ => false,
        }
    }

    /// The name of the status, with the exit code or the reason in brackets; `quoted` is the
    /// reason in quotes.
    pub fn name_with(&self, quoted: &str) -> (r: String)
        ensures
            r@ == status_name_with(self@, quoted@),
    {
        match self {
            JobStatus::Pending => "Pending".to_string(),
            JobStatus::Running => "Running".to_string(),
            JobStatus::Completed(code) => {
                let mut r: String = "Completed(".to_string();
                r.append(&decimal_i64(*code as i64));
                r.append(")");
                r
            },
            JobStatus::Failed(_) => {
                let mut r: String = "Failed(".to_string();
                r.append(quoted);
                r.append(")");
                r
            },
            JobStatus::Killed => "Killed".to_string(),
        }
    }

    /// The name of the status, with the exit code or the reason in brackets.
    pub fn name(&self) -> (r: String)
        ensures
            r@ == status_name(self@),
    {
        match self {
            JobStatus::Failed(reason) => self.name_with(&quote(reason)),
            _ => self.name_with(""),
        }
    }
}

/// The name of a status says which it is: statuses of different kinds have different names, and a
/// completed job's says its code.
pub proof fn law_names_tell_the_status(a: StatusView, b: StatusView)
    ensures
        status_name(StatusView::Pending) == "Pending"@,
        status_name(StatusView::Running) == "Running"@,
        status_name(StatusView::Killed) == "Killed"@,
        a matches StatusView::Completed(code) ==> status_name(a) == "Completed("@ + decimal_int(
            code as int,
        ) + ")"@,
        a matches StatusView::Failed(reason) ==> status_name(a) == "Failed("@ + debug_quoted(reason)
            + ")"@,
{
}

} // verus!
