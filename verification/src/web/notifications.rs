//! The notes that tell the user how a job has ended.

use vstd::prelude::*;

use crate::model::JobStatus;
use crate::model::StatusView;
use crate::numbers::decimal;
use crate::numbers::decimal_i64;
use crate::numbers::decimal_int;
use crate::numbers::decimal_u64;
use crate::web::info::JobInfo;

verus! {

/// A job in this status will not run any more.
pub open spec fn is_terminal(status: StatusView) -> bool {
    status is Completed || status is Failed || status is Killed
}

pub fn is_terminal_status(status: &JobStatus) -> (r: bool)
    ensures
        r == is_terminal(status@),
{
    match status {
        JobStatus::Completed(_) => true,
        JobStatus::Failed(_) => true,
        JobStatus::Killed => true,
        _ => false,
    }
}

/// A status in words.
pub open spec fn status_words(status: StatusView) -> Seq<char> {
    match status {
        StatusView::Completed(code) => "completed (exit "@ + decimal_int(code as int) + ")"@,
        StatusView::Failed(reason) => "failed ("@ + reason + ")"@,
        StatusView::Killed => "killed"@,
        StatusView::Pending => "pending"@,
        StatusView::Running => "running"@,
    }
}

pub fn status_label(status: &JobStatus) -> (r: String)
    ensures
        r@ == status_words(status@),
{
    match status {
        JobStatus::Completed(code) => {
            let mut r: String = "completed (exit ".to_string();
            r.append(&decimal_i64(*code as i64));
            r.append(")");
            r
        },
        JobStatus::Failed(reason) => {
            let mut r: String = "failed (".to_string();
            r.append(reason);
            r.append(")");
            r
        },
        JobStatus::Killed => "killed".to_string(),
        JobStatus::Pending => "pending".to_string(),
        JobStatus::Running => "running".to_string(),
    }
}

/// Where a job stands first in a list, from `from` on.
pub open spec fn position(jobs: Seq<JobInfo>, id: u64, from: int) -> Option<int>
    decreases jobs.len() - from,
{
    if from < 0 || from >= jobs.len() {
        None
    } else if jobs[from].id == id {
        Some(from)
    } else {
        position(jobs, id, from + 1)
    }
}

/// A job is worth a note: it was known before, its status has changed, and it has ended.
pub open spec fn has_ended(previous: Seq<JobInfo>, job: JobInfo) -> bool {
    match position(previous, job.id, 0) {
        Some(i) => previous[i].status@ != job.status@ && is_terminal(job.status@),
        None => false,
    }
}

fn ended(previous: &Vec<JobInfo>, job: &JobInfo) -> (r: bool)
    ensures
        r == has_ended(previous@, *job),
{
    let mut i: usize = 0;
    while i < previous.len()
        invariant
            i <= previous@.len(),
            position(previous@, job.id, 0) == position(previous@, job.id, i as int),
        decreases previous@.len() - i,
    {
        if previous[i].id == job.id {
            return !previous[i].status.same(&job.status) && is_terminal_status(&job.status);
        }
        i = i + 1;
    }
    false
}

/// A note about a job.
pub struct Notice {
    pub title: String,
    pub body: String,
}

/// What a job is called in a note: by its name, or else its comment, or else its program.
pub open spec fn called(job: JobInfo) -> Seq<char> {
    match job.job_name {
        Some(name) => name@,
        None => match job.job_comment {
            Some(comment) => comment@,
            None => job.binary@,
        },
    }
}

/// The title and the body of a note.
pub open spec fn notice_texts(job: JobInfo) -> (Seq<char>, Seq<char>) {
    ("Job "@ + decimal(job.id as nat) + " "@ + status_words(job.status@), called(job))
}

pub open spec fn notice_views(notices: Seq<Notice>) -> Seq<(Seq<char>, Seq<char>)> {
    Seq::new(notices.len(), |i: int| (notices[i].title@, notices[i].body@))
}

/// The notes for a list of jobs.
pub open spec fn notices_for(previous: Seq<JobInfo>, current: Seq<JobInfo>) -> Seq<
    (Seq<char>, Seq<char>),
>
    decreases current.len(),
{
    if current.len() == 0 {
        Seq::empty()
    } else {
        let rest = notices_for(previous, current.drop_last());
        if has_ended(previous, current.last()) {
            rest.push(notice_texts(current.last()))
        } else {
            rest
        }
    }
}

fn notice_of(job: &JobInfo) -> (r: Notice)
    ensures
        (r.title@, r.body@) == notice_texts(*job),
{
    let mut title: String = "Job ".to_string();
    title.append(&decimal_u64(job.id));
    title.append(" ");
    title.append(&status_label(&job.status));
    let body: String = match &job.job_name {
        Some(name) => name.clone(),
        None => match &job.job_comment {
            Some(comment) => comment.clone(),
            None => job.binary.clone(),
        },
    };
    Notice { title, body }
}

/// The notes that are due when the list of jobs changes from `previous` to `current`; none where
/// notes are not `permitted`.
pub fn notify_job_status_changes(
    permitted: bool,
    previous: &Vec<JobInfo>,
    current: &Vec<JobInfo>,
) -> (r: Vec<Notice>)
    ensures
        notice_views(r@) == if permitted {
            notices_for(previous@, current@)
        } else {
            Seq::empty()
        },
{
    let mut r: Vec<Notice> = Vec::new();
    assert(notice_views(r@) =~= Seq::<(Seq<char>, Seq<char>)>::empty());
    if !permitted {
        return r;
    }
    let mut i: usize = 0;
    assert(current@.take(0) =~= Seq::<JobInfo>::empty());
    while i < current.len()
        invariant
            i <= current@.len(),
            notice_views(r@) == notices_for(previous@, current@.take(i as int)),
        decreases current@.len() - i,
    {
        proof {
            assert(current@.take(i + 1).drop_last() =~= current@.take(i as int));
            assert(current@.take(i + 1).last() == current@[i as int]);
        }
        if ended(previous, &current[i]) {
            let ghost seen = r@;
            r.push(notice_of(&current[i]));
            assert(notice_views(r@) =~= notice_views(seen).push(
                notice_texts(current@[i as int]),
            ));
        }
        i = i + 1;
    }
    assert(current@.take(current@.len() as int) =~= current@);
    r
}

/// No job is told of twice: a list that has not changed gives no notes.
pub proof fn law_unchanged_jobs_give_no_notes(jobs: Seq<JobInfo>, current: Seq<JobInfo>)
    requires
        forall|k: int|
            0 <= k < current.len() ==> (position(jobs, (#[trigger] current[k]).id, 0) matches Some(
                i,
            ) ==> jobs[i].status@ == current[k].status@),
    ensures
        notices_for(jobs, current).len() == 0,
    decreases current.len(),
{
    if current.len() > 0 {
        let rest = current.drop_last();
        assert forall|k: int| 0 <= k < rest.len() implies (position(
            jobs,
            (#[trigger] rest[k]).id,
            0,
        ) matches Some(i) ==> jobs[i].status@ == rest[k].status@) by {
            assert(rest[k] == current[k]);
        }
        law_unchanged_jobs_give_no_notes(jobs, rest);
        let last = current[current.len() - 1];
        assert(current.last() == last);
    }
}

/// A job has ended exactly if it is completed, failed or killed.
pub proof fn law_only_these_statuses_are_ends(status: StatusView)
    ensures
        is_terminal(status) <==> status != StatusView::Pending && status != StatusView::Running,
{
}

proof fn lemma_first_position(jobs: Seq<JobInfo>, id: u64, from: int, i: int)
    requires
        0 <= from <= i < jobs.len(),
        jobs[i].id == id,
        forall|k: int| 0 <= k < i ==> (#[trigger] jobs[k]).id != id,
    ensures
        position(jobs, id, from) == Some(i),
    decreases i - from,
{
    if from < i {
        assert(jobs[from].id != id);
        lemma_first_position(jobs, id, from + 1, i);
    }
}

proof fn lemma_no_such_position(jobs: Seq<JobInfo>, id: u64, from: int)
    requires
        0 <= from,
        forall|k: int| 0 <= k < jobs.len() ==> (#[trigger] jobs[k]).id != id,
    ensures
        position(jobs, id, from) is None,
    decreases jobs.len() - from,
{
    if from < jobs.len() {
        assert(jobs[from].id != id);
        lemma_no_such_position(jobs, id, from + 1);
    }
}

/// A job that was known is told of exactly if it has another status now, and one in which it has
/// ended. A job that was not known is not told of.
pub proof fn law_jobs_are_told_of_when_they_end(previous: Seq<JobInfo>, job: JobInfo, i: int)
    ensures
        0 <= i < previous.len() && previous[i].id == job.id && (forall|k: int|
            0 <= k < i ==> (#[trigger] previous[k]).id != job.id) ==> (has_ended(previous, job)
            <==> previous[i].status@ != job.status@ && (job.status@ is Completed || job.status@
            is Failed || job.status@ is Killed)),
        (forall|k: int| 0 <= k < previous.len() ==> (#[trigger] previous[k]).id != job.id)
            ==> !has_ended(previous, job),
{
    if 0 <= i < previous.len() && previous[i].id == job.id && (forall|k: int|
        0 <= k < i ==> (#[trigger] previous[k]).id != job.id) {
        lemma_first_position(previous, job.id, 0, i);
    }
    if forall|k: int| 0 <= k < previous.len() ==> (#[trigger] previous[k]).id != job.id {
        lemma_no_such_position(previous, job.id, 0);
    }
}

/// Every job that has ended gets one note, in the order of the list, and no other job gets one.
pub proof fn law_every_ended_job_gets_a_note(
    previous: Seq<JobInfo>,
    current: Seq<JobInfo>,
    job: JobInfo,
)
    ensures
        notices_for(previous, current.push(job)).len() == notices_for(previous, current).len() + (
        if has_ended(previous, job) {
            1int
        } else {
            0
        }),
        has_ended(previous, job) ==> notices_for(previous, current.push(job)).last().0 == "Job "@
            + decimal(job.id as nat) + " "@ + status_words(job.status@),
        notices_for(previous, current.push(job)).take(notices_for(previous, current).len() as int)
            == notices_for(previous, current),
{
    assert(current.push(job).drop_last() =~= current);
    let rest = notices_for(previous, current);
    assert(rest.push(notice_texts(job)).take(rest.len() as int) =~= rest);
    assert(rest.take(rest.len() as int) =~= rest);
}

/// A note says how the job ended: with what code, or why it failed; and it calls the job by its
/// name, or else by its comment, or else by its program.
pub proof fn law_notes_say_how_it_ended(job: JobInfo)
    ensures
        job.status@ matches StatusView::Completed(code) ==> status_words(job.status@)
            == "completed (exit "@ + decimal_int(code as int) + ")"@,
        job.status@ matches StatusView::Failed(reason) ==> status_words(job.status@) == "failed ("@
            + reason + ")"@,
        job.status@ is Killed ==> status_words(job.status@) == "killed"@,
        job.job_name is Some ==> called(job) == job.job_name->0@,
        job.job_name is None && job.job_comment is Some ==> called(job) == job.job_comment->0@,
        job.job_name is None && job.job_comment is None ==> called(job) == job.binary@,
{
}

} // verus!
