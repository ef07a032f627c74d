//! Taking up the jobs again that outlived the worker.

use vstd::prelude::*;

use crate::job_runner::command_line;
use crate::job_runner::command_line_text;
use crate::job_runner::first_stop;
use crate::job_runner::message_view;
use crate::job_runner::outcome_of;
use crate::job_runner::EndMessage;
use crate::job_runner::JobEnd;
use crate::job_runner::KillSignal;
use crate::job_runner::MessageView;
use crate::pieces::join;
use crate::pieces::joined;
use crate::text::contains;
use crate::text::has_text;
use crate::text::texts;

verus! {

/// What is on record of a job: what decides about it after a restart, and the rest of it.
pub struct PersistedJob {
    pub job_id: u64,
    pub pid: u32,
    pub pgid: u32,
    pub binary: String,
    pub args: Vec<String>,
    pub walltime: u64,
    pub submission_time: u64,
    /// What the worker needs of the job once it has been taken up again.
    pub rest: Vec<u8>,
}

pub ghost struct PersistedJobView {
    pub job_id: u64,
    pub pid: u32,
    pub pgid: u32,
    pub binary: Seq<char>,
    pub args: Seq<Seq<char>>,
    pub walltime: u64,
    pub submission_time: u64,
    pub rest: Seq<u8>,
}

impl View for PersistedJob {
    type V = PersistedJobView;

    open spec fn view(&self) -> PersistedJobView {
        PersistedJobView {
            job_id: self.job_id,
            pid: self.pid,
            pgid: self.pgid,
            binary: self.binary@,
            args: texts(self.args@),
            walltime: self.walltime,
            submission_time: self.submission_time,
            rest: self.rest@,
        }
    }
}

/// The job's time ran out while no worker looked after it.
pub open spec fn expired(job: PersistedJob, now: u64) -> bool {
    job.walltime > 0 && now >= job.submission_time && now - job.submission_time > job.walltime
}

/// The process that runs under the job's number is the job's: its program's name holds the
/// job's, or its command line holds the job's.
pub open spec fn same_command(cmd: Seq<Seq<char>>, binary: Seq<char>, args: Seq<Seq<char>>) -> bool {
    cmd.len() > 0 && (has_text(cmd[0], binary) || has_text(
        joined(cmd, " "@),
        command_line(binary, args),
    ))
}

pub fn is_same_command(cmd: &Vec<String>, binary: &str, args: &Vec<String>) -> (r: bool)
    ensures
        r == same_command(texts(cmd@), binary@, texts(args@)),
{
    assert(texts(cmd@).len() == cmd@.len());
    if cmd.len() == 0 {
        return false;
    }
    assert(texts(cmd@)[0] == cmd@[0]@);
    contains(&cmd[0], binary) || contains(&join(cmd, " "), &command_line_text(binary, args))
}

/// What becomes of a job on record when the worker comes back.
pub enum Recovery {
    /// Nothing: it is forgotten.
    Forget,
    /// It is reported as failed and forgotten.
    Report { error: String },
    /// It is watched until its end, for at most this many seconds.
    Watch { limit_seconds: u64 },
}

/// The command line of the process under the job's number, if there is one.
pub open spec fn found_texts(found: Option<Vec<String>>) -> Option<Seq<Seq<char>>> {
    match found {
        Some(cmd) => Some(texts(cmd@)),
        None => None,
    }
}

/// What becomes of a job, as a value.
pub ghost enum Fate {
    Forgotten,
    Reported(Seq<char>),
    Watched(u64),
}

pub open spec fn fate_view(r: Recovery) -> Fate {
    match r {
        Recovery::Forget => Fate::Forgotten,
        Recovery::Report { error } => Fate::Reported(error@),
        Recovery::Watch { limit_seconds } => Fate::Watched(limit_seconds),
    }
}

/// What becomes of a job on record; `found` is the command line of the process that runs under its
/// number now, if one does.
pub open spec fn fate_of(job: PersistedJob, now: u64, found: Option<Seq<Seq<char>>>) -> Fate {
    if expired(job, now) {
        Fate::Forgotten
    } else if found is Some && same_command(found->0, job.binary@, texts(job.args@)) {
        Fate::Watched(
            if job.walltime > 0 {
                job.walltime
            } else {
                crate::job_runner::NO_LIMIT_SECONDS
            },
        )
    } else {
        Fate::Reported("Job process not found or PID reused after restart."@)
    }
}

/// What becomes of a job on record; `found` is the command line of the process that runs under
/// its number now, if one does.
pub fn recover_job(job: &PersistedJob, now: u64, found: &Option<Vec<String>>) -> (r: Recovery)
    ensures
        fate_view(r) == fate_of(*job, now, found_texts(*found)),
        expired(*job, now) ==> r is Forget,
        !expired(*job, now) && !(found_texts(*found) is Some && same_command(
            found_texts(*found)->0,
            job.binary@,
            texts(job.args@),
        )) ==> (r matches Recovery::Report { error } && error@
            == "Job process not found or PID reused after restart."@),
        !expired(*job, now) && found_texts(*found) is Some && same_command(
            found_texts(*found)->0,
            job.binary@,
            texts(job.args@),
        ) ==> (r matches Recovery::Watch { limit_seconds } && limit_seconds == (if job.walltime
            > 0 {
            job.walltime
        } else {
            crate::job_runner::NO_LIMIT_SECONDS
        })),
{
    if job.walltime > 0 {
        if let Some(elapsed) = now.checked_sub(job.submission_time) {
            if elapsed > job.walltime {
                return Recovery::Forget;
            }
        }
    }
    let alive: bool = match found {
        Some(cmd) => is_same_command(cmd, &job.binary, &job.args),
        None => false,
    };
    if !alive {
        return Recovery::Report {
            error: "Job process not found or PID reused after restart.".to_owned(),
        };
    }
    Recovery::Watch { limit_seconds: crate::job_runner::walltime_limit(job.walltime) }
}

/// Whom the system is told to signal for a job: a group is given as a negative number.
pub open spec fn signalled(pgid: u32, pid: u32) -> int {
    if pgid != 0 {
        -(pgid as int)
    } else {
        -(pid as int)
    }
}

/// Whom the system is asked about for a job.
pub open spec fn probed(pgid: u32, pid: u32) -> int {
    if pgid != 0 {
        -(pgid as int)
    } else {
        pid as int
    }
}

/// The target by which the system is told to signal a job's processes: their group, or the
/// group of the process where theirs is not known.
pub fn kill_target(pgid: u32, pid: u32) -> (r: i32)
    requires
        pgid <= i32::MAX,
        pid <= i32::MAX,
    ensures
        r == signalled(pgid, pid),
        r == (if pgid != 0 {
            -(pgid as int)
        } else {
            -(pid as int)
        }),
{
    if pgid != 0 {
        -(pgid as i32)
    } else {
        -(pid as i32)
    }
}

/// The target by which the system is asked whether a job's processes live: their group, or the
/// process where the group is not known.
pub fn probe_target(pgid: u32, pid: u32) -> (r: i32)
    requires
        pgid <= i32::MAX,
        pid <= i32::MAX,
    ensures
        r == probed(pgid, pid),
        r == (if pgid != 0 {
            -(pgid as int)
        } else {
            pid as int
        }),
{
    if pgid != 0 {
        -(pgid as i32)
    } else {
        pid as i32
    }
}

/// The signal by which a recovered job is stopped.
#[derive(Debug, Clone, Copy, PartialEq, Eq, Structural)]
pub enum StopSignal {
    Kill,
    Terminate,
}

/// How a recovered job is stopped.
pub open spec fn recovered_stop(signal: Option<KillSignal>) -> StopSignal {
    match signal {
        Some(KillSignal::Preempt) => StopSignal::Terminate,
        _ => StopSignal::Kill,
    }
}

/// How a recovered job is stopped. Where the request itself was lost, the job is killed.
pub fn stop_signal(signal: Option<KillSignal>) -> (r: StopSignal)
    ensures
        r == recovered_stop(signal),
        r == (match signal {
            Some(KillSignal::Preempt) => StopSignal::Terminate,
            _ => StopSignal::Kill,
        }),
{
    match signal {
        Some(KillSignal::Preempt) => StopSignal::Terminate,
        _ => StopSignal::Kill,
    }
}

/// How a recovered job came to its end.
#[derive(Debug, Clone, Copy, PartialEq, Eq, Structural)]
pub enum RecoveredEnd {
    Stopped,
    WalltimeExceeded,
    /// Its processes are gone; with what code is not known.
    Gone,
}

/// What is sent to the controller when a recovered job has ended.
pub open spec fn recovered_message(end: RecoveredEnd) -> MessageView {
    match end {
        RecoveredEnd::Stopped => MessageView::Done(-9i32),
        RecoveredEnd::WalltimeExceeded => MessageView::Error("Walltime exceeded"@),
        RecoveredEnd::Gone => MessageView::Done(-100i32),
    }
}

pub fn recovered_outcome(end: RecoveredEnd) -> (r: EndMessage)
    ensures
        message_view(r) == recovered_message(end),
        match end {
            RecoveredEnd::Stopped => r == (EndMessage::Done { exit_code: -9i32 }),
            RecoveredEnd::WalltimeExceeded => crate::job_runner::end_message_text(r) == Some(
                "Walltime exceeded"@,
            ),
            RecoveredEnd::Gone => r == (EndMessage::Done { exit_code: -100i32 }),
        },
{
    match end {
        RecoveredEnd::Stopped => EndMessage::Done { exit_code: -9 },
        RecoveredEnd::WalltimeExceeded => EndMessage::Error {
            error: "Walltime exceeded".to_owned(),
        },
        RecoveredEnd::Gone => EndMessage::Done { exit_code: -100 },
    }
}

/// A job is forgotten exactly when its time ran out while no worker looked after it. Of the others
/// one whose process is found is watched, for as long as it may run, and one whose process is not
/// found is reported.
pub proof fn law_found_jobs_are_watched(
    job: PersistedJob,
    now: u64,
    cmd: Seq<Seq<char>>,
)
    ensures
        ({
            let late = job.walltime > 0 && now > job.submission_time + job.walltime;
            &&& fate_of(job, now, Some(cmd)) is Forgotten <==> late
            &&& fate_of(job, now, None) is Forgotten <==> late
            &&& !late ==> fate_of(job, now, None) is Reported
            &&& !late && cmd == seq![job.binary@] + texts(job.args@) ==> fate_of(
                job,
                now,
                Some(cmd),
            ) is Watched
            &&& fate_of(job, now, Some(cmd)) matches Fate::Watched(limit) ==> (if job.walltime
                > 0 {
                limit == job.walltime
            } else {
                limit == 100 * 365 * 24 * 3600
            })
            &&& fate_of(job, now, Some(cmd)) is Watched ==> cmd.len() > 0 && (has_text(
                cmd[0],
                job.binary@,
            ) || has_text(joined(cmd, " "@), job.binary@ + " "@ + joined(texts(job.args@), " "@)))
        }),
{
    let none = Seq::<char>::empty();
    crate::text::lemma_holds(none, job.binary@, none);
    assert(none + job.binary@ + none =~= job.binary@);
    assert((seq![job.binary@] + texts(job.args@))[0] == job.binary@);
}

/// Another program under the number of a job is not taken for the job.
pub proof fn law_other_programs_are_not_watched(job: PersistedJob, now: u64, cmd: Seq<Seq<char>>)
    requires
        cmd.len() == 0 || !has_text(cmd[0], job.binary@),
        !has_text(joined(cmd, " "@), job.binary@ + " "@ + joined(texts(job.args@), " "@)),
    ensures
        !(fate_of(job, now, Some(cmd)) is Watched),
{
}

/// A job's processes are signalled as a group: that of the job, and that of its process where the
/// job's is not known. Whether they live is asked of the same group, or of the process itself.
pub proof fn law_signals_go_to_the_group(pgid: u32, pid: u32)
    ensures
        pgid != 0 ==> signalled(pgid, pid) == -(pgid as int) && probed(pgid, pid) == -(pgid as int),
        pgid == 0 ==> signalled(pgid, pid) == -(pid as int) && probed(pgid, pid) == pid,
{
}

/// A job that was taken up again is told to have ended as a job that was never left: killed where it
/// was stopped, failed where its time ran out. Where its processes are just gone, it is told apart
/// from any exit of its own.
pub proof fn law_ends_of_recovered_jobs_are_told_apart(a: RecoveredEnd, b: RecoveredEnd)
    ensures
        a != b ==> recovered_message(a) != recovered_message(b),
        recovered_message(RecoveredEnd::Stopped) == MessageView::Done(-9i32),
        recovered_message(RecoveredEnd::WalltimeExceeded) == outcome_of(
            JobEnd::WalltimeExceeded,
        ).message,
        recovered_message(RecoveredEnd::Gone) == MessageView::Done(-100i32),
{
}

/// A recovered job that is preempted is asked to end, as any job is; every other is killed.
pub proof fn law_recovered_jobs_are_stopped_as_others(signal: Option<KillSignal>)
    ensures
        recovered_stop(signal) is Terminate <==> first_stop(signal) is Ask,
        recovered_stop(signal) is Terminate <==> signal == Some(KillSignal::Preempt),
{
}

/// What is on record of a job is read as it was put there.
pub proof fn law_records_are_read_by_name(job: PersistedJob)
    ensures
        job@.job_id == job.job_id && job@.pid == job.pid && job@.pgid == job.pgid,
        job@.binary == job.binary@ && job@.args == texts(job.args@),
        job@.walltime == job.walltime && job@.submission_time == job.submission_time,
        job@.rest == job.rest@,
{
}

} // verus!
