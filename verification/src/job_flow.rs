//! The course of a job on a worker, from the command that starts it to the report of its end.

use vstd::prelude::*;

use crate::model::JobStatus;
use crate::outputs::JobOutputArtifact;
use crate::pieces::find_char;
use crate::pieces::lemma_char_from;

verus! {

/// What decides which steps a job goes through.
#[derive(Clone, Copy)]
pub struct RunFacts {
    /// Control groups are in use.
    pub groups: bool,
    pub has_inputs: bool,
    /// The port on which the job serves its user, if it does.
    pub port: Option<u16>,
    pub prolog: bool,
    /// The job runs as its own user.
    pub impersonate: bool,
    /// The job asks for a namespace of the process manager, and may have one.
    pub pmix: bool,
    pub container: bool,
    pub epilog: bool,
    /// The working directory is kept as an archive.
    pub keeps_directory: bool,
}

/// The steps.
#[derive(Clone, Copy, PartialEq, Eq, Structural)]
pub enum Phase {
    CheckDirectory,
    CreateGroup,
    SetLimits,
    StageInputs,
    AnnouncePort,
    WriteHostfile,
    RunProlog,
    /// Tell the controller that the prolog has failed.
    Refuse,
    /// Remove the host file of a job that was refused.
    Dismiss,
    FindUser,
    /// Find the process manager and register a namespace. This goes well where the process
    /// manager is found.
    RegisterNamespace,
    FetchImage,
    Launch,
    RegisterClient,
    JoinGroup,
    OpenLogs,
    Record,
    /// Wait for the job to end, or to be stopped.
    Watch,
    RemoveRecord,
    RemoveGroup,
    RunEpilog,
    UploadStdout,
    UploadStderr,
    UploadDirectory,
    CollectOutputs,
    ReportUsage,
    SendEnd,
    DropHostfile,
    ReleaseDesktop,
    Ended,
    /// The job has not been started; the controller is told why.
    Aborted,
}

/// How far a job has come.
#[derive(Clone, Copy, PartialEq, Eq, Structural)]
pub struct JobRun {
    pub phase: Phase,
    /// The job has a namespace of the process manager.
    pub in_namespace: bool,
}

pub open spec fn stage(f: RunFacts) -> Phase {
    if f.has_inputs {
        Phase::StageInputs
    } else {
        announce(f)
    }
}

pub open spec fn announce(f: RunFacts) -> Phase {
    if f.port is Some {
        Phase::AnnouncePort
    } else {
        Phase::WriteHostfile
    }
}

pub open spec fn find_user(f: RunFacts) -> Phase {
    if f.impersonate {
        Phase::FindUser
    } else {
        register(f)
    }
}

pub open spec fn register(f: RunFacts) -> Phase {
    if f.pmix {
        Phase::RegisterNamespace
    } else {
        fetch(f)
    }
}

pub open spec fn fetch(f: RunFacts) -> Phase {
    if f.container {
        Phase::FetchImage
    } else {
        Phase::Launch
    }
}

pub open spec fn join_group(f: RunFacts) -> Phase {
    if f.groups {
        Phase::JoinGroup
    } else {
        Phase::OpenLogs
    }
}

pub open spec fn epilog(f: RunFacts) -> Phase {
    if f.epilog {
        Phase::RunEpilog
    } else {
        Phase::UploadStdout
    }
}

/// The step after one that went well or, if not `ok`, failed. Much that fails is only noted: the
/// job then goes on without it.
pub open spec fn following(run: JobRun, f: RunFacts, ok: bool) -> Phase {
    match run.phase {
        Phase::CheckDirectory => if !ok {
            Phase::Aborted
        } else if f.groups {
            Phase::CreateGroup
        } else {
            stage(f)
        },
        Phase::CreateGroup => if ok {
            Phase::SetLimits
        } else {
            stage(f)
        },
        Phase::SetLimits => stage(f),
        Phase::StageInputs => if ok {
            announce(f)
        } else {
            Phase::Aborted
        },
        Phase::AnnouncePort => Phase::WriteHostfile,
        Phase::WriteHostfile => if !ok {
            Phase::Aborted
        } else if f.prolog {
            Phase::RunProlog
        } else {
            find_user(f)
        },
        Phase::RunProlog => if ok {
            find_user(f)
        } else {
            Phase::Refuse
        },
        Phase::Refuse => if ok {
            Phase::Dismiss
        } else {
            Phase::Aborted
        },
        Phase::Dismiss => Phase::Ended,
        Phase::FindUser => if ok {
            register(f)
        } else {
            Phase::Aborted
        },
        Phase::RegisterNamespace => fetch(f),
        Phase::FetchImage => if ok {
            Phase::Launch
        } else {
            Phase::Aborted
        },
        Phase::Launch => if !ok {
            Phase::Aborted
        } else if run.in_namespace {
            Phase::RegisterClient
        } else {
            join_group(f)
        },
        Phase::RegisterClient => join_group(f),
        Phase::JoinGroup => Phase::OpenLogs,
        Phase::OpenLogs => if ok {
            Phase::Record
        } else {
            Phase::Aborted
        },
        Phase::Record => Phase::Watch,
        Phase::Watch => Phase::RemoveRecord,
        Phase::RemoveRecord => if f.groups {
            Phase::RemoveGroup
        } else {
            epilog(f)
        },
        Phase::RemoveGroup => epilog(f),
        Phase::RunEpilog => Phase::UploadStdout,
        Phase::UploadStdout => Phase::UploadStderr,
        Phase::UploadStderr => if f.keeps_directory {
            Phase::UploadDirectory
        } else {
            Phase::CollectOutputs
        },
        Phase::UploadDirectory => Phase::CollectOutputs,
        Phase::CollectOutputs => Phase::ReportUsage,
        Phase::ReportUsage => Phase::SendEnd,
        Phase::SendEnd => Phase::DropHostfile,
        Phase::DropHostfile => Phase::ReleaseDesktop,
        Phase::ReleaseDesktop => Phase::Ended,
        Phase::Ended => Phase::Ended,
        Phase::Aborted => Phase::Aborted,
    }
}

/// A job of which nothing has been done yet.
pub open spec fn at_start() -> JobRun {
    JobRun { phase: Phase::CheckDirectory, in_namespace: false }
}

/// The job after a step that went well or failed.
pub open spec fn after(run: JobRun, f: RunFacts, ok: bool) -> JobRun {
    JobRun {
        phase: following(run, f, ok),
        in_namespace: run.in_namespace || (run.phase == Phase::RegisterNamespace && ok),
    }
}

fn stage_of(f: &RunFacts) -> (r: Phase)
    ensures
        r == stage(*f),
{
    if f.has_inputs {
        Phase::StageInputs
    } else {
        announce_of(f)
    }
}

fn announce_of(f: &RunFacts) -> (r: Phase)
    ensures
        r == announce(*f),
{
    if f.port.is_some() {
        Phase::AnnouncePort
    } else {
        Phase::WriteHostfile
    }
}

fn find_user_of(f: &RunFacts) -> (r: Phase)
    ensures
        r == find_user(*f),
{
    if f.impersonate {
        Phase::FindUser
    } else {
        register_of(f)
    }
}

fn register_of(f: &RunFacts) -> (r: Phase)
    ensures
        r == register(*f),
{
    if f.pmix {
        Phase::RegisterNamespace
    } else {
        fetch_of(f)
    }
}

fn fetch_of(f: &RunFacts) -> (r: Phase)
    ensures
        r == fetch(*f),
{
    if f.container {
        Phase::FetchImage
    } else {
        Phase::Launch
    }
}

fn join_group_of(f: &RunFacts) -> (r: Phase)
    ensures
        r == join_group(*f),
{
    if f.groups {
        Phase::JoinGroup
    } else {
        Phase::OpenLogs
    }
}

fn epilog_of(f: &RunFacts) -> (r: Phase)
    ensures
        r == epilog(*f),
{
    if f.epilog {
        Phase::RunEpilog
    } else {
        Phase::UploadStdout
    }
}

impl JobRun {
    pub fn start() -> (r: JobRun)
        ensures
            r == (JobRun { phase: Phase::CheckDirectory, in_namespace: false }),
            r == at_start(),
    {
        JobRun { phase: Phase::CheckDirectory, in_namespace: false }
    }

    /// The job after a step that went well or failed.
    pub fn next(self, f: &RunFacts, ok: bool) -> (r: JobRun)
        ensures
            r.phase == following(self, *f, ok),
            r.in_namespace == (self.in_namespace || (self.phase == Phase::RegisterNamespace && ok)),
            r == after(self, *f, ok),
    {
        let phase: Phase = match self.phase {
            Phase::CheckDirectory => if !ok {
                Phase::Aborted
            } else if f.groups {
                Phase::CreateGroup
            } else {
                stage_of(f)
            },
            Phase::CreateGroup => if ok {
                Phase::SetLimits
            } else {
                stage_of(f)
            },
            Phase::SetLimits => stage_of(f),
            Phase::StageInputs => if ok {
                announce_of(f)
            } else {
                Phase::Aborted
            },
            Phase::AnnouncePort => Phase::WriteHostfile,
            Phase::WriteHostfile => if !ok {
                Phase::Aborted
            } else if f.prolog {
                Phase::RunProlog
            } else {
                find_user_of(f)
            },
            Phase::RunProlog => if ok {
                find_user_of(f)
            } else {
                Phase::Refuse
            },
            Phase::Refuse => if ok {
                Phase::Dismiss
            } else {
                Phase::Aborted
            },
            Phase::Dismiss => Phase::Ended,
            Phase::FindUser => if ok {
                register_of(f)
            } else {
                Phase::Aborted
            },
            Phase::RegisterNamespace => fetch_of(f),
            Phase::FetchImage => if ok {
                Phase::Launch
            } else {
                Phase::Aborted
            },
            Phase::Launch => if !ok {
                Phase::Aborted
            } else if self.in_namespace {
                Phase::RegisterClient
            } else {
                join_group_of(f)
            },
            Phase::RegisterClient => join_group_of(f),
            Phase::JoinGroup => Phase::OpenLogs,
            Phase::OpenLogs => if ok {
                Phase::Record
            } else {
                Phase::Aborted
            },
            Phase::Record => Phase::Watch,
            Phase::Watch => Phase::RemoveRecord,
            Phase::RemoveRecord => if f.groups {
                Phase::RemoveGroup
            } else {
                epilog_of(f)
            },
            Phase::RemoveGroup => epilog_of(f),
            Phase::RunEpilog => Phase::UploadStdout,
            Phase::UploadStdout => Phase::UploadStderr,
            Phase::UploadStderr => if f.keeps_directory {
                Phase::UploadDirectory
            } else {
                Phase::CollectOutputs
            },
            Phase::UploadDirectory => Phase::CollectOutputs,
            Phase::CollectOutputs => Phase::ReportUsage,
            Phase::ReportUsage => Phase::SendEnd,
            Phase::SendEnd => Phase::DropHostfile,
            Phase::DropHostfile => Phase::ReleaseDesktop,
            Phase::ReleaseDesktop => Phase::Ended,
            Phase::Ended => Phase::Ended,
            Phase::Aborted => Phase::Aborted,
        };
        let in_namespace: bool = self.in_namespace || (self.phase == Phase::RegisterNamespace
            && ok);
        JobRun { phase, in_namespace }
    }
}

/// The place of a step in the course of a job.
pub open spec fn place(p: Phase) -> nat {
    match p {
        Phase::CheckDirectory => 0,
        Phase::CreateGroup => 1,
        Phase::SetLimits => 2,
        Phase::StageInputs => 3,
        Phase::AnnouncePort => 4,
        Phase::WriteHostfile => 5,
        Phase::RunProlog => 6,
        Phase::Refuse => 7,
        Phase::Dismiss => 8,
        Phase::FindUser => 9,
        Phase::RegisterNamespace => 10,
        Phase::FetchImage => 11,
        Phase::Launch => 12,
        Phase::RegisterClient => 13,
        Phase::JoinGroup => 14,
        Phase::OpenLogs => 15,
        Phase::Record => 16,
        Phase::Watch => 17,
        Phase::RemoveRecord => 18,
        Phase::RemoveGroup => 19,
        Phase::RunEpilog => 20,
        Phase::UploadStdout => 21,
        Phase::UploadStderr => 22,
        Phase::UploadDirectory => 23,
        Phase::CollectOutputs => 24,
        Phase::ReportUsage => 25,
        Phase::SendEnd => 26,
        Phase::DropHostfile => 27,
        Phase::ReleaseDesktop => 28,
        Phase::Ended => 29,
        Phase::Aborted => 29,
    }
}

/// Every job comes to an end: each step leads to a later one, until it has ended or was aborted.
pub proof fn law_jobs_come_to_an_end(run: JobRun, f: RunFacts, ok: bool)
    requires
        !(run.phase is Ended) && !(run.phase is Aborted),
    ensures
        place(run.phase) < place(following(run, f, ok)),
{
}

/// Whatever fails from then on, a job that is watched is not aborted, and neither the report of
/// what it used nor the word of its end is left out.
pub proof fn law_watched_jobs_are_reported(run: JobRun, f: RunFacts, ok: bool)
    requires
        place(Phase::Watch) <= place(run.phase) < place(Phase::Ended),
    ensures
        !(following(run, f, ok) is Aborted),
        place(run.phase) < place(Phase::ReportUsage) ==> place(following(run, f, ok)) <= place(
            Phase::ReportUsage,
        ),
        run.phase is ReportUsage ==> following(run, f, ok) is SendEnd,
{
}

/// A job is launched only after all that has to go well before has gone well: its directory is
/// there, its inputs and its image have come, and its prolog and its user did not stand in its
/// way.
pub proof fn law_failures_keep_jobs_from_starting(run: JobRun, f: RunFacts)
    requires
        run.phase is CheckDirectory || run.phase is StageInputs || run.phase is WriteHostfile
            || run.phase is RunProlog || run.phase is FindUser || run.phase is FetchImage
            || run.phase is Launch,
    ensures
        following(run, f, false) is Aborted || following(run, f, false) is Refuse,
        following((JobRun { phase: Phase::Refuse, ..run }), f, true) is Dismiss,
        following((JobRun { phase: Phase::Dismiss, ..run }), f, true) is Ended,
{
}

/// Once the record of a job has been removed, its control group is removed too, where there are
/// control groups.
pub proof fn law_groups_are_removed(run: JobRun, f: RunFacts, ok: bool)
    requires
        f.groups,
        run.phase is RemoveRecord,
    ensures
        following(run, f, ok) is RemoveGroup,
{
}

/// A step that has to go well: where it fails, the job is not started, or not watched.
pub open spec fn must_go_well(p: Phase) -> bool {
    ||| p is CheckDirectory
    ||| p is StageInputs
    ||| p is WriteHostfile
    ||| p is RunProlog
    ||| p is FindUser
    ||| p is FetchImage
    ||| p is Launch
    ||| p is OpenLogs
}

/// A job is aborted by the failure of a step that has to go well, and by nothing else; the failure
/// of the prolog alone is told to the controller first. What fails besides is only noted.
pub proof fn law_only_these_failures_stop_a_job(run: JobRun, f: RunFacts, ok: bool)
    requires
        !(run.phase is Aborted),
    ensures
        following(run, f, ok) is Refuse <==> run.phase is RunProlog && !ok,
        following(run, f, ok) is Aborted <==> !ok && (run.phase is Refuse || (must_go_well(
            run.phase,
        ) && !(run.phase is RunProlog))),
        !must_go_well(run.phase) && !(run.phase is Refuse) && !(run.phase is CreateGroup)
            ==> following(run, f, true) == following(run, f, false),
        following(run, f, ok) is Dismiss <==> run.phase is Refuse && ok,
        run.phase is Dismiss ==> following(run, f, ok) is Ended,
{
}

/// The job after steps with the given answers, first to last.
pub open spec fn run_after(f: RunFacts, oks: Seq<bool>) -> JobRun
    decreases oks.len(),
{
    if oks.len() == 0 {
        at_start()
    } else {
        after(run_after(f, oks.drop_last()), f, oks.last())
    }
}

/// A step that was taken: it had the number `k`.
pub open spec fn taken(f: RunFacts, oks: Seq<bool>, k: int) -> Phase {
    run_after(f, oks.take(k)).phase
}

/// The job has left the step behind.
pub open spec fn passed(f: RunFacts, oks: Seq<bool>, p: Phase) -> bool {
    exists|k: int| 0 <= k < oks.len() && #[trigger] taken(f, oks, k) == p
}

/// The job has left the step behind, and the step went well.
pub open spec fn went_well(f: RunFacts, oks: Seq<bool>, p: Phase) -> bool {
    exists|k: int| 0 <= k < oks.len() && #[trigger] taken(f, oks, k) == p && oks[k]
}

/// The steps of a job that is neither refused nor aborted. Each optional one has its own reason:
/// `grouped` says whether its control group could be made, `named` whether it has a namespace.
pub open spec fn belongs(p: Phase, f: RunFacts, grouped: bool, named: bool) -> bool {
    match p {
        Phase::CreateGroup => f.groups,
        Phase::SetLimits => f.groups && grouped,
        Phase::StageInputs => f.has_inputs,
        Phase::AnnouncePort => f.port is Some,
        Phase::RunProlog => f.prolog,
        Phase::FindUser => f.impersonate,
        Phase::RegisterNamespace => f.pmix,
        Phase::FetchImage => f.container,
        Phase::RegisterClient => f.pmix && named,
        Phase::JoinGroup => f.groups,
        Phase::RemoveGroup => f.groups,
        Phase::RunEpilog => f.epilog,
        Phase::UploadDirectory => f.keeps_directory,
        Phase::Refuse => false,
        Phase::Dismiss => false,
        Phase::Aborted => false,
        _ => true,
    }
}

/// A job goes on with the first of the later steps that belongs to it.
pub proof fn law_next_step_is_the_first_that_belongs(
    run: JobRun,
    f: RunFacts,
    ok: bool,
    grouped: bool,
    p: Phase,
)
    requires
        belongs(run.phase, f, grouped, run.in_namespace),
        run.in_namespace ==> f.pmix,
        must_go_well(run.phase) ==> ok,
        run.phase is CreateGroup ==> grouped == ok,
        place(run.phase) < place(p) < place(following(run, f, ok)),
    ensures
        !belongs(p, f, grouped, run.in_namespace || (run.phase is RegisterNamespace && ok)),
{
}

proof fn lemma_next_step_belongs(run: JobRun, f: RunFacts, ok: bool, grouped: bool)
    requires
        belongs(run.phase, f, grouped, run.in_namespace),
        run.in_namespace ==> f.pmix,
        must_go_well(run.phase) ==> ok,
        run.phase is CreateGroup ==> grouped == ok,
    ensures
        belongs(
            following(run, f, ok),
            f,
            grouped,
            run.in_namespace || (run.phase is RegisterNamespace && ok),
        ),
{
}

proof fn lemma_taken_before(f: RunFacts, oks: Seq<bool>, k: int)
    requires
        0 <= k < oks.len(),
    ensures
        taken(f, oks.drop_last(), k) == taken(f, oks, k),
        k == oks.len() - 1 ==> taken(f, oks, k) == run_after(f, oks.drop_last()).phase,
{
    assert(oks.drop_last().take(k) =~= oks.take(k));
    assert(oks.take(oks.len() - 1) =~= oks.drop_last());
}

proof fn lemma_passed_step(f: RunFacts, oks: Seq<bool>, p: Phase)
    requires
        oks.len() > 0,
    ensures
        passed(f, oks, p) <==> passed(f, oks.drop_last(), p) || run_after(
            f,
            oks.drop_last(),
        ).phase == p,
        went_well(f, oks, p) <==> went_well(f, oks.drop_last(), p) || (run_after(
            f,
            oks.drop_last(),
        ).phase == p && oks.last()),
{
    let last = oks.len() - 1;
    let before = oks.drop_last();
    lemma_taken_before(f, oks, last);
    if passed(f, oks, p) {
        let k = choose|k: int| 0 <= k < oks.len() && #[trigger] taken(f, oks, k) == p;
        lemma_taken_before(f, oks, k);
        if k < last {
            assert(taken(f, before, k) == p);
        }
    }
    if passed(f, before, p) {
        let k = choose|k: int| 0 <= k < before.len() && #[trigger] taken(f, before, k) == p;
        lemma_taken_before(f, oks, k);
        assert(taken(f, oks, k) == p);
    }
    if went_well(f, oks, p) {
        let k = choose|k: int| 0 <= k < oks.len() && #[trigger] taken(f, oks, k) == p && oks[k];
        lemma_taken_before(f, oks, k);
        if k < last {
            assert(taken(f, before, k) == p && before[k]);
        }
    }
    if went_well(f, before, p) {
        let k = choose|k: int|
            0 <= k < before.len() && #[trigger] taken(f, before, k) == p && before[k];
        lemma_taken_before(f, oks, k);
        assert(taken(f, oks, k) == p && oks[k]);
    }
}

/// Steps are taken in one order, none twice: whatever a job has left behind stands before where it
/// is.
pub proof fn law_steps_are_taken_in_order(f: RunFacts, oks: Seq<bool>, p: Phase)
    requires
        passed(f, oks, p),
        !(run_after(f, oks).phase is Ended) && !(run_after(f, oks).phase is Aborted),
    ensures
        place(p) < place(run_after(f, oks).phase),
    decreases oks.len(),
{
    if oks.len() > 0 {
        lemma_passed_step(f, oks, p);
        let before = run_after(f, oks.drop_last());
        if passed(f, oks.drop_last(), p) {
            law_steps_are_taken_in_order(f, oks.drop_last(), p);
        }
        law_jobs_come_to_an_end(before, f, oks.last());
    }
}

/// The way of a job that is neither refused nor aborted: of the steps before the one where it is,
/// it has taken those that belong to it, each by its own reason, and no others. What has to go
/// well has gone well.
pub proof fn law_jobs_take_the_steps_that_belong_to_them(f: RunFacts, oks: Seq<bool>, p: Phase)
    requires
        !(run_after(f, oks).phase is Aborted),
        !(run_after(f, oks).phase is Refuse),
        !passed(f, oks, Phase::Refuse),
        place(p) < place(run_after(f, oks).phase),
    ensures
        passed(f, oks, p) <==> belongs(
            p,
            f,
            went_well(f, oks, Phase::CreateGroup),
            went_well(f, oks, Phase::RegisterNamespace),
        ),
        passed(f, oks, p) && must_go_well(p) ==> went_well(f, oks, p),
        run_after(f, oks).in_namespace == went_well(f, oks, Phase::RegisterNamespace),
        belongs(
            run_after(f, oks).phase,
            f,
            went_well(f, oks, Phase::CreateGroup),
            went_well(f, oks, Phase::RegisterNamespace),
        ),
    decreases oks.len(),
{
    if oks.len() > 0 {
        lemma_way(f, oks);
    }
}

proof fn lemma_way(f: RunFacts, oks: Seq<bool>)
    requires
        !(run_after(f, oks).phase is Aborted),
        !(run_after(f, oks).phase is Refuse),
        !passed(f, oks, Phase::Refuse),
    ensures
        forall|p: Phase|
            place(p) < place(run_after(f, oks).phase) ==> {
                &&& #[trigger] passed(f, oks, p) <==> belongs(
                    p,
                    f,
                    went_well(f, oks, Phase::CreateGroup),
                    went_well(f, oks, Phase::RegisterNamespace),
                )
                &&& passed(f, oks, p) && must_go_well(p) ==> went_well(f, oks, p)
            },
        run_after(f, oks).in_namespace == went_well(f, oks, Phase::RegisterNamespace),
        went_well(f, oks, Phase::RegisterNamespace) ==> f.pmix,
        belongs(
            run_after(f, oks).phase,
            f,
            went_well(f, oks, Phase::CreateGroup),
            went_well(f, oks, Phase::RegisterNamespace),
        ),
    decreases oks.len(),
{
    if oks.len() > 0 {
        let before = oks.drop_last();
        let run = run_after(f, before);
        let now = run_after(f, oks);
        lemma_passed_step(f, oks, Phase::Refuse);
        lemma_passed_step(f, oks, Phase::CreateGroup);
        lemma_passed_step(f, oks, Phase::RegisterNamespace);
        law_only_these_failures_stop_a_job(run, f, oks.last());
        lemma_way(f, before);
        let grouped = went_well(f, oks, Phase::CreateGroup);
        let named = went_well(f, oks, Phase::RegisterNamespace);
        let grouped_before = went_well(f, before, Phase::CreateGroup);
        let named_before = went_well(f, before, Phase::RegisterNamespace);
        assert(run.phase is CreateGroup ==> !grouped_before) by {
            if grouped_before && run.phase is CreateGroup {
                let k = choose|k: int|
                    0 <= k < before.len() && #[trigger] taken(f, before, k) == Phase::CreateGroup
                        && before[k];
                assert(passed(f, before, Phase::CreateGroup));
                law_steps_are_taken_in_order(f, before, Phase::CreateGroup);
            }
        }
        assert(belongs(run.phase, f, grouped, named_before));
        lemma_next_step_belongs(run, f, oks.last(), grouped);
        assert forall|p: Phase| place(p) < place(now.phase) implies {
            &&& #[trigger] passed(f, oks, p) <==> belongs(p, f, grouped, named)
            &&& passed(f, oks, p) && must_go_well(p) ==> went_well(f, oks, p)
        } by {
            lemma_passed_step(f, oks, p);
            if passed(f, before, p) && !(run.phase is Ended) {
                law_steps_are_taken_in_order(f, before, p);
            }
            if place(p) < place(run.phase) {
                assert(passed(f, before, p) <==> belongs(p, f, grouped_before, named_before));
            } else if p != run.phase {
                law_next_step_is_the_first_that_belongs(run, f, oks.last(), grouped, p);
            }
        }
    }
}

/// Where there are control groups, a job is watched only after its process was started and then
/// put into its group, with or without a namespace.
pub proof fn law_watched_processes_are_in_their_group(f: RunFacts, oks: Seq<bool>)
    requires
        f.groups,
        run_after(f, oks).phase is Watch,
    ensures
        exists|j: int, k: int|
            0 <= j < k < oks.len() && #[trigger] taken(f, oks, j) == Phase::Launch && oks[j]
                && #[trigger] taken(f, oks, k) == Phase::JoinGroup,
{
    lemma_watched_was_not_refused(f, oks);
    law_jobs_take_the_steps_that_belong_to_them(f, oks, Phase::Launch);
    law_jobs_take_the_steps_that_belong_to_them(f, oks, Phase::JoinGroup);
    let j = choose|j: int| 0 <= j < oks.len() && #[trigger] taken(f, oks, j) == Phase::Launch
        && oks[j];
    let k = choose|k: int| 0 <= k < oks.len() && #[trigger] taken(f, oks, k) == Phase::JoinGroup;
    if k < j {
        let upto = oks.take(j);
        assert(upto.take(k) =~= oks.take(k));
        assert(taken(f, upto, k) == Phase::JoinGroup);
        law_steps_are_taken_in_order(f, upto, Phase::JoinGroup);
    }
}

proof fn lemma_watched_was_not_refused(f: RunFacts, oks: Seq<bool>)
    requires
        place(run_after(f, oks).phase) > place(Phase::Dismiss),
        !(run_after(f, oks).phase is Ended),
        !(run_after(f, oks).phase is Aborted),
    ensures
        !passed(f, oks, Phase::Refuse),
    decreases oks.len(),
{
    if oks.len() > 0 {
        let before = run_after(f, oks.drop_last());
        lemma_passed_step(f, oks, Phase::Refuse);
        if place(before.phase) > place(Phase::Dismiss) {
            lemma_watched_was_not_refused(f, oks.drop_last());
        } else if passed(f, oks.drop_last(), Phase::Refuse) {
            law_steps_are_taken_in_order(f, oks.drop_last(), Phase::Refuse);
        }
    }
}

/// A job whose prolog failed is never launched: it is dismissed, and that is its end.
pub proof fn law_refused_jobs_are_not_launched(f: RunFacts, oks: Seq<bool>)
    requires
        passed(f, oks, Phase::Refuse),
    ensures
        run_after(f, oks).phase is Dismiss || run_after(f, oks).phase is Ended || run_after(
            f,
            oks,
        ).phase is Aborted,
        !passed(f, oks, Phase::Launch),
    decreases oks.len(),
{
    let run = run_after(f, oks);
    if !(run.phase is Ended) && !(run.phase is Aborted) {
        law_steps_are_taken_in_order(f, oks, Phase::Refuse);
        if place(run.phase) > place(Phase::Dismiss) {
            lemma_watched_was_not_refused(f, oks);
        }
    }
    lemma_passed_step(f, oks, Phase::Refuse);
    lemma_passed_step(f, oks, Phase::Launch);
    let before = oks.drop_last();
    if passed(f, before, Phase::Refuse) {
        law_refused_jobs_are_not_launched(f, before);
    } else if passed(f, before, Phase::Launch) {
        law_steps_are_taken_in_order(f, before, Phase::Launch);
    }
}

/// No job takes more than twenty-nine steps, whatever goes well or fails.
pub proof fn law_jobs_take_few_steps(f: RunFacts, oks: Seq<bool>)
    requires
        oks.len() >= 29,
    ensures
        run_after(f, oks).phase is Ended || run_after(f, oks).phase is Aborted,
{
    lemma_steps_so_far(f, oks);
}

proof fn lemma_steps_so_far(f: RunFacts, oks: Seq<bool>)
    ensures
        place(run_after(f, oks).phase) >= oks.len() || run_after(f, oks).phase is Ended
            || run_after(f, oks).phase is Aborted,
    decreases oks.len(),
{
    if oks.len() > 0 {
        lemma_steps_so_far(f, oks.drop_last());
        let before = run_after(f, oks.drop_last());
        if !(before.phase is Ended) && !(before.phase is Aborted) {
            law_jobs_come_to_an_end(before, f, oks.last());
        }
    }
}

/// A name that the system could know a user by.
pub open spec fn valid_user(user_id: Seq<char>) -> bool {
    forall|i: int| 0 <= i < user_id.len() ==> user_id[i] != '\0'
}

fn is_valid_user(user_id: &str) -> (r: bool)
    ensures
        r == valid_user(user_id@),
{
    proof {
        lemma_char_from(user_id@, '\0', 0);
    }
    find_char(user_id, '\0').is_none()
}

/// Whether a job may go on with its user: one whose name is valid and who is `found` on this
/// machine, or need not be.
pub fn user_accepted(user_id: &str, found: bool, required: bool) -> (r: bool)
    ensures
        r == (valid_user(user_id@) && (found || !required)),
{
    is_valid_user(user_id) && (found || !required)
}

/// Why a job was not started. `subject` is the directory, the user or the image that it is about,
/// and `detail` what is known of the failure.
pub open spec fn abort_text(phase: Phase, subject: Seq<char>, detail: Seq<char>) -> Seq<char> {
    match phase {
        Phase::CheckDirectory => "Working directory "@ + subject + " does not exist"@,
        Phase::FindUser => if valid_user(subject) {
            "job.launch.user_not_found: User '"@ + subject + "' not found on worker node"@
        } else {
            "Invalid username"@
        },
        Phase::FetchImage => "Failed to download image "@ + subject + ": "@ + detail,
        Phase::Launch => "Failed to spawn process"@,
        _ => detail,
    }
}

pub fn abort_error(phase: Phase, subject: &str, detail: &str) -> (r: String)
    ensures
        r@ == abort_text(phase, subject@, detail@),
{
    match phase {
        Phase::CheckDirectory => {
            let mut r: String = "Working directory ".to_string();
            r.append(subject);
            r.append(" does not exist");
            r
        },
        Phase::FindUser => {
            if !is_valid_user(subject) {
                return "Invalid username".to_string();
            }
            let mut r: String = "job.launch.user_not_found: User '".to_string();
            r.append(subject);
            r.append("' not found on worker node");
            r
        },
        Phase::FetchImage => {
            let mut r: String = "Failed to download image ".to_string();
            r.append(subject);
            r.append(": ");
            r.append(detail);
            r
        },
        Phase::Launch => "Failed to spawn process".to_string(),
        _ => detail.to_string(),
    }
}

/// What is sent if the prolog fails.
pub fn prolog_error(error: &str) -> (r: String)
    ensures
        r@ == "Prolog failed: "@ + error@,
{
    let mut r: String = "Prolog failed: ".to_string();
    r.append(error);
    r
}

/// What is noted of a job while it runs. `C` is what the controller said of it and is to get
/// back.
pub struct JobStatsEntry<C> {
    pub start_time: u64,
    pub submission_time: u64,
    pub max_memory_bytes: u64,
    pub cpu_time_ms: u64,
    pub command_line: String,
    pub user_id: String,
    pub req_nodes: usize,
    pub req_cores: u32,
    pub req_memory: u64,
    pub array_id: Option<u64>,
    pub array_task_id: Option<u32>,
    pub assigned_workers: Vec<String>,
    pub last_active_at: u64,
    pub is_idle: bool,
    pub idle_duration: u64,
    pub carried: C,
}

/// What is known of a job when it is started.
pub struct JobOrder<C> {
    pub now: u64,
    pub submission_time: u64,
    pub command_line: String,
    pub user_id: String,
    pub node_list: Vec<String>,
    /// The cores that the job was given, if it was given any.
    pub cores: Option<u32>,
    pub req_memory: u64,
    pub array_id: Option<u64>,
    pub array_task_id: Option<u32>,
    pub carried: C,
}

impl<C> JobStatsEntry<C> {
    /// What is noted of a job that starts: it has used nothing yet, and counts as active.
    pub fn new(order: JobOrder<C>) -> (r: JobStatsEntry<C>)
        ensures
            r.start_time == order.now,
            r.last_active_at == order.now,
            r.submission_time == order.submission_time,
            r.max_memory_bytes == 0,
            r.cpu_time_ms == 0,
            r.command_line == order.command_line,
            r.user_id == order.user_id,
            r.req_nodes == order.node_list@.len(),
            r.req_cores == (match order.cores {
                Some(n) => n,
                None => 0u32,
            }),
            r.req_memory == order.req_memory,
            r.array_id == order.array_id,
            r.array_task_id == order.array_task_id,
            r.assigned_workers == order.node_list,
            !r.is_idle,
            r.idle_duration == 0,
            r.carried == order.carried,
    {
        let req_nodes: usize = order.node_list.len();
        let req_cores: u32 = match order.cores {
            Some(n) => n,
            None => 0,
        };
        JobStatsEntry {
            start_time: order.now,
            submission_time: order.submission_time,
            max_memory_bytes: 0,
            cpu_time_ms: 0,
            command_line: order.command_line,
            user_id: order.user_id,
            req_nodes,
            req_cores,
            req_memory: order.req_memory,
            array_id: order.array_id,
            array_task_id: order.array_task_id,
            assigned_workers: order.node_list,
            last_active_at: order.now,
            is_idle: false,
            idle_duration: 0,
            carried: order.carried,
        }
    }
}

impl<C> JobStatsEntry<C> {
    /// What is noted of a job that is taken up again: it counts as one on this worker alone,
    /// and as active since now.
    pub fn recovered(order: JobOrder<C>) -> (r: JobStatsEntry<C>)
        ensures
            r.start_time == order.now,
            r.last_active_at == order.now,
            r.submission_time == order.submission_time,
            r.max_memory_bytes == 0,
            r.cpu_time_ms == 0,
            r.command_line == order.command_line,
            r.user_id == order.user_id,
            r.req_nodes == 1,
            r.req_cores == (match order.cores {
                Some(n) => n,
                None => 0u32,
            }),
            r.req_memory == order.req_memory,
            r.array_id == order.array_id,
            r.array_task_id == order.array_task_id,
            r.assigned_workers@.len() == 0,
            !r.is_idle,
            r.idle_duration == 0,
            r.carried == order.carried,
    {
        let entry: JobStatsEntry<C> = JobStatsEntry::new(order);
        JobStatsEntry { req_nodes: 1, assigned_workers: Vec::new(), ..entry }
    }
}

/// The files that were uploaded at the end of a job, by number.
pub struct UploadedFiles {
    pub stdout_file_id: Option<String>,
    pub stderr_file_id: Option<String>,
    pub workdir_file_id: Option<String>,
}

/// What a job has used, as it is reported.
pub struct JobUsage<C> {
    pub job_id: u64,
    pub command_line: String,
    pub user_id: String,
    pub submission_time: u64,
    pub start_time: Option<u64>,
    pub end_time: Option<u64>,
    pub exit_code: Option<i32>,
    pub status: JobStatus,
    pub cpu_time_ms: u64,
    pub max_memory_bytes: u64,
    pub req_nodes: usize,
    pub req_cores: u32,
    pub req_memory: u64,
    pub array_id: Option<u64>,
    pub array_task_id: Option<u32>,
    pub assigned_workers: Vec<String>,
    pub cgroup_active: bool,
    pub files: UploadedFiles,
    pub output_artifacts: Vec<JobOutputArtifact>,
    pub carried: C,
}

/// The report on a job that has ended.
pub fn usage_report<C>(
    job_id: u64,
    entry: JobStatsEntry<C>,
    end_time: u64,
    exit_code: Option<i32>,
    status: JobStatus,
    cgroup_active: bool,
    files: UploadedFiles,
    output_artifacts: Vec<JobOutputArtifact>,
) -> (r: JobUsage<C>)
    ensures
        r.job_id == job_id,
        r.command_line == entry.command_line,
        r.user_id == entry.user_id,
        r.submission_time == entry.submission_time,
        r.start_time == Some(entry.start_time),
        r.end_time == Some(end_time),
        r.exit_code == exit_code,
        r.status == status,
        r.cpu_time_ms == entry.cpu_time_ms,
        r.max_memory_bytes == entry.max_memory_bytes,
        r.req_nodes == entry.req_nodes,
        r.req_cores == entry.req_cores,
        r.req_memory == entry.req_memory,
        r.array_id == entry.array_id,
        r.array_task_id == entry.array_task_id,
        r.assigned_workers == entry.assigned_workers,
        r.cgroup_active == cgroup_active,
        r.files == files,
        r.output_artifacts == output_artifacts,
        r.carried == entry.carried,
{
    JobUsage {
        job_id,
        command_line: entry.command_line,
        user_id: entry.user_id,
        submission_time: entry.submission_time,
        start_time: Some(entry.start_time),
        end_time: Some(end_time),
        exit_code,
        status,
        cpu_time_ms: entry.cpu_time_ms,
        max_memory_bytes: entry.max_memory_bytes,
        req_nodes: entry.req_nodes,
        req_cores: entry.req_cores,
        req_memory: entry.req_memory,
        array_id: entry.array_id,
        array_task_id: entry.array_task_id,
        assigned_workers: entry.assigned_workers,
        cgroup_active,
        files,
        output_artifacts,
        carried: entry.carried,
    }
}

/// A job has a namespace exactly once the namespace could be registered.
pub proof fn law_namespaces_are_registered_first(f: RunFacts, oks: Seq<bool>)
    ensures
        run_after(f, oks).in_namespace <==> went_well(f, oks, Phase::RegisterNamespace),
    decreases oks.len(),
{
    if oks.len() > 0 {
        law_namespaces_are_registered_first(f, oks.drop_last());
        lemma_passed_step(f, oks, Phase::RegisterNamespace);
    }
}

/// A user is asked for by any name but one that holds the end of a text. A job whose directory, user
/// or image is at fault is told which it is.
pub proof fn law_refusals_name_their_subject(
    a: Seq<char>,
    b: Seq<char>,
    subject: Seq<char>,
    detail: Seq<char>,
)
    ensures
        !valid_user(a.push('\0') + b),
        valid_user(subject) <==> !subject.contains('\0'),
        crate::text::has_text(abort_text(Phase::CheckDirectory, subject, detail), subject),
        valid_user(subject) ==> crate::text::has_text(
            abort_text(Phase::FindUser, subject, detail),
            subject,
        ),
        !valid_user(subject) ==> abort_text(Phase::FindUser, subject, detail)
            == "Invalid username"@,
        crate::text::has_text(abort_text(Phase::FetchImage, subject, detail), subject),
        crate::text::has_suffix(abort_text(Phase::FetchImage, subject, detail), detail),
        abort_text(Phase::Launch, subject, detail) == "Failed to spawn process"@,
        abort_text(Phase::RunProlog, subject, detail) == detail,
        abort_text(Phase::StageInputs, subject, detail) == detail,
{
    assert((a.push('\0') + b)[a.len() as int] == '\0');
    if subject.contains('\0') {
        let i = choose|i: int| 0 <= i < subject.len() && subject[i] == '\0';
        assert(subject[i] == '\0');
    }
    crate::text::lemma_holds("Working directory "@, subject, " does not exist"@);
    crate::text::lemma_holds(
        "job.launch.user_not_found: User '"@,
        subject,
        "' not found on worker node"@,
    );
    let head = "Failed to download image "@;
    assert(head + subject + ": "@ + detail =~= head + subject + (": "@ + detail));
    crate::text::lemma_holds(head, subject, ": "@ + detail);
    crate::text::lemma_ends_with(head + subject + ": "@, detail);
}

} // verus!
