use veloce::job_flow::{abort_error, user_accepted, prolog_error, usage_report, JobOrder, JobRun};
use veloce::job_flow::{JobStatsEntry, Phase, RunFacts, UploadedFiles};
use veloce::model::JobStatus;

fn plain() -> RunFacts {
    RunFacts {
        groups: false,
        has_inputs: false,
        port: None,
        prolog: false,
        impersonate: false,
        pmix: false,
        container: false,
        epilog: false,
        keeps_directory: false,
    }
}

fn full() -> RunFacts {
    RunFacts {
        groups: true,
        has_inputs: true,
        port: Some(1),
        prolog: true,
        impersonate: true,
        pmix: true,
        container: true,
        epilog: true,
        keeps_directory: true,
    }
}

/// The number of steps of a job in which no step, or only the given one, fails, and where it
/// ends.
fn course(f: &RunFacts, fails: Option<Phase>) -> (usize, Phase, bool) {
    let mut run = JobRun::start();
    let mut steps = 0;
    let mut launched = false;
    while run.phase != Phase::Ended && run.phase != Phase::Aborted {
        let ok = Some(run.phase) != fails;
        launched = launched || (run.phase == Phase::Launch && ok);
        run = run.next(f, ok);
        steps += 1;
        assert!(steps < 40);
    }
    (steps, run.phase, launched)
}

#[test]
fn jobs_take_the_steps_they_need() {
    assert!(course(&plain(), None) == (14, Phase::Ended, true));
    assert!(course(&full(), None) == (27, Phase::Ended, true));
}

#[test]
fn some_failures_end_a_job() {
    for phase in [
        Phase::CheckDirectory,
        Phase::StageInputs,
        Phase::WriteHostfile,
        Phase::FindUser,
        Phase::FetchImage,
        Phase::Launch,
        Phase::OpenLogs,
    ] {
        assert!(course(&full(), Some(phase)).1 == Phase::Aborted);
    }
    let refused = course(&full(), Some(Phase::RunProlog));
    assert!(refused.1 == Phase::Ended && !refused.2);
    for phase in [
        Phase::CreateGroup,
        Phase::SetLimits,
        Phase::AnnouncePort,
        Phase::RegisterNamespace,
        Phase::RegisterClient,
        Phase::JoinGroup,
        Phase::Record,
        Phase::Watch,
        Phase::RemoveRecord,
        Phase::RunEpilog,
        Phase::UploadStdout,
        Phase::SendEnd,
    ] {
        let c = course(&full(), Some(phase));
        assert!(c.1 == Phase::Ended && c.2);
    }
}

#[test]
fn failures_are_told() {
    assert_eq!(
        abort_error(Phase::CheckDirectory, "/w", ""),
        "Working directory /w does not exist"
    );
    assert_eq!(
        abort_error(Phase::FindUser, "ann", ""),
        "job.launch.user_not_found: User 'ann' not found on worker node"
    );
    assert_eq!(
        abort_error(Phase::FetchImage, "s3://i", "gone"),
        "Failed to download image s3://i: gone"
    );
    assert_eq!(abort_error(Phase::Launch, "", "x"), "Failed to spawn process");
    assert_eq!(abort_error(Phase::StageInputs, "", "x"), "x");
    assert_eq!(abort_error(Phase::FindUser, "a\0b", ""), "Invalid username");
    assert_eq!(prolog_error("e"), "Prolog failed: e");
    assert!(user_accepted("ann", true, true) && user_accepted("ann", false, false));
    assert!(!user_accepted("ann", false, true) && !user_accepted("a\0b", true, false));
}

fn order() -> JobOrder<u8> {
    JobOrder {
        now: 1000,
        submission_time: 900,
        command_line: "run a".to_string(),
        user_id: "ann".to_string(),
        node_list: vec!["n1".to_string(), "n2".to_string()],
        cores: Some(4),
        req_memory: 512,
        array_id: Some(1),
        array_task_id: Some(2),
        carried: 7,
    }
}

#[test]
fn usage_is_reported() {
    let mut entry = JobStatsEntry::new(order());
    assert_eq!((entry.start_time, entry.req_nodes, entry.req_cores), (1000, 2, 4));
    entry.cpu_time_ms = 55;
    let files = UploadedFiles {
        stdout_file_id: Some("o".to_string()),
        stderr_file_id: None,
        workdir_file_id: None,
    };
    let usage =
        usage_report(3, entry, 1100, Some(0), JobStatus::Completed(0), true, files, vec![]);
    assert_eq!(usage.job_id, 3);
    assert_eq!((usage.start_time, usage.end_time), (Some(1000), Some(1100)));
    assert_eq!((usage.cpu_time_ms, usage.carried), (55, 7));
    assert_eq!(usage.files.stdout_file_id.as_deref(), Some("o"));
    assert_eq!(usage.assigned_workers, vec!["n1", "n2"]);
    assert!(usage.cgroup_active);
}

#[test]
fn recovered_jobs_know_less() {
    let entry = JobStatsEntry::recovered(order());
    assert_eq!((entry.req_nodes, entry.assigned_workers.len()), (1, 0));
    assert_eq!((entry.req_cores, entry.last_active_at), (4, 1000));
}
