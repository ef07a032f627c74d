use veloce::cgroups::GresEntry;
use veloce::envs::EnvList;
use veloce::inputs::{process_inputs, InputFile, InputStep};
use veloce::job_runner::{after_asking, archive_name, command_line_text, hostfile, hostfile_name};
use veloce::job_runner::{image_file_name, interactive_port, job_env_with, job_outcome, job_rank};
use veloce::job_runner::{job_size, keeps_working_directory, known_group, log_file_name, log_path};
use veloce::job_runner::{memory_limit, node_position, prepare_job_env, rank_log_name};
use veloce::job_runner::{script_result, slots, step_exit_code, step_hostfile};
use veloce::job_runner::{step_hostfile_name, stop_job, walltime_limit, EndMessage, JobEnd};
use veloce::job_runner::{JobFacts, KillSignal, RankEnd, StopStep};
use veloce::model::JobStatus;

fn words(list: &[&str]) -> Vec<String> {
    list.iter().map(|s| s.to_string()).collect()
}

fn facts(nodes: &[&str]) -> JobFacts {
    JobFacts {
        job_id: 42,
        node_list: words(nodes),
        working_directory: "/w".to_string(),
        hostfile_path: "/tmp/h".to_string(),
        array_id: None,
        array_task_id: None,
        user_id: "ann".to_string(),
    }
}

#[test]
fn jobs_are_told_about_themselves() {
    let env = prepare_job_env(&facts(&["n1:1", "n2"]), &vec![]);
    for (name, value) in [
        ("VELOCE_NODES", "n1:1,n2"),
        ("VELOCE_JOB_ID", "42"),
        ("VELOCE_NODE_COUNT", "2"),
        ("VELOCE_MASTER_ADDR", "n1:1"),
        ("VELOCE_WORKING_DIR", "/w"),
        ("VELOCE_HOSTFILE", "/tmp/h"),
        ("OMPI_MCA_orte_default_hostfile", "/tmp/h"),
        ("HYDRA_HOST_FILE", "/tmp/h"),
        ("VELOCE_SUBMITTING_USER", "ann"),
    ] {
        assert_eq!(env.get(name).as_deref(), Some(value), "{name}");
    }
    assert_eq!(env.entries().len(), 9);
    assert_eq!(prepare_job_env(&facts(&[]), &vec![]).get("VELOCE_MASTER_ADDR").as_deref(), Some(""));
}

#[test]
fn units_are_written_as_json() {
    let gres = vec![GresEntry { name: "gpu".to_string(), ids: vec![0, 3] }];
    let env = prepare_job_env(&facts(&["n"]), &gres);
    assert_eq!(env.get("VELOCE_ALLOCATED_GRES").as_deref(), Some("{\"gpu\":[0,3]}"));
    let two = vec![
        GresEntry { name: "gpu".to_string(), ids: vec![1] },
        GresEntry { name: "a\"b".to_string(), ids: vec![] },
    ];
    let text = prepare_job_env(&facts(&["n"]), &two).get("VELOCE_ALLOCATED_GRES").unwrap();
    assert!(text.contains("\"gpu\":[1]") && text.contains("\"a\\\"b\":[]"));
    let mut f = facts(&["n"]);
    f.array_id = Some(5);
    f.array_task_id = Some(6);
    let env = job_env_with(&f, None);
    assert_eq!(env.get("VELOCE_ARRAY_JOB_ID").as_deref(), Some("5"));
    assert_eq!(env.get("VELOCE_ARRAY_TASK_ID").as_deref(), Some("6"));
    assert_eq!(env.get("VELOCE_ALLOCATED_GRES"), None);
}

#[test]
fn host_files_name_hosts() {
    assert_eq!(hostfile(&words(&["a:9000", "b", "::1:5"]), 4), "a slots=4\nb slots=4\n::1 slots=4\n");
    assert_eq!(step_hostfile(&words(&["a:1", "b"])), "a\nb\n");
    assert_eq!(slots(None), 1);
    assert_eq!(slots(Some(0)), 0);
    assert_eq!(hostfile_name(3), "veloce_hostfile_3.txt");
    assert_eq!(step_hostfile_name(3, 1), "veloce_hostfile_3_1.txt");
}

#[test]
fn logs_are_named_after_jobs() {
    assert_eq!(log_file_name(3, "w", false), "3-w-stdout.log");
    assert_eq!(log_file_name(3, "w", true), "3-w-stderr.log");
    assert_eq!(log_path("/d/", 3, "w", true), "/d/3-w-stderr.log");
    assert_eq!(rank_log_name(3, 1, 2, false), "3-step-1-rank-2-stdout.log");
    assert_eq!(rank_log_name(3, 1, 2, true), "3-step-1-rank-2-stderr.log");
    assert_eq!(archive_name(3), "veloce_job_3_workdir.tar.gz");
    assert_eq!(image_file_name("s3://a/b:c"), "s3___a_b_c");
    assert_eq!(command_line_text("run", &words(&["a", "b"])), "run a b");
    assert_eq!(command_line_text("run", &vec![]), "run ");
}

fn pair(name: &str, value: &str) -> (String, String) {
    (name.to_string(), value.to_string())
}

#[test]
fn ports_come_from_the_variables() {
    let name = "VELOCE_INTERACTIVE_PORT";
    assert_eq!(interactive_port(&vec![pair("A", "1"), pair(name, "8888")]), Some(8888));
    assert_eq!(interactive_port(&vec![pair(name, "65536")]), None);
    assert_eq!(interactive_port(&vec![pair(name, "x"), pair(name, "1")]), None);
    assert_eq!(interactive_port(&vec![]), None);
}

#[test]
fn ranks_come_from_the_variables_or_the_nodes() {
    let nodes = words(&["w1", "w2"]);
    assert_eq!(node_position(&nodes, "w2"), 1);
    assert_eq!(node_position(&nodes, "w9"), 0);
    let none = EnvList::new();
    assert_eq!(job_rank(&none, &nodes, "w2"), 1);
    assert_eq!(job_size(&none, &nodes), 2);
    let set = EnvList::new()
        .with("VELOCE_RANK".to_string(), "7".to_string())
        .with("VELOCE_SIZE".to_string(), "many".to_string());
    assert_eq!(job_rank(&set, &nodes, "w2"), 7);
    assert_eq!(job_size(&set, &nodes), 2);
}

#[test]
fn ends_are_told() {
    let done = job_outcome(JobEnd::Exited { code: Some(3) });
    assert!(matches!(done.message, EndMessage::Done { exit_code: 3 }));
    assert!(matches!(done.status, JobStatus::Completed(3)));
    assert_eq!(job_outcome(JobEnd::Exited { code: None }).exit_code, Some(-1));
    let failed = job_outcome(JobEnd::WaitFailed { error: "e".to_string() });
    assert!(matches!(&failed.status, JobStatus::Failed(e) if e == "e"));
    assert_eq!(failed.exit_code, None);
    let killed = job_outcome(JobEnd::Stopped);
    assert!(matches!(killed.message, EndMessage::Killed));
    assert_eq!(killed.exit_code, Some(-9));
    let late = job_outcome(JobEnd::WalltimeExceeded);
    assert!(matches!(&late.message, EndMessage::Error { error } if error == "Walltime exceeded"));
    assert_eq!(walltime_limit(0), 3153600000);
    assert_eq!(walltime_limit(9), 9);
}

#[test]
fn preempted_jobs_are_asked_first() {
    assert_eq!(stop_job(Some(KillSignal::Cancel)), StopStep::Kill);
    assert_eq!(stop_job(None), StopStep::Kill);
    assert_eq!(stop_job(Some(KillSignal::Preempt)), StopStep::Ask { wait_seconds: 5 });
    assert_eq!(after_asking(true), StopStep::Ended);
    assert_eq!(after_asking(false), StopStep::Kill);
}

#[test]
fn limits_hold_without_groups() {
    assert_eq!(memory_limit(2, false), Some(2097152));
    assert_eq!(memory_limit(2, true), None);
    assert_eq!(memory_limit(0, false), None);
    assert_eq!(memory_limit(u64::MAX, false), Some(u64::MAX));
    assert_eq!(known_group(-1), 0);
    assert_eq!(known_group(5), 5);
}

#[test]
fn directories_are_kept() {
    assert!(keeps_working_directory("/home/x"));
    for dir in ["/", "/tmp", "/tmp/", "", "//"] {
        assert!(!keeps_working_directory(dir), "{dir}");
    }
}

#[test]
fn scripts_can_fail() {
    assert_eq!(script_result("/p", Some(0)), Ok(()));
    assert_eq!(
        script_result("/p", Some(-2)),
        Err("Script /p failed with exit code Some(-2)".to_string())
    );
    assert_eq!(script_result("/p", None), Err("Script /p failed with exit code None".to_string()));
}

#[test]
fn steps_fail_with_their_last_failure() {
    let ok = RankEnd::Exited { code: Some(0) };
    let bad = RankEnd::Exited { code: Some(4) };
    assert_eq!(step_exit_code(&vec![]), 0);
    assert_eq!(step_exit_code(&vec![ok, ok]), 0);
    assert_eq!(step_exit_code(&vec![bad, ok]), 4);
    assert_eq!(step_exit_code(&vec![bad, RankEnd::WaitFailed]), -1);
    assert_eq!(step_exit_code(&vec![RankEnd::Stopped, bad]), -1);
    assert_eq!(step_exit_code(&vec![RankEnd::Exited { code: None }]), -1);
}

#[test]
fn inputs_are_put_into_place() {
    let input = |name: &str, is_executable: bool, is_archive: bool| InputFile {
        file_id: format!("id-{name}"),
        original_name: name.to_string(),
        is_executable,
        is_archive,
    };
    let plan = process_inputs(
        &vec![input("a.tgz", true, true), input("run", true, false), input("/abs", false, false)],
        "/w",
    );
    assert_eq!(plan[0].dest, "/w/a.tgz");
    assert_eq!(plan[0].file_id, "id-a.tgz");
    assert!(matches!(plan[0].step, InputStep::Unpack));
    assert!(matches!(plan[1].step, InputStep::MakeExecutable));
    assert!(matches!(plan[2].step, InputStep::Leave));
    assert_eq!(plan[2].dest, "/abs");
}
