use std::collections::HashMap;
use veloce::commands::{Action, Command, Setting, Worker};
use veloce::connection::{after_desktop_attempt, component_log, counted_since, job_memory};
use veloce::connection::{last_lines, load_basis, log_command, log_text, note_activity};
use veloce::connection::{reachable_url, restart_waits, simulated_memory, system_log, unknown_log};
use veloce::connection::{missing_dir_error, Counters, DesktopStep, JobActivity, LoadBasis};
use veloce::connection::{LogOutput, MemorySample, SystemLog, WorkerState};
use veloce::job_runner::KillSignal;

fn worker(run_as_worker_user: bool) -> Worker {
    Worker {
        setting: Setting {
            worker_id: "w".to_string(),
            addr: "10.0.0.1:9000".to_string(),
            run_as_worker_user,
            temp_dir: "/tmp".to_string(),
        },
        state: WorkerState::new(HashMap::new()),
        terminals: vec![],
        desktops: vec![],
    }
}

fn run(job_id: u64) -> Command {
    Command::RunJob {
        job_id,
        working_directory: "/home/ann".to_string(),
        controller_url: "https://localhost:8080/localhost".to_string(),
    }
}

#[test]
fn jobs_start_where_they_are_told() {
    match worker(false).on_command(run(1)) {
        Action::StartJob { working_directory, controller_url } => {
            assert_eq!(working_directory, "/home/ann");
            assert_eq!(controller_url, "https://10.0.0.1:8080/10.0.0.1");
        }
        _ => panic!("not started"),
    }
    match worker(true).on_command(run(1)) {
        Action::StartJob { working_directory, .. } => assert_eq!(working_directory, "/tmp"),
        _ => panic!("not started"),
    }
}

fn stop(w: &mut Worker, job_id: u64, preempt: bool) -> (Option<KillSignal>, Vec<u32>) {
    let command =
        if preempt { Command::PreemptJob { job_id } } else { Command::TerminateJob { job_id } };
    match w.on_command(command) {
        Action::Stop { signal, steps } => (signal, steps),
        _ => panic!("nothing to stop"),
    }
}

#[test]
fn jobs_are_stopped_once() {
    let mut w = worker(false);
    w.on_command(run(1));
    w.on_command(run(2));
    for step_id in [5, 6] {
        let step = w.on_command(Command::RunStep {
            job_id: 1,
            step_id,
            working_directory: "/d".to_string(),
            controller_url: "localhost".to_string(),
        });
        match step {
            Action::StartStep { working_directory, controller_url } => {
                assert_eq!((working_directory.as_str(), controller_url.as_str()), ("/d", "10.0.0.1"));
            }
            _ => panic!("not started"),
        }
    }
    assert!(matches!(
        w.on_command(Command::StepMessage { job_id: 1, step_id: 5 }),
        Action::Deliver
    ));
    assert!(matches!(
        w.on_command(Command::StepMessage { job_id: 2, step_id: 5 }),
        Action::Nothing
    ));
    w.state.finish_step(1, 5);
    assert!(matches!(
        w.on_command(Command::StepMessage { job_id: 1, step_id: 5 }),
        Action::Nothing
    ));
    assert_eq!(stop(&mut w, 1, false), (Some(KillSignal::Cancel), vec![5, 6]));
    assert_eq!(stop(&mut w, 1, false), (None, vec![]));
    assert_eq!(stop(&mut w, 2, true), (Some(KillSignal::Preempt), vec![]));
    assert_eq!(w.state.jobs, Vec::<u64>::new());
}

#[test]
fn workers_leave_when_drained() {
    let mut w = worker(false);
    w.on_command(run(1));
    assert!(matches!(w.on_command(Command::Tick { draining: false }), Action::Nothing));
    assert!(matches!(
        w.on_command(Command::DrainChanged { draining: true }),
        Action::TellDraining
    ));
    assert!(matches!(w.on_command(Command::DrainChanged { draining: true }), Action::Nothing));
    assert!(matches!(w.on_command(Command::Tick { draining: true }), Action::Nothing));
    w.state.finish_job(1);
    assert!(matches!(w.on_command(Command::Tick { draining: true }), Action::Leave));
    assert!(w.state.may_leave(true));
}

#[test]
fn output_is_looked_for_on_record() {
    let mut w = worker(false);
    let get = |given: Option<&str>| Command::GetLogs {
        job_id: 1,
        errors: true,
        working_directory: given.map(|s| s.to_string()),
    };
    match w.on_command(get(None)) {
        Action::SendLog { text } => assert_eq!(text, "Job working directory not found."),
        _ => panic!("found"),
    }
    match w.on_command(get(Some("/given"))) {
        Action::ReadLog { path } => assert_eq!(path, "/given/1-w-stderr.log"),
        _ => panic!("not read"),
    }
    w.on_command(run(1));
    w.state.finish_job(1);
    match w.on_command(get(Some("/given"))) {
        Action::ReadLog { path } => assert_eq!(path, "/home/ann/1-w-stderr.log"),
        _ => panic!("not read"),
    }
    match w.on_command(Command::ListJobOutputFiles { job_id: 4, working_directory: None }) {
        Action::ListOutputs { dir } => assert_eq!(dir, None),
        _ => panic!("not listed"),
    }
    match w.on_command(Command::GetJobOutputFileChunk { job_id: 4, working_directory: None }) {
        Action::SendError { text } => {
            assert_eq!(text, "Working directory for job 4 not found");
            assert_eq!(text, missing_dir_error(4));
        }
        _ => panic!("no error"),
    }
    match w.on_command(Command::GetJobOutputFileChunk { job_id: 1, working_directory: None }) {
        Action::ReadOutput { dir } => assert_eq!(dir, "/home/ann"),
        _ => panic!("not read"),
    }
}

#[test]
fn sessions_are_kept_track_of() {
    let mut w = worker(false);
    match w.on_command(Command::StartTerminalSession { job_id: 1 }) {
        Action::OpenTerminal { dir, pid } => assert_eq!((dir.as_str(), pid), ("/tmp", None)),
        _ => panic!("not opened"),
    }
    w.state.adopt_job(1, 77, "/home");
    match w.on_command(Command::StartTerminalSession { job_id: 1 }) {
        Action::OpenTerminal { dir, pid } => assert_eq!((dir.as_str(), pid), ("/home", Some(77))),
        _ => panic!("not opened"),
    }
    assert!(matches!(w.on_command(Command::TerminalInput { session_id: 3 }), Action::Nothing));
    w.terminal_opened(3);
    assert!(matches!(w.on_command(Command::TerminalInput { session_id: 3 }), Action::ToTerminal));
    assert!(matches!(w.on_command(Command::TerminalResize { session_id: 3 }), Action::ToTerminal));
    assert!(matches!(
        w.on_command(Command::StopTerminalSession { session_id: 3 }),
        Action::CloseTerminal
    ));
    assert!(matches!(
        w.on_command(Command::StopTerminalSession { session_id: 3 }),
        Action::Nothing
    ));
    match w.on_command(Command::StartVncSession { job_id: 1 }) {
        Action::RefuseDesktop { reason } => assert_eq!(reason, "VNC port not found"),
        _ => panic!("not refused"),
    }
    w.state.vnc_ports.insert(1, 5902);
    assert!(matches!(
        w.on_command(Command::StartVncSession { job_id: 1 }),
        Action::OpenDesktop { port: 5902 }
    ));
    w.desktop_opened(4);
    assert!(matches!(w.on_command(Command::VncInput { session_id: 4 }), Action::ToDesktop));
    assert!(matches!(w.on_command(Command::StopVncSession { session_id: 4 }), Action::CloseDesktop));
    assert!(matches!(w.on_command(Command::VncInput { session_id: 4 }), Action::Nothing));
}

#[test]
fn logs_of_the_system_are_printed() {
    let mut w = worker(false);
    let ask = |source: &str| Command::GetSystemLogs { source: source.to_string(), lines: 9 };
    match w.on_command(ask("journal")) {
        Action::RunLogCommand { log, program, args } => {
            assert_eq!((log, program.as_str()), (SystemLog::Journal, "journalctl"));
            assert_eq!(args, vec!["-n", "9", "--no-pager"]);
        }
        _ => panic!("not run"),
    }
    match w.on_command(ask("mail")) {
        Action::SendSystemLog { text } => {
            assert_eq!(text, "Unsupported log source: mail");
            assert_eq!(text, unknown_log("mail"));
        }
        _ => panic!("run"),
    }
    assert_eq!(system_log("dmesg"), Some(SystemLog::Kernel));
    assert_eq!(log_command(SystemLog::Kernel, 9).1, vec!["-T"]);
    assert_eq!(
        log_command(SystemLog::Syslog, 9),
        ("tail".to_string(), vec!["-n".into(), "9".into(), "/var/log/syslog".into()])
    );
    let printed = LogOutput::Printed { text: "a\nb\nc\n".to_string() };
    assert_eq!(log_text(SystemLog::Kernel, 2, &printed), "b\nc");
    assert_eq!(log_text(SystemLog::Syslog, 2, &printed), "a\nb\nc\n");
    let failed = LogOutput::Failed { status: "exit 1".to_string(), errors: "no".to_string() };
    assert_eq!(log_text(SystemLog::Kernel, 2, &failed), "dmesg failed (exit 1): no");
    assert_eq!(log_text(SystemLog::Journal, 2, &failed), "Failed to read journal (exit 1): no");
    let lost = LogOutput::NotRun { error: "gone".to_string() };
    assert_eq!(log_text(SystemLog::Kernel, 2, &lost), "Failed to run dmesg: gone");
    assert_eq!(log_text(SystemLog::Syslog, 2, &lost), "Failed to read syslog: gone");
    assert!(matches!(
        w.on_command(Command::GetComponentLogs { lines: 3 }),
        Action::SendComponentLog { lines: 3 }
    ));
    assert_eq!(component_log(&Some("x\ny".to_string()), 1), "y");
    assert_eq!(component_log(&None, 1), "Log file not found");
    assert_eq!(last_lines("a\nb", 0), "");
    assert_eq!(last_lines("a\nb", 9), "a\nb");
}

#[test]
fn restarts_are_for_workers() {
    let mut w = worker(false);
    let restart = |component: &str| Command::Restart { component: component.to_string(), delay_ms: 7 };
    assert!(matches!(
        w.on_command(restart("worker")),
        Action::Restart { grace_ms: 500, delay_ms: 7 }
    ));
    assert!(matches!(w.on_command(restart("controller")), Action::Nothing));
    assert_eq!(restart_waits("worker", 1), Some((500, 1)));
    w.on_command(run(1));
    w.on_command(run(2));
    assert_eq!(w.state.drain_jobs(), vec![1, 2]);
    assert!(w.state.jobs.is_empty());
}

#[test]
fn desktops_are_tried_ten_times() {
    assert!(matches!(after_desktop_attempt(3, true, ""), DesktopStep::Connected));
    assert!(matches!(
        after_desktop_attempt(9, false, "e"),
        DesktopStep::Retry { attempt: 10, wait_ms: 500 }
    ));
    match after_desktop_attempt(10, false, "e") {
        DesktopStep::Closed { reason } => assert_eq!(reason, "TCP connect refused: e"),
        _ => panic!("not closed"),
    }
}

#[test]
fn addresses_are_reachable() {
    assert_eq!(reachable_url("http://localhost:1", "c.example:9000"), "http://c.example:1");
    assert_eq!(reachable_url("http://other:1", "c.example:9000"), "http://other:1");
    assert_eq!(simulated_memory(2), Some(2097152));
    assert_eq!(simulated_memory(u64::MAX), None);
}

fn sample() -> MemorySample {
    MemorySample {
        group_bytes: None,
        group_time_known: false,
        listed_bytes: 4,
        process_group_bytes: 20,
        tree_bytes: 30,
        namespace_bytes: None,
    }
}

#[test]
fn memory_is_the_best_known() {
    assert_eq!(job_memory(&sample()), 30);
    assert_eq!(job_memory(&MemorySample { group_bytes: Some(50), ..sample() }), 30);
    let known = MemorySample { group_bytes: Some(50), group_time_known: true, ..sample() };
    assert_eq!(job_memory(&known), 50);
    assert_eq!(job_memory(&MemorySample { group_bytes: Some(0), ..known }), 20);
    assert_eq!(
        job_memory(&MemorySample { group_bytes: Some(0), listed_bytes: 25, ..known }),
        25
    );
    assert_eq!(job_memory(&MemorySample { namespace_bytes: Some(99), ..known }), 99);
}

#[test]
fn loads_need_two_measurements() {
    assert_eq!(load_basis(5, None), LoadBasis::Processes);
    assert_eq!(load_basis(5, Some((1, 0))), LoadBasis::Nothing);
    assert_eq!(load_basis(5, Some((1, 10))), LoadBasis::Used { used: 4, elapsed: 10 });
    assert_eq!(load_basis(5, Some((9, 10))), LoadBasis::Used { used: 0, elapsed: 10 });
}

#[test]
fn quiet_jobs_become_idle() {
    let a = JobActivity {
        max_memory_bytes: 10,
        cpu_time_ms: 5,
        last_active_at: 100,
        is_idle: false,
        idle_duration: 0,
    };
    let quiet = note_activity(&a, 699, false, 600, 7, 1);
    assert_eq!((quiet.is_idle, quiet.max_memory_bytes, quiet.cpu_time_ms), (false, 10, 6));
    let idle = note_activity(&quiet, 700, false, 600, 70, 1);
    assert_eq!((idle.is_idle, idle.idle_duration, idle.max_memory_bytes), (true, 600, 70));
    let still = note_activity(&idle, 710, false, 600, 0, 0);
    assert_eq!((still.is_idle, still.idle_duration), (true, 610));
    let busy = note_activity(&still, 711, true, 600, 0, 0);
    assert_eq!((busy.is_idle, busy.idle_duration, busy.last_active_at), (false, 0, 711));
}

#[test]
fn counters_can_start_anew() {
    let c = |n: u64| Counters {
        rx: n,
        tx: n,
        rx_packets: n,
        tx_packets: n,
        disk_read: n,
        disk_write: n,
    };
    assert_eq!(counted_since(&c(9), &c(4)), c(5));
    assert_eq!(counted_since(&c(4), &c(9)), c(0));
}
