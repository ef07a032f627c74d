use veloce::records::{frame, load_persisted_job_states, load_persisted_job_wds, next_frame};
use veloce::records::{persist_job_state, persist_job_wd, remove_persisted_job_state};
use veloce::records::{split_records, Frame, LoadError};
use veloce::recovery::{is_same_command, kill_target, probe_target, recover_job};
use veloce::recovery::{recovered_outcome, stop_signal, PersistedJob, RecoveredEnd, Recovery};
use veloce::recovery::StopSignal;
use veloce::job_runner::{EndMessage, KillSignal};

#[test]
fn frames_carry_their_length() {
    assert_eq!(frame(&vec![9, 8]), vec![2, 0, 0, 0, 0, 0, 0, 0, 9, 8]);
    let mut data = frame(&vec![1]);
    data.extend(frame(&vec![2, 3]));
    match next_frame(&data, 0) {
        Frame::Record { payload, next } => assert_eq!((payload, next), (vec![1], 9)),
        _ => panic!("no record"),
    }
    let (records, cut) = split_records(&data);
    assert_eq!(records, vec![vec![1], vec![2, 3]]);
    assert!(!cut);
    data.pop();
    let (records, cut) = split_records(&data);
    assert_eq!(records, vec![vec![1]]);
    assert!(cut);
    assert!(matches!(next_frame(&vec![1, 0, 0], 0), Frame::End));
    assert!(matches!(next_frame(&vec![0; 8], 0), Frame::End));
    assert!(matches!(next_frame(&vec![255; 9], 0), Frame::Truncated));
}

#[test]
fn directories_are_read_back() {
    let mut file = persist_job_wd(7, "/home/é").unwrap();
    assert_eq!(file[..8], [24, 0, 0, 0, 0, 0, 0, 0]);
    assert_eq!(file[8], 7);
    file.extend(persist_job_wd(8, "").unwrap());
    file.extend(persist_job_wd(7, "/new").unwrap());
    let map = load_persisted_job_wds(&file).unwrap();
    assert_eq!(map.len(), 2);
    assert_eq!(map[&7], "/new");
    assert_eq!(map[&8], "");
}

#[test]
fn damage_ends_reading() {
    assert!(load_persisted_job_wds(&vec![]).unwrap().is_empty());
    let mut file = persist_job_wd(1, "/a").unwrap();
    file.extend(frame(&vec![1, 2, 3]));
    file.extend(persist_job_wd(2, "/b").unwrap());
    let map = load_persisted_job_wds(&file).unwrap();
    assert_eq!(map.len(), 1);
    let mut bad_text = vec![0u8; 16];
    bad_text[8] = 1;
    bad_text.push(0xff);
    assert!(load_persisted_job_wds(&frame(&bad_text)).unwrap().is_empty());
    let mut cut = persist_job_wd(1, "/a").unwrap();
    cut.pop();
    assert_eq!(load_persisted_job_wds(&cut), Err(LoadError::CutShort));
}

fn stored(job_id: u64, rest: u8) -> PersistedJob {
    PersistedJob {
        job_id,
        pid: 7,
        pgid: 8,
        binary: "\u{e9}".to_string(),
        args: words(&["a", ""]),
        walltime: 9,
        submission_time: 10,
        rest: vec![rest],
    }
}

fn file_of(jobs: &[(u64, u8)]) -> Vec<u8> {
    let mut file = Vec::new();
    for job in jobs {
        file.extend(persist_job_state(&stored(job.0, job.1)).unwrap());
    }
    file
}

fn loaded(file: &Vec<u8>) -> Result<Vec<(u64, u8)>, LoadError> {
    load_persisted_job_states(file)
        .map(|jobs| jobs.into_iter().map(|job| (job.job_id, job.rest[0])).collect())
}

#[test]
fn persisted_jobs_are_loaded() {
    assert_eq!(loaded(&vec![]), Ok(vec![]));
    let mut file = file_of(&[(1, 10)]);
    let fields: Vec<Vec<u8>> = vec![
        vec![76, 0, 0, 0, 0, 0, 0, 0],
        vec![1, 0, 0, 0, 0, 0, 0, 0],
        vec![7, 0, 0, 0],
        vec![8, 0, 0, 0],
        vec![2, 0, 0, 0, 0, 0, 0, 0, 0xc3, 0xa9],
        vec![2, 0, 0, 0, 0, 0, 0, 0],
        vec![1, 0, 0, 0, 0, 0, 0, 0, b'a'],
        vec![0, 0, 0, 0, 0, 0, 0, 0],
        vec![9, 0, 0, 0, 0, 0, 0, 0],
        vec![10, 0, 0, 0, 0, 0, 0, 0],
        vec![1, 0, 0, 0, 0, 0, 0, 0, 10],
    ];
    assert_eq!(file, fields.concat());
    let jobs = load_persisted_job_states(&file).unwrap();
    assert_eq!(jobs.len(), 1);
    assert_eq!((jobs[0].job_id, jobs[0].pid, jobs[0].pgid), (1, 7, 8));
    assert_eq!((jobs[0].binary.as_str(), jobs[0].args.clone()), ("\u{e9}", words(&["a", ""])));
    assert_eq!((jobs[0].walltime, jobs[0].submission_time), (9, 10));
    assert_eq!(jobs[0].rest, vec![10]);
    file.extend(persist_job_state(&stored(2, 20)).unwrap());
    assert_eq!(loaded(&file), Ok(vec![(1, 10), (2, 20)]));
}

#[test]
fn removal_keeps_the_other_jobs() {
    let file = file_of(&[(1, 10), (2, 20), (1, 11), (3, 30)]);
    let left = remove_persisted_job_state(&file, 1).unwrap().unwrap();
    assert_eq!(left, file_of(&[(2, 20), (3, 30)]));
    assert_eq!(loaded(&left), Ok(vec![(2, 20), (3, 30)]));
    assert_eq!(remove_persisted_job_state(&file, 9), Ok(None));
    assert_eq!(remove_persisted_job_state(&vec![], 1), Ok(None));
    assert_eq!(remove_persisted_job_state(&file_of(&[(5, 0)]), 5), Ok(Some(vec![])));
    let mut cut = file_of(&[(1, 10), (2, 20)]);
    cut.pop();
    assert_eq!(remove_persisted_job_state(&cut, 1), Err(LoadError::CutShort));
}

#[test]
fn states_are_taken_up_to_the_first_bad_one() {
    let bad = frame(&vec![7]);
    let mut file = file_of(&[(1, 10), (2, 20)]);
    file.extend(&bad);
    file.extend(file_of(&[(3, 30)]));
    assert_eq!(loaded(&file), Ok(vec![(1, 10), (2, 20)]));
    let mut cut = file_of(&[(1, 10), (2, 20)]);
    cut.pop();
    assert_eq!(loaded(&cut), Err(LoadError::CutShort));
    file.pop();
    assert_eq!(loaded(&file), Ok(vec![(1, 10), (2, 20)]));
    let mut short = file_of(&[(1, 10)]);
    short.extend(vec![9, 0, 0]);
    assert_eq!(loaded(&short), Ok(vec![(1, 10)]));
}

#[test]
fn damaged_jobs_are_not_loaded() {
    let payload = file_of(&[(1, 10)])[8..].to_vec();
    for n in 1..payload.len() {
        assert_eq!(loaded(&frame(&payload[..n].to_vec())), Ok(vec![]), "{n}");
    }
    let mut more = payload.clone();
    more.extend(vec![1, 2]);
    assert_eq!(loaded(&frame(&more)), Ok(vec![(1, 10)]));
    let mut bad_text = payload.clone();
    bad_text[24] = 0xff;
    assert_eq!(loaded(&frame(&bad_text)), Ok(vec![]));
    let mut many = payload.clone();
    many[33] = 0xff;
    assert_eq!(loaded(&frame(&many)), Ok(vec![]));
}

fn words(list: &[&str]) -> Vec<String> {
    list.iter().map(|s| s.to_string()).collect()
}

fn job(walltime: u64, submission_time: u64) -> PersistedJob {
    PersistedJob {
        job_id: 1,
        pid: 10,
        pgid: 10,
        binary: "solver".to_string(),
        args: words(&["-n", "4"]),
        walltime,
        submission_time,
        rest: vec![],
    }
}

#[test]
fn processes_are_recognised() {
    let args = words(&["-n", "4"]);
    assert!(is_same_command(&words(&["/opt/solver"]), "solver", &args));
    assert!(is_same_command(&words(&["sh", "-c", "solver -n 4"]), "solver", &args));
    assert!(!is_same_command(&words(&["sh", "-c", "other"]), "solver", &args));
    assert!(!is_same_command(&vec![], "solver", &args));
}

#[test]
fn jobs_are_taken_up_again() {
    let running = Some(words(&["solver", "-n", "4"]));
    match recover_job(&job(100, 50), 120, &running) {
        Recovery::Watch { limit_seconds } => assert_eq!(limit_seconds, 100),
        _ => panic!("not watched"),
    }
    match recover_job(&job(0, 50), 1000000, &running) {
        Recovery::Watch { limit_seconds } => assert_eq!(limit_seconds, 3153600000),
        _ => panic!("not watched"),
    }
    assert!(matches!(recover_job(&job(100, 50), 151, &running), Recovery::Forget));
    assert!(matches!(recover_job(&job(100, 50), 150, &running), Recovery::Watch { .. }));
    assert!(matches!(recover_job(&job(100, 500), 100, &running), Recovery::Watch { .. }));
    match recover_job(&job(100, 50), 100, &None) {
        Recovery::Report { error } => {
            assert_eq!(error, "Job process not found or PID reused after restart.");
        }
        _ => panic!("not reported"),
    }
    let other = Some(words(&["bash"]));
    assert!(matches!(recover_job(&job(0, 50), 100, &other), Recovery::Report { .. }));
}

#[test]
fn groups_are_signalled() {
    assert_eq!(kill_target(12, 10), -12);
    assert_eq!(kill_target(0, 10), -10);
    assert_eq!(probe_target(12, 10), -12);
    assert_eq!(probe_target(0, 10), 10);
    assert_eq!(stop_signal(Some(KillSignal::Preempt)), StopSignal::Terminate);
    assert_eq!(stop_signal(Some(KillSignal::Cancel)), StopSignal::Kill);
    assert_eq!(stop_signal(None), StopSignal::Kill);
}

#[test]
fn ends_of_recovered_jobs_are_told() {
    assert!(matches!(
        recovered_outcome(RecoveredEnd::Stopped),
        EndMessage::Done { exit_code: -9 }
    ));
    assert!(matches!(recovered_outcome(RecoveredEnd::Gone), EndMessage::Done { exit_code: -100 }));
    match recovered_outcome(RecoveredEnd::WalltimeExceeded) {
        EndMessage::Error { error } => assert_eq!(error, "Walltime exceeded"),
        _ => panic!("no error"),
    }
}
