use veloce::cgroups::{after_removal, controllers_to_enable, CgroupManager, CleanupStep};
use veloce::cgroups::{copy_ids, GresEntry, InitStep};

fn enabled() -> CgroupManager {
    let mut m = CgroupManager::new();
    let mut step = InitStep::FindControllers;
    loop {
        let contents = match step {
            InitStep::ReadRootSubtree => "cpu memory pids",
            _ => "",
        };
        step = m.init(step, true, contents);
        if matches!(step, InitStep::Done | InitStep::Failed) {
            break;
        }
    }
    m
}

#[test]
fn missing_controllers_are_asked_for() {
    assert_eq!(controllers_to_enable("").as_deref(), Some("+cpu +memory +pids"));
    assert_eq!(controllers_to_enable("cpuset io").as_deref(), Some("+memory +pids"));
    assert_eq!(controllers_to_enable("cpu pids").as_deref(), Some("+memory"));
    assert_eq!(controllers_to_enable("memory cpu pids"), None);
}

#[test]
fn groups_are_off_until_set_up() {
    let m = CgroupManager::new();
    assert!(!m.is_enabled());
    assert_eq!(m.root_dir(), "/sys/fs/cgroup/veloce");
    assert_eq!(m.create_job_cgroup(1), None);
    assert!(m.add_process(1, 2).is_none());
    assert!(m.set_limits(1, 5, 5, &vec![]).is_none());
    assert_eq!(m.cleanup_job_cgroup(1, true), None);
}

#[test]
fn setting_up_takes_its_steps() {
    let mut m = CgroupManager::new();
    let s = m.init(InitStep::FindControllers, true, "");
    assert!(matches!(s, InitStep::EnterWorkerGroup));
    let s = m.init(s, false, "");
    assert!(matches!(s, InitStep::ReadRootSubtree));
    let s = m.init(s, true, "cpu");
    match &s {
        InitStep::EnableInRoot { value } => assert_eq!(value, "+memory +pids"),
        _ => panic!("nothing to enable"),
    }
    let s = m.init(s, false, "");
    assert!(matches!(s, InitStep::FindRoot));
    let s = m.init(s, false, "");
    assert!(matches!(s, InitStep::CreateRoot));
    let s = m.init(s, true, "");
    assert!(matches!(s, InitStep::FindSubtree));
    let s = m.init(s, true, "");
    match &s {
        InitStep::EnableInSubtree { value } => assert_eq!(value, "+cpu +memory +pids"),
        _ => panic!("nothing to enable"),
    }
    assert!(!m.is_enabled());
    let s = m.init(s, true, "");
    assert!(matches!(s, InitStep::Done));
    assert!(m.is_enabled());
}

#[test]
fn setting_up_can_fail() {
    let mut m = CgroupManager::new();
    assert!(matches!(m.init(InitStep::FindControllers, false, ""), InitStep::Done));
    assert!(!m.is_enabled());
    assert!(matches!(m.init(InitStep::CreateRoot, false, ""), InitStep::Failed));
    assert!(matches!(m.init(InitStep::FindSubtree, false, ""), InitStep::Done));
    assert!(!m.is_enabled());
    let step = InitStep::EnableInSubtree { value: String::new() };
    assert!(matches!(m.init(step, false, ""), InitStep::Done));
    assert!(!m.is_enabled());
}

#[test]
fn each_job_has_a_group() {
    let m = enabled();
    assert!(m.is_enabled());
    assert_eq!(m.get_job_path(12), "/sys/fs/cgroup/veloce/job-12");
    assert_ne!(m.get_job_path(1), m.get_job_path(11));
    assert_eq!(m.create_job_cgroup(3).as_deref(), Some("/sys/fs/cgroup/veloce/job-3"));
    let w = m.add_process(3, 77).unwrap();
    assert_eq!(w.path, "/sys/fs/cgroup/veloce/job-3/cgroup.procs");
    assert_eq!(w.contents, "77");
    assert!(w.required);
    assert_eq!(
        m.create_step_cgroup(3, 1).as_deref(),
        Some("/sys/fs/cgroup/veloce/job-3/step-1")
    );
    let s = m.add_step_process(3, 1, 78).unwrap();
    assert_eq!(s.path, "/sys/fs/cgroup/veloce/job-3/step-1/cgroup.procs");
    assert_eq!((s.contents.as_str(), s.required), ("78", false));
    assert!(CgroupManager::new().add_step_process(3, 1, 78).is_none());
    assert_eq!(m.cleanup_job_cgroup(3, false), None);
    assert_eq!(m.cleanup_job_cgroup(3, true).as_deref(), Some("/sys/fs/cgroup/veloce/job-3"));
}

#[test]
fn limits_are_written_where_there_are_some() {
    let m = enabled();
    let gres = vec![
        GresEntry { name: "gpu".to_string(), ids: vec![0, 1] },
        GresEntry { name: "fpga".to_string(), ids: vec![4] },
    ];
    let plan = m.set_limits(9, 2, 3, &gres).unwrap();
    let rows: Vec<(&str, &str, bool)> =
        plan.writes.iter().map(|w| (w.path.as_str(), w.contents.as_str(), w.required)).collect();
    assert_eq!(
        rows,
        vec![
            ("/sys/fs/cgroup/veloce/job-9/memory.max", "2097152", true),
            ("/sys/fs/cgroup/veloce/job-9/cpu.max", "300000 100000", true),
            ("/sys/fs/cgroup/veloce/job-9/pids.max", "10000", false),
        ]
    );
    assert_eq!(plan.filter_path, "/sys/fs/cgroup/veloce/job-9");
    assert_eq!(plan.gpu_filters, vec![vec![0, 1]]);
    let free = m.set_limits(9, 0, 0, &vec![]).unwrap();
    assert_eq!(free.writes.len(), 1);
    assert!(free.gpu_filters.is_empty());
}

#[test]
fn removal_is_tried_five_times() {
    assert!(matches!(after_removal(true, 0), CleanupStep::Removed));
    let mut attempts = 0;
    let mut tries = 0;
    loop {
        tries += 1;
        match after_removal(false, attempts) {
            CleanupStep::Retry { attempts: n, wait_ms } => {
                assert_eq!(wait_ms, 100);
                attempts = n;
            }
            CleanupStep::GiveUp { wait_ms } => {
                assert_eq!(wait_ms, 100);
                break;
            }
            CleanupStep::Removed => panic!("removed"),
        }
    }
    assert_eq!(tries, 5);
    assert_eq!(copy_ids(&vec![3, 1]), vec![3, 1]);
}
