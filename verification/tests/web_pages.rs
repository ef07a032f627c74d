use veloce::model::JobStatus;
use veloce::web::info::{ContainerRef, ControllerInfo, JobInfo, MpiStats, WorkerInfo};
use veloce::web::job_details::mpi_panel;
use veloce::web::jobs::{idle_badge, mpi_badge};
use veloce::web::jobs::{array_text, deps_text, filtered_jobs, job_href, job_row, list_numbers};
use veloce::web::jobs::{paginated_jobs, shown_reason, status_class, status_text, text_or_dash};
use veloce::web::jobs::SortState;
use veloce::web::job_details::{array_info, can_cancel, clone_obstacle, clone_request, job_cloned};
use veloce::web::job_details::{clone_result, console_title, console_url, dependencies_info};
use veloce::web::job_details::{download_name, file_url, job_child_endpoint, job_details_changed};
use veloce::web::job_details::{job_endpoint, logs_url, notebook_url, panel, resources_text};
use veloce::web::history::{record_for, NODE_VALUES};
use veloce::web::job_details::{asks_for_details, Occasion, DETAILS_INTERVAL_MS, LOGS_INTERVAL_MS};
use veloce::web::job_details::{asks_for_logs, enforcement_text, idle_note, rank_count};
use veloce::web::job_details::{rank_labels, shown_logs, tabs, takes_details};
use veloce::web::job_details::{result_file_id, step_failure, step_request, JobFile, Panel};
use veloce::web::nodes::{filtered_nodes, is_wanted, paginated_nodes, text_or, used_of, NodeList};
use veloce::web::notifications::{is_terminal_status, notify_job_status_changes, status_label};
use veloce::web::dashboard::{alloc_mem, are_sound, core_grid, count_jobs, disk_space};
use veloce::web::dashboard::{disk_throughput, net_throughput, online_count, process_count};
use veloce::web::dashboard::{restart_url, total_cores, total_mem, used_cores, used_mem};
use veloce::web::telemetry_page::{controllers_text, drawn_controllers, gpu_text, grid_title};
use veloce::web::telemetry_page::{has_gpu, pool_text, role_text, running_job_list, running_row};
use veloce::web::telemetry_page::{links, telemetry_grid, Link};
use veloce::web::topology::{build_compute_visual_items, busy_cores_of, can_draw, count_label};
use veloce::web::topology::{flows, group_workers, orbital_position, worker_visual_state};
use veloce::web::topology::WorkerVisualState;
use veloce::web::admin::{class_of_lowered, infrastructure_choices, lines_or_hundred, logs_hint, remediation_class};
use veloce::web::admin::{remediation_hint, stored_or, worker_card, worker_choices};
use veloce::web::telemetry_page::inventory_row;

fn some(s: &str) -> Option<String> {
    Some(s.to_string())
}

fn job(id: u64, user: &str, status: JobStatus) -> JobInfo {
    JobInfo {
        id,
        status,
        user_id: user.to_string(),
        job_name: None,
        job_comment: None,
        binary: "run".to_string(),
        args: vec!["a".to_string()],
        req_nodes: 2,
        req_cores: 4,
        req_memory: 512,
        walltime: 60,
        priority: 1,
        working_directory: "/w".to_string(),
        queued_time: 5,
        start_time: None,
        end_time: None,
        array_id: None,
        array_task_id: None,
        assigned_workers: vec![],
        container: None,
        dependencies: None,
        reason: None,
        is_idle: false,
        idle_duration: 0,
        current_memory_usage: 0,
        cgroup_active: false,
        vnc_enabled: false,
        interactive_port: None,
        stdout_file_id: None,
        stderr_file_id: None,
        workdir_file_id: None,
        mpi_stats: None,
        carried: vec![],
        compared: vec![],
    }
}

fn worker(name: &str, online: bool, total: usize, available: usize) -> WorkerInfo {
    WorkerInfo {
        id: format!("id-{name}"),
        hostname: name.to_string(),
        ip_address: "10.0.0.1".to_string(),
        os_name: "Linux".to_string(),
        online,
        total_cores: total,
        available_cores: available,
        total_memory: 100,
        used_memory: 40,
        allocated_memory: 30,
        net_rx_rate: 1,
        net_tx_rate: 2,
        disk_read_rate: 3,
        disk_write_rate: 4,
        disk_total: 50,
        disk_free: 20,
        swap_total: 0,
        swap_free: 0,
        process_count: 7,
        uptime: 9,
        controller_id: None,
        gres: vec![],
        cpu_percent: "12".to_string(),
    }
}

fn ids(list: &[JobInfo]) -> Vec<u64> {
    list.iter().map(|j| j.id).collect()
}

fn mixed() -> Vec<JobInfo> {
    vec![
        job(1, "ann", JobStatus::Running),
        job(2, "bob", JobStatus::Failed("x".to_string())),
        job(3, "anna", JobStatus::Completed(0)),
        job(4, "cy", JobStatus::Pending),
        job(5, "ann", JobStatus::Killed),
    ]
}

#[test]
fn jobs_are_filtered() {
    assert_eq!(ids(&filtered_jobs(mixed(), "", "All", "none", false)), vec![1, 2, 3, 4, 5]);
    assert_eq!(ids(&filtered_jobs(mixed(), "ann", "All", "id", true)), vec![5, 3, 1]);
    for (filter, id) in
        [("Running", 1), ("Failed", 2), ("Completed", 3), ("Pending", 4), ("Killed", 5)]
    {
        assert_eq!(ids(&filtered_jobs(mixed(), "", filter, "id", false)), vec![id]);
    }
    assert_eq!(filtered_jobs(mixed(), "", "Odd", "id", false).len(), 5);
}

#[test]
fn jobs_are_sorted() {
    assert_eq!(ids(&filtered_jobs(mixed(), "", "All", "user", false)), vec![1, 5, 3, 2, 4]);
    assert_eq!(ids(&filtered_jobs(mixed(), "", "All", "user", true)), vec![4, 2, 3, 1, 5]);
    assert_eq!(ids(&filtered_jobs(mixed(), "", "All", "status", false)), vec![3, 2, 5, 4, 1]);
    let mut named = mixed();
    named[0].job_name = some("b");
    named[1].job_name = some("a");
    assert_eq!(ids(&filtered_jobs(named, "", "All", "name", false)), vec![3, 4, 5, 2, 1]);
}

#[test]
fn statuses_are_sorted_by_what_they_say() {
    let say = |id: u64, text: &str| job(id, "u", JobStatus::Failed(text.to_string()));
    let list = vec![say(1, "b\"q"), say(2, "a\nz"), say(3, "a z")];
    let mut expected: Vec<(String, u64)> = vec![
        (format!("Failed({:?})", "b\"q"), 1),
        (format!("Failed({:?})", "a\nz"), 2),
        (format!("Failed({:?})", "a z"), 3),
    ];
    expected.sort();
    let order: Vec<u64> = expected.into_iter().map(|e| e.1).collect();
    assert_eq!(ids(&filtered_jobs(list, "", "All", "status", false)), order);
    assert_eq!(JobStatus::Failed("a\"b".to_string()).name(), "Failed(\"a\\\"b\")");
    assert_eq!(JobStatus::Completed(-1).name(), "Completed(-1)");
    assert_eq!(JobStatus::Failed("a".to_string()).name_with("<a>"), "Failed(<a>)");
}

#[test]
fn jobs_come_in_pages_of_ten() {
    let list = || (0..25).map(|n| job(n, "u", JobStatus::Running)).collect::<Vec<_>>();
    assert_eq!(ids(&paginated_jobs(list(), "", "All", "id", false, 2)), vec![20, 21, 22, 23, 24]);
    assert_eq!(paginated_jobs(list(), "", "All", "id", true, 0)[0].id, 24);
}

#[test]
fn columns_are_clicked() {
    let mut s = SortState::new();
    assert_eq!((s.column.as_str(), s.descending), ("id", true));
    assert_eq!((s.arrow("id"), s.arrow("user")), (" ▼", ""));
    s.click("id");
    assert_eq!((s.column.as_str(), s.descending, s.arrow("id")), ("id", false, " ▲"));
    s.click("user");
    assert_eq!((s.column.as_str(), s.descending), ("user", false));
    s.click("cores");
    assert_eq!((s.column.as_str(), s.descending), ("cores", true));
}

#[test]
fn rows_say_what_there_is() {
    assert_eq!(status_text(&JobStatus::Killed), "CANCELLED");
    assert_eq!(status_text(&JobStatus::Completed(0)), "Completed(0)");
    assert_eq!(status_text(&JobStatus::Failed("a\"b".to_string())), "Failed(\"a\\\"b\")");
    assert_eq!(status_class(&JobStatus::Failed(String::new())), "badge failed");
    assert_eq!(array_text(Some(3), Some(4)), "3:4");
    assert_eq!(array_text(Some(3), None), "-");
    assert_eq!(list_numbers(&vec![1, 2]), "1, 2");
    assert_eq!(deps_text(&None), "-");
    assert_eq!(deps_text(&Some(vec![])), "-");
    assert_eq!(deps_text(&Some(vec![7])), "7");
    assert_eq!(text_or_dash(&None), "-");
    assert_eq!(job_href(8), "/jobs/8");
    let mut j = job(8, "u", JobStatus::Pending);
    j.reason = some("why");
    j.start_time = Some(10);
    j.container = Some(ContainerRef { id: "c".to_string(), name: "cont".to_string() });
    let row = job_row(&j, 70);
    assert_eq!(row.href, "/jobs/8");
    assert_eq!((row.name.as_str(), row.container.as_str()), ("-", "cont"));
    assert_eq!((row.status_text.as_str(), row.status_class), ("Pending", "badge pending"));
    assert_eq!(row.duration, "1m 0s");
    assert_eq!(row.reason.as_deref(), Some("why"));
    assert_eq!(shown_reason(&job(1, "u", JobStatus::Running)), None);
}

#[test]
fn details_change_without_measurements() {
    let a = job(1, "u", JobStatus::Running);
    let mut b = job(1, "u", JobStatus::Running);
    b.current_memory_usage = 99;
    b.idle_duration = 5;
    assert!(!job_details_changed(&a, &b));
    b.is_idle = true;
    assert!(job_details_changed(&a, &b));
    let mut c = job(1, "u", JobStatus::Running);
    c.args = vec!["b".to_string()];
    assert!(job_details_changed(&a, &c));
    let mut d = job(1, "u", JobStatus::Running);
    d.carried = vec![("k".to_string(), "v".to_string())];
    assert!(job_details_changed(&a, &d));
    assert!(job_details_changed(&a, &job(1, "u", JobStatus::Completed(0))));
}

#[test]
fn details_have_addresses() {
    assert_eq!(job_endpoint("5"), "/api/v1/jobs/5");
    assert_eq!(job_child_endpoint("5", "steps"), "/api/v1/jobs/5/steps");
    assert_eq!(logs_url("5", "stderr", 2), "/api/v1/jobs/5/logs?type=stderr&rank=2");
    assert_eq!(file_url("f"), "/api/v1/files/f");
    assert_eq!(console_url(5, true), "/jobs/5/vnc");
    assert_eq!(console_url(5, false), "/jobs/5/terminal");
    assert_eq!(notebook_url(5), "/api/v1/jobs/5/proxy/lab");
    assert_eq!(console_title("5", true), "Job 5 - Fullscreen VNC Desktop");
    assert_eq!(console_title("x", false), "Job 0 - Interactive Shell");
    assert_eq!(download_name(JobFile::Results, "5"), "results_job_5.tar.gz");
    assert_eq!(download_name(JobFile::Stdout, "5"), "job_5_stdout.log");
    assert_eq!(download_name(JobFile::Stderr, "5"), "job_5_stderr.log");
    assert_eq!(download_name(JobFile::Workdir, "5"), "job_5_workdir.tar.gz");
}

#[test]
fn results_are_found_in_the_output() {
    let text = "x\n[VELOCE_RESULT_ID: abc-1]\n[VELOCE_RESULT_ID: other]";
    assert_eq!(result_file_id("stdout", text).as_deref(), Some("abc-1"));
    assert_eq!(result_file_id("stderr", text), None);
    assert_eq!(result_file_id("stdout", "[VELOCE_RESULT_ID: abc"), None);
    assert_eq!(result_file_id("stdout", "nothing"), None);
}

#[test]
fn jobs_are_cloned() {
    let mut j = job(1, "ann", JobStatus::Running);
    j.array_task_id = Some(3);
    j.dependencies = Some(vec![9]);
    j.container = Some(ContainerRef { id: "c9".to_string(), name: "n".to_string() });
    let c = clone_request(&j);
    assert_eq!(c.binary, "run");
    assert_eq!(c.args, vec!["a"]);
    assert_eq!(c.array_indices, Some(vec![3]));
    assert_eq!(c.dependencies, Some(vec![9]));
    assert_eq!(c.image_uri.as_deref(), Some("veloce://c9"));
    assert_eq!((c.req_nodes, c.req_cores, c.walltime), (2, 4, 60));
    let text = |r: (bool, String)| r;
    assert_eq!(text(clone_result(None, "", None)), (false, "Clone failed: network error".into()));
    assert_eq!(text(clone_result(Some(200), "", Some(7))), (true, "/jobs/7".into()));
    assert_eq!(text(clone_result(Some(500), "", None)), (false, "Clone failed: HTTP 500".into()));
    assert_eq!(
        text(clone_result(Some(400), "bad", None)),
        (false, "Clone failed: HTTP 400 - bad".into())
    );
    assert_eq!(text(job_cloned(Some(201), "{\"job_id\": 12}")), (true, "/jobs/12".into()));
    assert_eq!(text(job_cloned(Some(200), "{\"base_job_id\": 13}")), (true, "/jobs/13".into()));
    assert_eq!(
        text(job_cloned(Some(200), "{}")),
        (false, "Job cloned, but response did not include a job ID (HTTP 200).".into())
    );
    assert_eq!(clone_obstacle(true, true), None);
    assert_eq!(clone_obstacle(false, true), Some("Job details are still loading."));
    assert_eq!(clone_obstacle(true, false), Some("Controller configuration is not loaded."));
}

#[test]
fn steps_are_submitted() {
    let s = step_request("run", "a 'b c'  d", 3);
    assert_eq!(s.binary, "run");
    assert_eq!(s.args, vec!["a", "'b", "c'", "d"]);
    assert_eq!((s.req_nodes, s.req_cores, s.ntasks), (1, 1, 3));
    assert_eq!(step_failure(200), None);
    assert_eq!(step_failure(404).as_deref(), Some("Step submission failed: 404"));
}

#[test]
fn panels_follow_the_tab() {
    assert!(panel("logs", "x") == Panel::Logs);
    assert!(panel("terminal", "5") == Panel::Terminal(5));
    assert!(panel("vnc", "5") == Panel::Vnc(5));
    assert!(panel("jupyter", "5") == Panel::Jupyter(5));
    assert!(panel("vnc", "x") == Panel::Nothing);
    assert!(panel("other", "5") == Panel::Nothing);
    assert!(can_cancel(&JobStatus::Running) && can_cancel(&JobStatus::Pending));
    assert!(!can_cancel(&JobStatus::Killed));
    let mut j = job(1, "u", JobStatus::Running);
    assert_eq!(resources_text(&j), "2 Nodes, 4 Cores, 512 MB Mem");
    assert_eq!(array_info(&j), None);
    assert_eq!(dependencies_info(&j), None);
    j.array_id = Some(4);
    j.array_task_id = Some(2);
    j.dependencies = Some(vec![1, 2]);
    assert_eq!(array_info(&j).as_deref(), Some("Array ID: 4, Task ID: 2"));
    assert_eq!(dependencies_info(&j).as_deref(), Some("1, 2"));
}

#[test]
fn nodes_are_filtered() {
    let list = || {
        vec![
            worker("Alpha", true, 8, 8),
            worker("beta", true, 8, 0),
            worker("gamma", false, 8, 8),
        ]
    };
    let names = |l: Vec<WorkerInfo>| l.into_iter().map(|w| w.hostname).collect::<Vec<_>>();
    let c = NodeList::Cluster;
    assert_eq!(filtered_nodes(list(), "", "All", c).len(), 3);
    assert_eq!(names(filtered_nodes(list(), "ALPHA", "All", c)), vec!["Alpha"]);
    assert_eq!(names(filtered_nodes(list(), "", "Online", c)), vec!["Alpha", "beta"]);
    assert_eq!(names(filtered_nodes(list(), "", "Offline", c)), vec!["gamma"]);
    assert_eq!(names(filtered_nodes(list(), "", "Busy", c)), vec!["beta"]);
    assert_eq!(
        (c.page_size(), NodeList::Grid.page_size(), NodeList::Admin.page_size()),
        (15, 10, 3)
    );
    let many: Vec<WorkerInfo> = (0..20).map(|n| worker(&format!("n{n}"), true, 1, 1)).collect();
    assert_eq!(paginated_nodes(many, "", "All", c, 1).len(), 5);
    assert!(is_wanted(&worker("a", true, 1, 0), "Busy", c));
    assert!(is_wanted(&worker("a", false, 1, 0), "Busy", NodeList::Admin));
    assert_eq!(text_or("", "-"), "-");
    assert_eq!(text_or("x", "-"), "x");
    assert_eq!(used_of(10, 4), 6);
    assert_eq!(used_of(4, 10), 0);
}

#[test]
fn ends_are_notified() {
    let before = vec![job(1, "u", JobStatus::Running), job(2, "u", JobStatus::Completed(0))];
    let mut done = job(1, "u", JobStatus::Completed(3));
    done.job_comment = some("comment");
    let after = vec![done, job(2, "u", JobStatus::Completed(0)), job(3, "u", JobStatus::Killed)];
    let notes = notify_job_status_changes(true, &before, &after);
    assert_eq!(notes.len(), 1);
    assert_eq!(notes[0].title, "Job 1 completed (exit 3)");
    assert_eq!(notes[0].body, "comment");
    assert!(notify_job_status_changes(false, &before, &after).is_empty());
    assert!(notify_job_status_changes(true, &after, &after).is_empty());
    let failed = vec![job(2, "u", JobStatus::Failed("oom".to_string()))];
    let notes = notify_job_status_changes(true, &before, &failed);
    assert_eq!((notes[0].title.as_str(), notes[0].body.as_str()), ("Job 2 failed (oom)", "run"));
    assert!(is_terminal_status(&JobStatus::Killed) && !is_terminal_status(&JobStatus::Pending));
    assert_eq!(status_label(&JobStatus::Running), "running");
    assert_eq!(status_label(&JobStatus::Killed), "killed");
}

#[test]
fn the_cluster_is_added_up() {
    let list = vec![worker("a", true, 8, 6), worker("b", false, 4, 4)];
    assert!(are_sound(&list));
    assert!(!are_sound(&vec![worker("x", true, 1, 2)]));
    assert_eq!(total_cores(&list), Some(12));
    assert_eq!(used_cores(&list), Some(2));
    assert_eq!(alloc_mem(&list), Some(60));
    assert_eq!((total_mem(&list), used_mem(&list)), (Some(0), Some(0)));
    assert_eq!(net_throughput(&list), (Some(2), Some(4)));
    assert_eq!(disk_throughput(&list), (Some(6), Some(8)));
    assert_eq!(disk_space(&list), (Some(100), Some(40)));
    assert_eq!(process_count(&list), Some(14));
    assert_eq!(online_count(&list), 1);
    let counts = count_jobs(&mixed());
    assert_eq!((counts.total, counts.running, counts.pending, counts.failed), (5, 1, 1, 1));
    let mut full = list;
    full[0].total_memory = 3 * 1048576 + 5;
    full[1].used_memory = 2 * 1048576;
    assert_eq!((total_mem(&full), used_mem(&full)), (Some(3), Some(2)));
    full[0].allocated_memory = u64::MAX;
    assert_eq!(alloc_mem(&full), None);
}

#[test]
fn cores_are_drawn_as_squares() {
    let list = vec![worker("a", true, 3, 1), worker("b", false, 2, 2)];
    let grid = core_grid(&list).unwrap();
    assert_eq!(grid.header, "2 / 5 Cores Active");
    assert!(!grid.by_worker);
    let states: Vec<&str> = grid.squares.iter().map(|s| s.label()).collect();
    assert_eq!(states, vec!["BUSY", "BUSY", "FREE", "OFFLINE", "OFFLINE"]);
    let many: Vec<WorkerInfo> = (0..40).map(|n| worker(&format!("n{n}"), true, 100, 50)).collect();
    let grid = core_grid(&many).unwrap();
    assert!(grid.by_worker);
    assert_eq!(grid.header, "40 / 40 Nodes Active");
    assert_eq!(grid.squares.len(), 40);
    assert_eq!(restart_url("controller", &some("c1")).as_deref(), Some("/api/v1/system/restart?target=c1"));
    assert_eq!(restart_url("controller", &None).as_deref(), Some("/api/v1/system/restart"));
    assert_eq!(restart_url("fileserver", &None).as_deref(), Some("/api/v1/fileserver/restart"));
    assert_eq!(restart_url("worker", &None), None);
}

#[test]
fn workers_have_a_state() {
    assert!(worker_visual_state(&worker("a", true, 4, 4)) == WorkerVisualState::Free);
    assert!(worker_visual_state(&worker("a", true, 4, 1)) == WorkerVisualState::Partial);
    assert!(worker_visual_state(&worker("a", true, 4, 0)) == WorkerVisualState::Busy);
    assert!(worker_visual_state(&worker("a", false, 4, 0)) == WorkerVisualState::Offline);
    assert!(worker_visual_state(&worker("a", true, 4, 9)) == WorkerVisualState::Free);
    assert_eq!(busy_cores_of(&worker("a", true, 4, 9)), 0);
    assert_eq!(WorkerVisualState::Busy.colors(), ("#ffb74d", "var(--ds-orange-glow)"));
    assert_eq!(WorkerVisualState::Offline.label(), "OFFLINE");
}

#[test]
fn marks_stand_on_rings() {
    let slot = |i: usize, n: usize| {
        let s = orbital_position(i, n);
        (s.ring_index, s.ring_total, s.radius)
    };
    assert_eq!(slot(3, 12), (3, 12, 42));
    assert_eq!(slot(0, 0), (0, 1, 42));
    assert_eq!(slot(3, 20), (3, 12, 34));
    assert_eq!(slot(13, 20), (1, 8, 60));
}

#[test]
fn small_clusters_are_drawn_by_worker() {
    let list = vec![worker("a", true, 4, 1), worker("b", false, 4, 4)];
    assert!(can_draw(&list));
    let marks = build_compute_visual_items(&list);
    assert_eq!(marks.len(), 2);
    assert_eq!((marks[0].label.as_str(), marks[0].detail.as_str()), ("a", "12% CPU"));
    assert_eq!((marks[1].detail.as_str(), marks[1].count), ("OFFLINE", 1));
    assert_eq!(marks[0].activity, 3);
    assert!(flows(5 * 1024 * 1024 + 1) && !flows(5 * 1024 * 1024));
    assert_eq!(count_label(12), "12");
    assert_eq!(count_label(1), "");
}

#[test]
fn large_clusters_are_drawn_by_group() {
    let mut list: Vec<WorkerInfo> = (0..40).map(|n| worker(&format!("n{n}"), true, 4, n % 2 * 4)).collect();
    for w in list.iter_mut().take(10) {
        w.controller_id = some("ctrl");
    }
    let groups = group_workers(&list, true).unwrap();
    let rows: Vec<(&str, &str, usize)> =
        groups.iter().map(|g| (g.name.as_str(), g.state.label(), g.count)).collect();
    assert_eq!(
        rows,
        vec![
            ("ctrl", "FREE", 5),
            ("ctrl", "BUSY", 5),
            ("unassigned", "FREE", 15),
            ("unassigned", "BUSY", 15),
        ]
    );
    let marks = build_compute_visual_items(&list);
    assert_eq!(marks.len(), 4);
    assert_eq!(marks[1].label, "5 BUSY");
    assert_eq!(marks[1].detail, "ctrl · 20/20 cores");
    let huge: Vec<WorkerInfo> = (0..501).map(|n| worker(&format!("n{n}"), n % 3 > 0, 2, 1)).collect();
    let marks = build_compute_visual_items(&huge);
    assert_eq!(marks.len(), 2);
    assert_eq!(marks[0].label, "334 PARTIAL");
    assert_eq!(marks[1].detail, "cluster aggregate · 167/334 cores");
}

#[test]
fn running_jobs_are_listed() {
    let mut a = job(1, "u", JobStatus::Running);
    a.start_time = Some(10);
    let mut b = job(2, "u", JobStatus::Running);
    b.start_time = Some(20);
    b.assigned_workers = vec!["w1".to_string(), "w2".to_string()];
    let list = running_job_list(vec![a, job(3, "u", JobStatus::Pending), b]);
    assert_eq!(ids(&list), vec![2, 1]);
    let row = running_row(&list[0]);
    assert_eq!(row.title, "#2 run");
    assert_eq!(row.workers, "w1, w2");
    assert_eq!(row.tooltip, "Workers: w1, w2");
    assert_eq!(row.resources, "2n x 4c");
    assert_eq!(running_row(&list[1]).workers, "workers pending");
}

#[test]
fn telemetry_shows_cores_or_nodes() {
    let grid = telemetry_grid(&vec![worker("a", true, 2, 1)]).unwrap();
    assert!(grid.by_core);
    assert_eq!(grid.cells.len(), 2);
    assert!(grid.cells[0].title.starts_with("Node: a | Core "));
    assert_eq!(grid_title(true), "Real-Time CPU Cores Grid");
    assert_eq!(grid_title(false), "Real-Time Cluster Nodes Grid");
    let many: Vec<WorkerInfo> = (0..60).map(|n| worker(&format!("n{n}"), true, 100, 50)).collect();
    let grid = telemetry_grid(&many).unwrap();
    assert!(!grid.by_core);
    assert_eq!(grid.cells.len(), 60);
}

#[test]
fn workers_are_shown_in_full() {
    let mut w = worker("a", true, 8, 5);
    w.total_memory = 16 << 30;
    w.used_memory = 1_250_000_000;
    w.allocated_memory = 12;
    w.net_rx_rate = 1536 * 1024 + 1023;
    w.net_tx_rate = 1023;
    w.uptime = 4140;
    let row = inventory_row(&w);
    assert_eq!((row.node.as_str(), row.cores.as_str()), ("a", "3/8"));
    assert_eq!((row.memory.as_str(), row.uptime.as_str()), ("12/16G", "1.1h"));
    let card = worker_card(&w, "7");
    assert_eq!((card.badge_class, card.badge), ("badge completed", "ONLINE"));
    assert_eq!((card.hostname.as_str(), card.memory.as_str()), ("a", "1.2 / 17.2 GB (7%)"));
    assert_eq!((card.gpu_color, card.gpu), ("var(--text-muted)", "No GPU Hardware"));
    assert_eq!((card.net_rx.as_str(), card.net_tx.as_str()), ("1.5 MB/s", "0.0 MB/s"));
    w.online = false;
    w.gres = vec![("gpu".to_string(), 0)];
    let card = worker_card(&w, "7");
    assert_eq!((card.badge_class, card.badge), ("badge failed", "OFFLINE"));
    assert_eq!((card.gpu_color, card.gpu), ("var(--success)", "Accelerated"));
}

#[test]
fn controllers_are_named() {
    let c = |name: &str, online: bool| ControllerInfo {
        hostname: name.to_string(),
        role: "Leader".to_string(),
        online,
    };
    assert_eq!(controllers_text(&vec![]), "");
    assert_eq!(controllers_text(&vec![c("a", true), c("b", false)]), " | CTRLS: a (ON), b (OFF)");
    let stand_in = drawn_controllers(vec![], true);
    assert_eq!((stand_in[0].hostname.as_str(), stand_in[0].online), ("CTRL-HA-1", true));
    assert_eq!(drawn_controllers(vec![c("a", true), c("b", true)], false).len(), 2);
    assert_eq!(role_text(&c("a", false)), "OFFLINE");
    assert_eq!(role_text(&c("a", true)), "LEADER");
    assert_eq!(pool_text(3, 4, 8), "3 NODES · 4/8 CORES");
    let mut w = worker("a", true, 1, 1);
    assert!(!has_gpu(&w));
    w.gres = vec![("fpga".to_string(), 1), ("gpu".to_string(), 2)];
    assert!(has_gpu(&w));
    assert_eq!(gpu_text(&vec![w]).as_deref(), Some("2 x NVIDIA GPU Active"));
    assert_eq!(gpu_text(&vec![]).as_deref(), Some("No accelerators detected"));
    let choices = infrastructure_choices(&vec![c("a", true)]);
    assert_eq!((choices[0].shown.as_str(), choices[1].value.as_str()), ("a (Leader)", "fileserver"));
    assert_eq!(infrastructure_choices(&vec![])[0].value, "veloce-controller-ha-1");
    assert_eq!(worker_choices(&vec![worker("w", true, 1, 1)])[0].shown, "Worker: w");
    assert_eq!(remediation_class("An ERROR"), "badge failed");
    assert_eq!(remediation_class("fine"), "badge running");
    assert_eq!(class_of_lowered("an error"), "badge failed");
    assert_eq!(class_of_lowered("An ERROR"), "badge running");
    assert_eq!(stored_or(None, "o"), "o");
    assert_eq!(lines_or_hundred(&some("50")), 50);
    assert_eq!(lines_or_hundred(&some("x")), 100);
    assert_eq!(lines_or_hundred(&None), 100);
    assert!(logs_hint().contains("veloce doctor"));
    assert!(remediation_hint().contains("not available"));
}

#[test]
fn details_are_taken_when_they_change() {
    let first = job(1, "ann", JobStatus::Running);
    let mut second = job(1, "ann", JobStatus::Running);
    assert!(takes_details(&None, &first));
    second.idle_duration = 9;
    second.current_memory_usage = 7;
    assert!(!takes_details(&Some(job(1, "ann", JobStatus::Running)), &second));
    second.status = JobStatus::Killed;
    assert!(takes_details(&Some(first), &second));
}

#[test]
fn tabs_follow_the_job() {
    let mut j = job(1, "ann", JobStatus::Pending);
    j.vnc_enabled = true;
    j.interactive_port = Some(8888);
    assert_eq!(tabs(&None), ["logs"]);
    assert_eq!(tabs(&Some(j)), ["logs"]);
    let mut j = job(1, "ann", JobStatus::Running);
    j.interactive_port = Some(8888);
    assert_eq!(tabs(&Some(j)), ["logs", "terminal", "jupyter"]);
    let mut j = job(1, "ann", JobStatus::Running);
    j.vnc_enabled = true;
    j.interactive_port = Some(8888);
    let j = Some(j);
    for tab in tabs(&j) {
        assert!(panel(&tab, "1") != Panel::Nothing);
    }
    assert_eq!(tabs(&j), ["logs", "terminal", "vnc", "jupyter"]);
}

#[test]
fn notes_follow_the_job() {
    let mut j = job(1, "ann", JobStatus::Running);
    assert_eq!(idle_note(&j), None);
    assert_eq!(enforcement_text(&j), "Traditional (setrlimit)");
    j.is_idle = true;
    j.idle_duration = 61;
    j.cgroup_active = true;
    assert_eq!(idle_note(&j), some("IDLE DETECTED (61s)"));
    assert_eq!(enforcement_text(&j), "Cgroup v2 Isolation");
    assert_eq!(rank_count(&None), 1);
    assert_eq!(rank_count(&Some(j)), 2);
    assert_eq!(rank_labels(2), ["Rank 0", "Rank 1"]);
    assert!(rank_labels(1).is_empty());
    assert!(rank_labels(0).is_empty());
    assert_eq!(shown_logs(""), "No logs available.");
    assert_eq!(shown_logs("x"), "x");
    assert!(asks_for_logs(Occasion::LogsTimer, "1", "logs", true));
    assert!(!asks_for_logs(Occasion::LogsTimer, "1", "vnc", true));
    assert!(asks_for_logs(Occasion::Changed, "1", "vnc", true));
    assert!(!asks_for_logs(Occasion::DetailsTimer, "1", "logs", true));
    assert!(!asks_for_logs(Occasion::Changed, "", "logs", true));
    assert!(!asks_for_logs(Occasion::Changed, "1", "logs", false));
    assert!(asks_for_details(Occasion::Changed, "1", true));
    assert!(asks_for_details(Occasion::DetailsTimer, "1", true));
    assert!(!asks_for_details(Occasion::LogsTimer, "1", true));
    assert!(!asks_for_details(Occasion::Changed, "", true));
    assert!(!asks_for_details(Occasion::Changed, "1", false));
    assert_eq!((DETAILS_INTERVAL_MS, LOGS_INTERVAL_MS), (5000, 2000));
}

#[test]
fn links_join_what_answers() {
    let named = |online| ControllerInfo {
        hostname: "c".to_string(),
        role: "Leader".to_string(),
        online,
    };
    let list = vec![named(true), named(false)];
    let down = links(&list, false);
    assert_eq!(down.len(), 2);
    assert!(down[0] == Link::ControllerToPool { controller: 0, live: true });
    assert!(down[1] == Link::ControllerToPool { controller: 1, live: false });
    let up = links(&list, true);
    assert_eq!(up.len(), 4);
    assert!(up[0] == Link::ControllerToFiles { controller: 0 });
    assert!(up[1] == Link::ControllerToPool { controller: 0, live: true });
    assert!(up[2] == Link::ControllerToPool { controller: 1, live: false });
    assert!(up[3] == Link::FilesToPool);
}

#[test]
fn each_node_has_a_history_of_its_own() {
    let mut list: Vec<(String, Vec<u32>)> = Vec::new();
    for value in 0..25 {
        record_for(&mut list, "a", value, NODE_VALUES);
        if value % 10 == 0 {
            record_for(&mut list, "b", value, NODE_VALUES);
        }
    }
    assert_eq!(list.len(), 2);
    assert_eq!(list[0], ("a".to_string(), (5..25).collect::<Vec<u32>>()));
    assert_eq!(list[1], ("b".to_string(), vec![0, 10, 20]));
}

#[test]
fn mpi_statistics_are_shown() {
    let mut j = job(1, "ann", JobStatus::Running);
    assert!(mpi_panel(&j).is_none());
    assert_eq!((idle_badge(&j), mpi_badge(&j)), (None, None));
    j.is_idle = true;
    j.idle_duration = 90;
    j.mpi_stats = Some(MpiStats {
        send_calls: 12,
        send_bytes: 1572864,
        send_time_secs: "0.250000".to_string(),
    });
    assert_eq!((idle_badge(&j), mpi_badge(&j)), (some("IDLE 90s"), Some("MPI")));
    let row = job_row(&j, 0);
    assert_eq!((row.idle, row.mpi), (some("IDLE 90s"), Some("MPI")));
    let panel = mpi_panel(&j).unwrap();
    assert_eq!((panel.send_calls.as_str(), panel.data.as_str()), ("12", "1.50 MB"));
    assert_eq!(panel.time, "0.250000 s");
}

#[test]
fn unshown_changes_are_seen() {
    let plain = job(1, "ann", JobStatus::Running);
    let stats = |calls: u64, bytes: u64, time: &str| {
        let mut j = job(1, "ann", JobStatus::Running);
        j.mpi_stats = Some(MpiStats {
            send_calls: calls,
            send_bytes: bytes,
            send_time_secs: time.to_string(),
        });
        j
    };
    assert!(job_details_changed(&plain, &stats(1, 2, "3")));
    assert!(!job_details_changed(&stats(1, 2, "3"), &stats(1, 2, "3")));
    assert!(job_details_changed(&stats(1, 2, "3"), &stats(2, 2, "3")));
    assert!(job_details_changed(&stats(1, 2, "3"), &stats(1, 1, "3")));
    assert!(job_details_changed(&stats(1, 2, "3"), &stats(1, 2, "4")));
    let mut other = job(1, "ann", JobStatus::Running);
    other.compared = vec![("container".to_string(), "{}".to_string())];
    assert!(job_details_changed(&plain, &other));
    assert!(clone_request(&other).carried.is_empty());
}
