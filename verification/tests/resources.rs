use veloce::resources::{cgroup_pids, clock_ticks_per_second, disk_space, disk_usage};
use veloce::resources::{get_disk_io, get_process_descendants, get_process_group, machine_gres};
use veloce::resources::{page_size_bytes, parse_proc_stat_cpu_ticks, read_cgroup_cpu_usec};
use veloce::resources::{read_cgroup_memory_bytes, read_namespace_process_totals};
use veloce::resources::{read_process_group_id, total_memory, DiskRow, GresCount};
use veloce::resources::{NamespaceEntry, ProcUse};

const STAT: &str = "12 (a) b) S 1 34 34 0 -1 4194304 1 2 3 4 50 60 7 8 20 0 1";

#[test]
fn control_groups_are_read() {
    assert_eq!(read_cgroup_cpu_usec("usage_usec 123\nuser_usec 4\n"), Some(123));
    assert_eq!(read_cgroup_cpu_usec("usage_usec x\nusage_usec 5"), Some(5));
    assert_eq!(read_cgroup_cpu_usec("usage_usec 1 2"), None);
    assert_eq!(read_cgroup_memory_bytes(" 4096\n"), Some(4096));
    assert_eq!(read_cgroup_memory_bytes("max"), None);
    assert_eq!(cgroup_pids("1\n x\n 22 \n"), vec![1, 22]);
}

#[test]
fn process_tables_are_read() {
    assert_eq!(read_process_group_id(STAT), Some(34));
    assert_eq!(parse_proc_stat_cpu_ticks(STAT), Some(110));
    assert_eq!(parse_proc_stat_cpu_ticks("12 (a) S 1"), None);
    assert_eq!(parse_proc_stat_cpu_ticks("nothing"), None);
    assert_eq!(clock_ticks_per_second(250), 250);
    assert_eq!(clock_ticks_per_second(-1), 100);
    assert_eq!(page_size_bytes(0), 4096);
    assert_eq!(page_size_bytes(16384), 16384);
}

fn entry(name: &str, stat: Option<&str>, statm: Option<&str>) -> NamespaceEntry {
    NamespaceEntry {
        name: name.to_string(),
        stat: stat.map(|s| s.to_string()),
        statm: statm.map(|s| s.to_string()),
    }
}

#[test]
fn namespaces_are_added_up() {
    let list = vec![
        entry("1", Some(STAT), Some("9 3 1")),
        entry("cpuinfo", Some(STAT), Some("9 3 1")),
        entry("2", None, Some("9 2 1")),
        entry("3", Some("broken"), None),
    ];
    assert_eq!(read_namespace_process_totals(&list, 4096), Some((110, 5 * 4096)));
    assert_eq!(read_namespace_process_totals(&vec![entry("2", None, Some("9 2"))], 4096), None);
    let full = vec![entry("1", Some(STAT), Some("9 2")), entry("2", None, Some("9 2"))];
    assert_eq!(read_namespace_process_totals(&full, u64::MAX), Some((110, u64::MAX)));
}

fn row(pid: u32, parent: Option<u32>, memory: u64, group: Option<i32>) -> ProcUse {
    ProcUse { pid, parent, memory, group }
}

#[test]
fn jobs_are_trees_and_groups() {
    let rows = vec![
        row(1, None, 1, Some(1)),
        row(10, Some(1), 10, Some(10)),
        row(11, Some(10), 100, Some(10)),
        row(12, Some(11), 1000, Some(12)),
        row(20, Some(1), 5, Some(20)),
    ];
    let mut tree = get_process_descendants(&rows, 10);
    tree.sort();
    assert_eq!(tree, vec![10, 11, 12]);
    assert_eq!(total_memory(&rows, &tree), Some(1110));
    let mut group = get_process_group(&rows, Some(10));
    group.sort();
    assert_eq!(group, vec![10, 11]);
    assert!(get_process_group(&rows, None).is_empty());
    assert_eq!(get_process_descendants(&rows, 77), vec![77]);
    let ring = vec![row(5, Some(6), 1, None), row(6, Some(5), 2, None)];
    assert_eq!(get_process_descendants(&ring, 5).len(), 2);
    let huge = vec![row(1, None, u64::MAX, None), row(2, None, 1, None)];
    assert_eq!(total_memory(&huge, &vec![1, 2]), None);
}

fn disk(mount_point: &str, total: u64, free: u64) -> DiskRow {
    DiskRow { mount_point: mount_point.to_string(), total, free }
}

#[test]
fn the_root_disk_counts() {
    let disks = vec![disk("/boot", 5, 1), disk("/", 100, 40), disk("/data", 900, 800)];
    assert_eq!(disk_space(&disks), Some((100, 40)));
    assert_eq!(disk_space(&vec![disk("/a", 5, 1), disk("/b", 7, 2)]), Some((12, 3)));
    assert_eq!(disk_space(&vec![]), Some((0, 0)));
    assert_eq!(disk_space(&vec![disk("/a", u64::MAX, 1), disk("/b", 7, 2)]), None);
    assert_eq!(disk_usage(&disks), Some((164, 1005)));
    assert_eq!(disk_usage(&vec![disk("/", 1, 2)]), None);
}

#[test]
fn sectors_have_512_bytes() {
    let line = "8 0 sda 1 2 10 4 5 6 20 8 9 10 11\n8 1 short\n8 2 sdb 1 2 1 4 5 6 2 8 9 10\n";
    assert_eq!(get_disk_io(line), Some((11 * 512, 22 * 512)));
    assert_eq!(get_disk_io(""), Some((0, 0)));
    let wide = "8 0 sda 1 2 18446744073709551615 4 5 6 20 8 9 10 11";
    assert_eq!(get_disk_io(wide), None);
}

#[test]
fn found_gpus_replace_configured_ones() {
    let list = || {
        vec![
            GresCount { name: "fpga".to_string(), count: 2 },
            GresCount { name: "gpu".to_string(), count: 1 },
        ]
    };
    let got = machine_gres(list(), Some(4));
    let mut rows: Vec<(String, u64)> = got.into_iter().map(|g| (g.name, g.count)).collect();
    rows.sort();
    assert_eq!(rows, vec![("fpga".to_string(), 2), ("gpu".to_string(), 4)]);
    assert_eq!(machine_gres(list(), Some(0))[1].count, 1);
    assert_eq!(machine_gres(list(), None).len(), 2);
    assert_eq!(machine_gres(vec![], Some(1)).len(), 1);
}
