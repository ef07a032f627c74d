use veloce::web::history::{chart, record, JobStats};
use veloce::web::listing::{can_go_next, can_go_prev, found_in, page_label_text, take_page};
use veloce::web::listing::total_pages;

#[test]
fn pages_hold_the_list() {
    let list: Vec<u32> = (0..23).collect();
    let mut all = Vec::new();
    for page in 0..total_pages(list.len(), 10) {
        all.extend(take_page(list.clone(), page, 10));
    }
    assert_eq!(all, list);
    assert_eq!(take_page(list.clone(), 2, 10), vec![20, 21, 22]);
    assert!(take_page(list.clone(), 3, 10).is_empty());
    assert!(take_page(list, usize::MAX, 10).is_empty());
}

#[test]
fn there_is_always_a_page() {
    assert_eq!(total_pages(0, 10), 1);
    assert_eq!(total_pages(10, 10), 1);
    assert_eq!(total_pages(11, 10), 2);
    assert_eq!(page_label_text(0, 0, 10), "Page 1 of 1");
    assert_eq!(page_label_text(1, 11, 10), "Page 2 of 2");
}

#[test]
fn pages_are_turned_within_the_list() {
    assert!(can_go_next(0, 11, 10));
    assert!(!can_go_next(1, 11, 10));
    assert!(!can_go_next(0, 10, 10));
    assert!(!can_go_next(usize::MAX, 10, 10));
    assert!(!can_go_prev(0));
    assert!(can_go_prev(1));
}

#[test]
fn histories_keep_the_latest() {
    let mut history = vec![1, 2];
    record(&mut history, 3, 3);
    assert_eq!(history, vec![1, 2, 3]);
    record(&mut history, 4, 3);
    assert_eq!(history, vec![2, 3, 4]);
}

fn stats(memory: u64) -> JobStats {
    JobStats {
        job_id: 1,
        memory_usage_bytes: memory,
        is_idle: false,
        idle_duration: 0,
        cgroup_active: true,
    }
}

#[test]
fn charts_are_bounded() {
    let mut list: Vec<(JobStats, u32)> = Vec::new();
    for n in 0..310 {
        chart(&mut list, (stats(n as u64), n), false);
    }
    assert_eq!(list.len(), 300);
    assert_eq!((list[0].1, list[299].1), (10, 309));
    chart(&mut list, (stats(309), 999), true);
    assert_eq!(list.len(), 300);
    assert_eq!(list[299].1, 309);
}

#[test]
fn searches_look_into_every_text() {
    let list = vec!["alpha".to_string(), "beta".to_string()];
    assert!(found_in(&list, "") && found_in(&list, "et") && !found_in(&list, "Beta"));
    assert!(found_in(&vec![], "") && !found_in(&vec![], "a"));
}
