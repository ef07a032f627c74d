use veloce::envs::EnvList;
use veloce::log_manager::{event_labels, stream_labels, LogManager, RingBuffer};

#[test]
fn the_latest_messages_are_kept() {
    let mut b: RingBuffer<u32> = RingBuffer::new(3);
    for n in 0..5 {
        b.push(n);
    }
    assert_eq!(b.pop_all(), vec![2, 3, 4]);
    assert!(b.pop_all().is_empty());
}

#[test]
fn messages_wait_for_a_connection() {
    let mut m: LogManager<u32> = LogManager::new();
    assert_eq!(m.log(1), None);
    assert_eq!(m.log(2), None);
    assert_eq!(m.set_tx(), vec![1, 2]);
    assert_eq!(m.log(3), Some(3));
    m.send_failed(3);
    assert_eq!(m.log(4), None);
    assert_eq!(m.set_tx(), vec![3, 4]);
    assert!(m.set_tx().is_empty());
}

#[test]
fn five_thousand_messages_wait() {
    let mut m: LogManager<u32> = LogManager::new();
    for n in 0..5007 {
        m.log(n);
    }
    let kept = m.set_tx();
    assert_eq!(kept.len(), 5000);
    assert_eq!((kept[0], kept[4999]), (7, 5006));
}

#[test]
fn messages_are_labelled() {
    let e = event_labels("w", "INFO", "mod");
    assert_eq!(e.get("worker_id").as_deref(), Some("w"));
    assert_eq!(e.get("level").as_deref(), Some("INFO"));
    assert_eq!(e.get("target").as_deref(), Some("mod"));
    let s = stream_labels("w", 5, "stderr");
    assert_eq!(s.get("job_id").as_deref(), Some("5"));
    assert_eq!(s.get("stream").as_deref(), Some("stderr"));
    assert_eq!(s.entries().len(), 3);
}

#[test]
fn names_are_held_once() {
    let pair = |n: &str, v: &str| (n.to_string(), v.to_string());
    let e = EnvList::new().with_all(&vec![pair("A", "1"), pair("B", "2"), pair("A", "3")]);
    assert_eq!(e.get("A").as_deref(), Some("3"));
    assert_eq!(e.get("C"), None);
    let over = EnvList::new().with("B".to_string(), "9".to_string());
    let both = e.under(&over);
    assert_eq!(both.get("B").as_deref(), Some("9"));
    assert_eq!(both.get("A").as_deref(), Some("3"));
    assert_eq!(both.entries().len(), 2);
}
