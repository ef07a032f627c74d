use veloce::web::format::{format_bytes, format_duration, format_megabyte_rate, format_megabytes};
use veloce::web::format::{format_billions, format_memory, format_rate, format_uptime};
use veloce::web::format::job_duration_text;

fn samples() -> Vec<u64> {
    let mut list = vec![0u64, 1, 1023, 1024, 1025, 1536, 52428, 52429, 1048575, 1048576];
    for shift in 0..64u32 {
        for near in [-1i64, 0, 1] {
            list.push((1u64 << shift).wrapping_add(near as u64));
        }
        list.push(0x9e37_79b9_7f4a_7c15u64 >> shift);
        list.push(0xd1b5_4a32_d192_ed03u64 >> shift);
    }
    for k in 0..400u64 {
        list.push(1024 * k + 51 * (k % 21));
        list.push(1048576 * k + 52429 * (k % 20) + k % 3);
        list.push(1073741824 * k + 53687091 * (k % 20) + k % 2);
        list.push(k * 0x0147_ae14_7ae1_47ae);
    }
    list.push(u64::MAX);
    list
}

fn bytes_by_float(bytes: u64) -> String {
    if bytes < 1024 {
        format!("{} B", bytes)
    } else if bytes < 1024 * 1024 {
        format!("{:.1} KB", bytes as f64 / 1024.0)
    } else if bytes < 1024 * 1024 * 1024 {
        format!("{:.1} MB", bytes as f64 / (1024.0 * 1024.0))
    } else {
        format!("{:.1} GB", bytes as f64 / (1024.0 * 1024.0 * 1024.0))
    }
}

fn rate_by_float(rate: u64) -> String {
    let value = rate as f64;
    if value >= 1024.0 * 1024.0 * 1024.0 {
        format!("{:.1} GiB/s", value / 1024.0 / 1024.0 / 1024.0)
    } else if value >= 1024.0 * 1024.0 {
        format!("{:.1} MiB/s", value / 1024.0 / 1024.0)
    } else if value >= 1024.0 {
        format!("{:.1} KiB/s", value / 1024.0)
    } else {
        format!("{} B/s", rate)
    }
}

#[test]
fn amounts_are_rounded_as_floats_are() {
    for n in samples() {
        assert_eq!(format_bytes(n), bytes_by_float(n), "{n}");
        assert_eq!(format_rate(n), rate_by_float(n), "{n}");
        assert_eq!(format_megabytes(n), format!("{:.2} MB", n as f64 / 1024.0 / 1024.0), "{n}");
    }
}

#[test]
fn amounts_have_known_texts() {
    assert_eq!(format_bytes(1023), "1023 B");
    assert_eq!(format_bytes(1536), "1.5 KB");
    assert_eq!(format_bytes(5 * 1024 * 1024), "5.0 MB");
    assert_eq!(format_bytes(u64::MAX), "17179869184.0 GB");
    assert_eq!(format_rate(0), "0 B/s");
    assert_eq!(format_rate(1024 * 1024 + 52429), "1.1 MiB/s");
    assert_eq!(format_megabytes(1572864), "1.50 MB");
    assert_eq!(format_megabyte_rate(0), "0.0 MB/s");
    assert_eq!(format_megabyte_rate(1536 * 1024), "1.5 MB/s");
}

#[test]
fn durations_are_shown_by_their_largest_part() {
    assert_eq!(format_duration(0), "0s");
    assert_eq!(format_duration(59), "59s");
    assert_eq!(format_duration(61), "1m 1s");
    assert_eq!(format_duration(3661), "1h 1m 1s");
    assert_eq!(format_duration(90061), "1d 1h 1m");
    assert_eq!(format_duration(u64::MAX), "213503982334601d 7h 0m");
    for secs in [0u64, 59, 60, 3599, 3600, 86399, 86400, 1234567] {
        let (d, h, m, s) = (secs / 86400, secs % 86400 / 3600, secs % 3600 / 60, secs % 60);
        assert_eq!(d * 86400 + h * 3600 + m * 60 + s, secs);
    }
}

#[test]
fn running_jobs_are_timed_to_now() {
    assert_eq!(job_duration_text(Some(10), Some(75), 999), "1m 5s");
    assert_eq!(job_duration_text(Some(10), None, 30), "20s");
    assert_eq!(job_duration_text(Some(50), None, 30), "0s");
    assert_eq!(job_duration_text(None, None, 30), "-");
}

fn uptime_by_float(secs: u64) -> String {
    let hours = secs as f64 / 3600.0;
    if hours >= 1.0 {
        format!("{:.1}h", hours)
    } else {
        format!("{}m", secs / 60)
    }
}

fn memory_by_float(allocated: u64, total: u64) -> String {
    format!("{:.0}/{:.0}G", allocated as f64, total as f64 / 1024.0 / 1024.0 / 1024.0)
}

#[test]
fn quotients_are_rounded_as_floats_are() {
    let mut list = samples();
    for k in 0..3000u64 {
        list.push(180 * k);
        list.push(180 * k + 1);
        list.push(180 * (k << 30));
        list.push(50_000_000 * k);
        list.push(k);
    }
    for n in list {
        assert_eq!(format_uptime(n), uptime_by_float(n), "{n}");
        assert_eq!(format_billions(n), format!("{:.1}", n as f64 / 1e9), "{n}");
        assert_eq!(format_memory(n, n / 3), memory_by_float(n, n / 3), "{n}");
        assert_eq!(format_memory(n / 7, n), memory_by_float(n / 7, n), "{n}");
    }
}

#[test]
fn quotients_have_known_texts() {
    assert_eq!(format_uptime(59), "0m");
    assert_eq!(format_uptime(3599), "59m");
    assert_eq!(format_uptime(3600), "1.0h");
    assert_eq!(format_uptime(4500), "1.2h");
    assert_eq!(format_uptime(6300), "1.8h");
    assert_eq!(format_uptime(86400), "24.0h");
    assert_eq!(format_billions(0), "0.0");
    assert_eq!(format_billions(1_250_000_000), "1.2");
    assert_eq!(format_billions(1_750_000_000), "1.8");
    assert_eq!(format_memory(2048, 3 << 30), "2048/3G");
    assert_eq!(format_memory(u64::MAX, u64::MAX), "18446744073709551616/17179869184G");
}
