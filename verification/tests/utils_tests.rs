use std::time::Duration;
use tor_downloader_rs::monitor::{format_duration, resident_memory_kb};
use tor_downloader_rs::utils::{clean_filename, format_bytes, is_onion_url};

#[test]
fn lib_test_format_bytes() {
    assert_eq!(format_bytes(500), "500.0 B");
    assert_eq!(format_bytes(1536), "1.5 KB");
    assert_eq!(format_bytes(1048576), "1.0 MB");
}

#[test]
fn crawler_test_format_bytes() {
    assert_eq!(format_bytes(500), "500.0 B");
    assert_eq!(format_bytes(1536), "1.5 KB");
    assert_eq!(format_bytes(1048576), "1.0 MB");
    assert_eq!(format_bytes(1073741824), "1.0 GB");
}

#[test]
fn monitor_test_format_bytes() {
    assert_eq!(format_bytes(500), "500.0 B");
    assert_eq!(format_bytes(1536), "1.5 KB");
    assert_eq!(format_bytes(1048576), "1.0 MB");
    assert_eq!(format_bytes(1073741824), "1.0 GB");
}

#[test]
fn test_format_duration() {
    assert_eq!(format_duration(Duration::from_secs(30).as_secs()), "30s");
    assert_eq!(format_duration(Duration::from_secs(90).as_secs()), "1m 30s");
    assert_eq!(format_duration(Duration::from_secs(3661).as_secs()), "1h 1m 1s");
}

#[test]
fn test_clean_filename() {
    assert_eq!(clean_filename("file:name"), "file_name");
    assert_eq!(clean_filename("file<>name"), "file__name");
    assert_eq!(clean_filename("normal-file_name.txt"), "normal-file_name.txt");
}

#[test]
fn test_is_onion_url() {
    assert!(is_onion_url("http://example.onion"));
    assert!(is_onion_url("https://test.onion/path"));
    assert!(!is_onion_url("http://example.com"));
    assert!(!is_onion_url("invalid-url"));
}

/// The text is what `format!("{:.1} {}", bytes as f64 / 1024^k, unit)` gives.
fn float_reference(bytes: u64) -> String {
    let units = ["B", "KB", "MB", "GB", "TB"];
    let mut size = bytes as f64;
    let mut unit = 0;
    while size >= 1024.0 && unit < units.len() - 1 {
        size /= 1024.0;
        unit += 1;
    }
    format!("{:.1} {}", size, units[unit])
}

#[test]
fn format_bytes_matches_float_formatting() {
    let samples: [u64; 16] = [
        0,
        1,
        1023,
        1024,
        1025,
        1280,
        1075,
        10239,
        1048575,
        1099511627775,
        1099511627776,
        123456789012345,
        9007199254740993,
        18014398509481985,
        u64::MAX - 1,
        u64::MAX,
    ];
    for b in samples {
        assert_eq!(format_bytes(b), float_reference(b), "bytes = {}", b);
    }
}

#[test]
fn format_bytes_edges() {
    assert_eq!(format_bytes(0), "0.0 B");
    assert_eq!(format_bytes(1023), "1023.0 B");
    assert_eq!(format_bytes(1099511627776), "1.0 TB");
    assert_eq!(format_bytes(u64::MAX), "16777216.0 TB");
}

#[test]
fn format_duration_edges() {
    assert_eq!(format_duration(0), "0s");
    assert_eq!(format_duration(3600), "1h 0m 0s");
    assert_eq!(format_duration(60), "1m 0s");
}

#[test]
fn clean_filename_is_idempotent() {
    let once = clean_filename("a b/c?d*é.txt");
    assert_eq!(once, "a_b_c_d_é.txt");
    assert_eq!(clean_filename(&once), once);
}

#[test]
fn is_onion_url_needs_onion_host() {
    assert!(!is_onion_url("http://onion.example.com"));
    assert!(is_onion_url("http://abc.onion:8080/x"));
    assert!(!is_onion_url("mailto:someone@example.onion"));
}

#[test]
fn resident_memory_from_status() {
    let status = "Name:\ttest\nVmPeak:\t  9000 kB\nVmRSS:\t    1234 kB\nThreads:\t1\n";
    assert_eq!(resident_memory_kb(status), Some(1234));
    assert_eq!(resident_memory_kb("Name: x\n"), None);
    assert_eq!(resident_memory_kb(""), None);
    assert_eq!(resident_memory_kb("VmRSS:\r\nVmRSS: abc kB\r\nVmRSS: 77 kB\r\n"), Some(77));
    assert_eq!(resident_memory_kb(" VmRSS: 5 kB"), None);
}
