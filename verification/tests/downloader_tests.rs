use tor_downloader_rs::downloader::{
    backoff_delay_ms, backoff_fits, connection_test_outcome, downloaded_result, filtered_result,
    response_outcome, status_is_success, RetryAction, RetryState,
};
use tor_downloader_rs::{DownloadResult, DownloadStats, TorDownloaderError};

#[test]
fn backoff_doubles_per_attempt() {
    assert_eq!(backoff_delay_ms(1000, 1, 0), 1000);
    assert_eq!(backoff_delay_ms(1000, 2, 0), 2000);
    assert_eq!(backoff_delay_ms(1000, 3, 1999), 4999);
    assert_eq!(backoff_delay_ms(1000, 4, 123), 8123);
    assert_eq!(backoff_delay_ms(0, 64, 999), 999);
    for attempts in 1..10usize {
        let a = backoff_delay_ms(250, attempts, 7) - 7;
        let b = backoff_delay_ms(250, attempts + 1, 7) - 7;
        assert_eq!(b, 2 * a);
    }
}

#[test]
fn retry_state_gives_up_after_max_attempts() {
    let mut stats = DownloadStats::default();
    let mut retry = RetryState::new(2);
    assert_eq!(retry.max_attempts, 3);

    let n = retry.start_attempt();
    assert_eq!(n, 1);
    stats.record_request(n);
    match retry.after_error("http://x.onion/a", "timeout", &mut stats, 100, 5) {
        RetryAction::RetryAfter(d) => assert_eq!(d, 105),
        other => panic!("expected a retry, got {:?}", other),
    }
    let n = retry.start_attempt();
    stats.record_request(n);
    match retry.after_error("http://x.onion/a", "timeout", &mut stats, 100, 5) {
        RetryAction::RetryAfter(d) => assert_eq!(d, 205),
        other => panic!("expected a retry, got {:?}", other),
    }
    let n = retry.start_attempt();
    assert_eq!(n, 3);
    stats.record_request(n);
    match retry.after_error("http://x.onion/a", "timeout", &mut stats, 100, 5) {
        RetryAction::GiveUp(r) => {
            assert_eq!(r.url, "http://x.onion/a");
            assert!(!r.success);
            assert_eq!(r.error, Some("Max retries exceeded: timeout".to_string()));
            assert_eq!(r.content_type, None);
            assert_eq!(r.content_length, None);
        },
        other => panic!("expected to give up, got {:?}", other),
    }
    assert_eq!(stats.total_requests, 3);
    assert_eq!(stats.retry_count, 2);
    assert_eq!(stats.failed_downloads, 1);
    assert_eq!(stats.successful_downloads, 0);
}

#[test]
fn no_retries_gives_up_at_once() {
    let mut stats = DownloadStats::default();
    let mut retry = RetryState::new(0);
    retry.start_attempt();
    assert!(matches!(
        retry.after_error("u", "e", &mut stats, 1000, 0),
        RetryAction::GiveUp(_)
    ));
    assert_eq!(stats.failed_downloads, 1);
}

#[test]
fn stats_count_successes_and_bytes() {
    let mut stats = DownloadStats::default();
    let ok = downloaded_result("http://x.onion/", Some("text/html".to_string()), 1536);
    stats.record_result(&ok);
    let failed = DownloadResult {
        url: "http://x.onion/b".to_string(),
        content_type: None,
        content_length: Some(99),
        success: false,
        error: Some("HTTP error: 404 Not Found".to_string()),
    };
    stats.record_result(&failed);
    assert_eq!(stats.successful_downloads, 1);
    assert_eq!(stats.bytes_downloaded, 1536);
    assert_eq!(stats.failed_downloads, 0);
    assert_eq!(stats.total_requests, 0);
}

#[test]
fn status_decisions() {
    assert!(status_is_success(200));
    assert!(status_is_success(299));
    assert!(!status_is_success(199));
    assert!(!status_is_success(300));

    let r = response_outcome("http://x.onion/", 404, "404 Not Found", None, Some(10), false).unwrap();
    assert!(!r.success);
    assert_eq!(r.error, Some("HTTP error: 404 Not Found".to_string()));
    assert_eq!(r.content_length, Some(10));

    let r = response_outcome("http://x.onion/", 200, "200 OK", Some("text/html".to_string()), None, true)
        .unwrap();
    assert!(r.success);
    assert_eq!(r.error, None);
    assert_eq!(r.content_type, Some("text/html".to_string()));

    assert!(response_outcome("http://x.onion/", 200, "200 OK", None, None, false).is_none());
}

#[test]
fn filtered_and_downloaded_results() {
    let f = filtered_result("http://x.onion/skip");
    assert_eq!(f.url, "http://x.onion/skip");
    assert!(!f.success);
    assert_eq!(f.error, Some("URL filtered out by include/exclude patterns".to_string()));

    let d = downloaded_result("http://x.onion/a.pdf", None, 42);
    assert!(d.success);
    assert_eq!(d.content_length, Some(42));
    assert_eq!(d.error, None);
}

#[test]
fn connection_test_statuses() {
    assert!(connection_test_outcome(200).is_ok());
    assert!(connection_test_outcome(403).is_ok());
    assert!(connection_test_outcome(404).is_ok());
    match connection_test_outcome(500) {
        Err(TorDownloaderError::Connection(m)) => {
            assert_eq!(m, "Connection test failed with status: 500")
        },
        other => panic!("expected a connection error, got {:?}", other),
    }
}

#[test]
fn backoff_limits() {
    assert!(!backoff_fits(1000, 0, 0));
    assert!(backoff_fits(1000, 1, 0));
    assert!(backoff_fits(1, 64, 0));
    assert!(!backoff_fits(1, 65, 0));
    assert!(!backoff_fits(2, 64, 0));
    assert!(backoff_fits(0, 64, u64::MAX));
    assert!(backoff_fits(u64::MAX - 999, 1, 999));
    assert!(!backoff_fits(u64::MAX - 998, 1, 999));
}
