use tor_downloader_rs::crawler::{
    count_result_types, determine_result_type, html_content_of, must_wait_for_slot,
    should_parse_links, CrawlLoop, LoopStep, MAX_EMPTY_ROUNDS,
};
use tor_downloader_rs::{CrawlState, DownloadResult, ParsedUrl, TorDownloaderError, UrlType};

fn page(url: &str, depth: usize) -> ParsedUrl {
    ParsedUrl { url: url.to_string(), url_type: UrlType::Page, depth }
}

fn result(url: &str, ct: Option<&str>, success: bool) -> DownloadResult {
    DownloadResult {
        url: url.to_string(),
        content_type: ct.map(|s| s.to_string()),
        content_length: Some(10),
        success,
        error: if success { None } else { Some("failed".to_string()) },
    }
}

#[test]
fn start_queues_the_root_page() {
    let mut s = CrawlState::default();
    s.start("http://example.onion");
    assert_eq!(s.total_found, 1);
    assert_eq!(s.pending_urls.len(), 1);
    assert_eq!(s.pending_urls[0].url, "http://example.onion");
    assert_eq!(s.pending_urls[0].depth, 0);
    assert_eq!(s.pending_urls[0].url_type, UrlType::Page);
}

#[test]
fn next_batch_filters_and_limits() {
    let mut s = CrawlState::default();
    s.start("http://e.onion/");
    s.queue_new_urls(vec![
        page("http://e.onion/a", 1),
        page("http://e.onion/b", 1),
        page("http://e.onion/deep", 9),
        page("http://e.onion/c", 1),
    ]);
    s.mark_visited("http://e.onion/a");
    let batch = s.next_batch(4, 3);
    let urls: Vec<&str> = batch.iter().map(|p| p.url.as_str()).collect();
    assert_eq!(urls, vec!["http://e.onion/", "http://e.onion/b"]);
    assert_eq!(s.pending_urls.len(), 1);
    assert_eq!(s.pending_urls[0].url, "http://e.onion/c");

    let batch = s.next_batch(4, 3);
    assert_eq!(batch.len(), 1);
    assert!(s.pending_urls.is_empty());
    assert!(s.next_batch(4, 3).is_empty());
}

#[test]
fn depth_zero_means_unlimited() {
    let mut s = CrawlState::default();
    s.queue_new_urls(vec![page("http://e.onion/deep", 100)]);
    assert_eq!(s.next_batch(1, 0).len(), 1);
}

#[test]
fn queue_skips_known_urls() {
    let mut s = CrawlState::default();
    s.start("http://e.onion/");
    s.mark_visited("http://e.onion/v");
    s.record_result(result("http://e.onion/f", None, false));
    let added = s.queue_new_urls(vec![
        page("http://e.onion/", 1),
        page("http://e.onion/v", 1),
        page("http://e.onion/f", 1),
        page("http://e.onion/n", 1),
        page("http://e.onion/n", 2),
    ]);
    assert_eq!(added, 1);
    assert_eq!(s.total_found, 2);
    assert_eq!(s.pending_urls.len(), 2);
    assert_eq!(s.pending_urls[1].url, "http://e.onion/n");
    assert_eq!(s.pending_urls[1].depth, 1);
    let again = s.queue_new_urls(vec![page("http://e.onion/n", 1)]);
    assert_eq!(again, 0);
    assert_eq!(s.total_found, 2);
}

#[test]
fn results_and_failures() {
    let mut s = CrawlState::default();
    s.record_result(result("http://e.onion/ok", Some("text/html"), true));
    s.record_result(result("http://e.onion/bad", None, false));
    s.record_result(result("http://e.onion/bad", None, false));
    assert_eq!(s.total_processed, 3);
    assert_eq!(s.download_results.len(), 3);
    assert_eq!(s.failed_urls, vec!["http://e.onion/bad".to_string()]);
    s.mark_visited("http://e.onion/ok");
    s.mark_visited("http://e.onion/ok");
    assert_eq!(s.visited_urls.len(), 1);
}

#[test]
fn links_are_parsed_only_from_html_pages() {
    let p = page("http://e.onion/", 0);
    assert!(should_parse_links(&p, &result("http://e.onion/", Some("text/html; charset=utf-8"), true)));
    assert!(!should_parse_links(&p, &result("http://e.onion/", Some("text/plain"), true)));
    assert!(!should_parse_links(&p, &result("http://e.onion/", None, true)));
    assert!(!should_parse_links(&p, &result("http://e.onion/", Some("text/html"), false)));
    let asset = ParsedUrl { url: "http://e.onion/a.css".to_string(), url_type: UrlType::Asset, depth: 1 };
    assert!(!should_parse_links(&asset, &result("http://e.onion/a.css", Some("text/html"), true)));
}

#[test]
fn result_categories() {
    let cases = [
        ("http://e.onion/", Some("text/html"), "HTML Pages"),
        ("http://e.onion/x", Some("image/png"), "Images"),
        ("http://e.onion/x", Some("text/css"), "CSS Files"),
        ("http://e.onion/x", Some("text/javascript"), "JavaScript Files"),
        ("http://e.onion/x", Some("application/pdf"), "PDF Documents"),
        ("http://e.onion/A.JPG", Some("application/octet-stream"), "Images"),
        ("http://e.onion/b.tar", None, "Archives"),
        ("http://e.onion/c.js", None, "JavaScript Files"),
        ("http://e.onion/d.bin", None, "Other Files"),
    ];
    for (url, ct, cat) in cases.iter() {
        assert_eq!(determine_result_type(&result(url, *ct, true)), *cat, "{}", url);
    }
}

#[test]
fn counting_result_types() {
    let results = vec![
        result("http://e.onion/", Some("text/html"), true),
        result("http://e.onion/a.png", None, true),
        result("http://e.onion/b", Some("text/html"), true),
        result("http://e.onion/c.png", None, false),
    ];
    let counts = count_result_types(&results).unwrap();
    assert_eq!(counts, vec![("HTML Pages".to_string(), 2), ("Images".to_string(), 1)]);

    let bad = vec![result("not a url", None, true)];
    assert!(count_result_types(&bad).is_none());
    let bad_but_failed = vec![result("not a url", None, false)];
    assert_eq!(count_result_types(&bad_but_failed).unwrap(), vec![]);
}

#[test]
fn html_content_errors() {
    let ok = result("http://e.onion/", Some("text/html"), true);
    assert_eq!(html_content_of(&ok, Some(b"<html>".to_vec())).unwrap(), b"<html>".to_vec());
    match html_content_of(&ok, None) {
        Err(TorDownloaderError::Connection(m)) => assert_eq!(m, "No content received"),
        other => panic!("unexpected {:?}", other),
    }
    let failed = result("http://e.onion/", None, false);
    match html_content_of(&failed, Some(vec![1])) {
        Err(TorDownloaderError::Connection(m)) => {
            assert_eq!(m, "Failed to download HTML content for parsing")
        },
        other => panic!("unexpected {:?}", other),
    }
}

#[test]
fn crawl_loop_stops_after_empty_rounds() {
    let mut l = CrawlLoop::new();
    assert!(l.running());
    assert_eq!(l.after_batch(3, 0), LoopStep::ProcessBatch);
    assert_eq!(l.empty_rounds, 0);
    assert_eq!(l.after_batch(0, 2), LoopStep::WaitForTask);
    assert_eq!(l.after_batch(0, 0), LoopStep::Stop);
    assert_eq!(l.empty_rounds, 2);
    assert_eq!(l.after_batch(1, 0), LoopStep::ProcessBatch);
    assert_eq!(l.empty_rounds, 0);
    for _ in 0..MAX_EMPTY_ROUNDS {
        assert!(l.running());
        l.after_batch(0, 1);
    }
    assert!(!l.running());
}

#[test]
fn slot_waiting() {
    assert!(must_wait_for_slot(8, 8));
    assert!(must_wait_for_slot(9, 8));
    assert!(!must_wait_for_slot(7, 8));
}
