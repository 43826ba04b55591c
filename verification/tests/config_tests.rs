use tor_downloader_rs::config::{socks_proxy_url, CliValues};
use tor_downloader_rs::errors::IntErrorKind;
use tor_downloader_rs::{Config, TorDownloaderError};

fn onion_config() -> Config {
    let mut c = Config::default();
    c.url = "http://example.onion".to_string();
    c
}

fn invalid_config_message(c: &Config) -> String {
    match c.validate() {
        Err(TorDownloaderError::InvalidConfiguration(m)) => m,
        other => panic!("expected an invalid configuration, got {:?}", other),
    }
}

fn invalid_url_message(c: &Config) -> String {
    match c.validate() {
        Err(TorDownloaderError::InvalidUrl(m)) => m,
        other => panic!("expected an invalid URL, got {:?}", other),
    }
}

#[test]
fn default_config_values() {
    let c = Config::default();
    assert_eq!(c.url, "http://kxlpsf4uua2k36quvcob3mjlguurbc3rhjkwt7thoyi52o7y6tf2wrad.onion");
    assert_eq!(c.output_dir, "./downloaded_site");
    assert_eq!(c.max_depth, 5);
    assert_eq!(c.max_concurrent, 8);
    assert_eq!(c.delay_ms, 1000);
    assert_eq!(c.max_retries, 3);
    assert_eq!(c.timeout_sec, 30);
    assert_eq!(c.proxy, "127.0.0.1:9050");
    assert!(c.include_patterns.is_empty());
    assert!(c.exclude_patterns.is_empty());
    assert!(!c.quiet && !c.verbose && !c.continue_download && !c.dry_run && !c.monitor);
    assert!(c.validate().is_ok());
}

#[test]
fn validate_url_errors() {
    let mut c = onion_config();
    c.url = "invalid-url".to_string();
    match c.validate() {
        Err(TorDownloaderError::UrlParse(e)) => assert_eq!(e.text, "relative URL without a base"),
        other => panic!("expected a URL parse error, got {:?}", other),
    }
    c.url = "ftp://example.onion".to_string();
    assert_eq!(invalid_url_message(&c), "URL must use http or https scheme");
    c.url = "http://example.com".to_string();
    assert_eq!(invalid_url_message(&c), "URL must be a .onion address");
}

#[test]
fn validate_limit_errors() {
    let mut c = onion_config();
    c.max_concurrent = 0;
    assert_eq!(invalid_config_message(&c), "max_concurrent must be greater than 0");
    c.max_concurrent = 51;
    assert_eq!(
        invalid_config_message(&c),
        "max_concurrent should not exceed 50 to avoid overwhelming the server"
    );
    c.max_concurrent = 50;
    assert!(c.validate().is_ok());
    c.delay_ms = 60001;
    assert_eq!(invalid_config_message(&c), "delay_ms should not exceed 60000ms (1 minute)");
    c.delay_ms = 60000;
    c.timeout_sec = 301;
    assert_eq!(invalid_config_message(&c), "timeout_sec should not exceed 300s (5 minutes)");
    c.timeout_sec = 300;
    c.proxy = "localhost".to_string();
    assert_eq!(invalid_config_message(&c), "proxy must be in format 'host:port'");
    c.proxy = "localhost:9150".to_string();
    assert!(c.validate().is_ok());
}

#[test]
fn validate_reports_the_first_problem() {
    let mut c = onion_config();
    c.url = "http://example.com".to_string();
    c.max_concurrent = 0;
    assert_eq!(invalid_url_message(&c), "URL must be a .onion address");
}

#[test]
fn error_messages() {
    let mut c = onion_config();
    c.max_concurrent = 0;
    let e = c.validate().unwrap_err();
    assert_eq!(e.message(), "Invalid configuration: max_concurrent must be greater than 0");
    c = onion_config();
    c.url = "http://example.com".to_string();
    assert_eq!(c.validate().unwrap_err().message(), "Invalid URL: URL must be a .onion address");
}

#[test]
fn url_filtering_by_patterns() {
    let mut c = onion_config();
    assert!(c.should_download_url("http://example.onion/anything"));
    c.include_patterns = vec![r"\.pdf$".to_string()];
    assert!(c.should_download_url("http://example.onion/a.pdf"));
    assert!(!c.should_download_url("http://example.onion/a.html"));
    c.exclude_patterns = vec!["secret".to_string()];
    assert!(!c.should_download_url("http://example.onion/secret.pdf"));
    c.include_patterns.clear();
    assert!(c.should_download_url("http://example.onion/a.html"));
    assert!(!c.should_download_url("http://example.onion/secret/a.html"));
    c.include_patterns = vec!["(".to_string()];
    assert!(!c.should_download_url("http://example.onion/a.html"));
    c.include_patterns.clear();
    c.exclude_patterns = vec!["(".to_string()];
    assert!(c.should_download_url("http://example.onion/a.html"));
}

#[test]
fn output_paths() {
    let mut c = onion_config();
    c.output_dir = "/nonexistent_base_dir_for_tests".to_string();
    assert_eq!(
        c.get_output_path("http://abc.onion/dir/file.html").unwrap(),
        "/nonexistent_base_dir_for_tests/abc.onion/dir/file.html"
    );
    assert_eq!(
        c.get_output_path("http://abc.onion/").unwrap(),
        "/nonexistent_base_dir_for_tests/abc.onion/index.html"
    );
    assert_eq!(
        c.get_output_path("http://abc.onion").unwrap(),
        "/nonexistent_base_dir_for_tests/abc.onion/index.html"
    );
    assert_eq!(
        c.get_output_path("http://abc.onion/docs/").unwrap(),
        "/nonexistent_base_dir_for_tests/abc.onion/docs/index.html"
    );
    assert_eq!(
        c.get_output_path("http://abc.onion/a b//c").unwrap(),
        "/nonexistent_base_dir_for_tests/abc.onion/a_20b/c/index.html"
    );
    assert!(matches!(c.get_output_path("not a url"), Err(TorDownloaderError::UrlParse(_))));
}

fn cli(depth: &str) -> CliValues {
    CliValues {
        url: Some("http://example.onion".to_string()),
        output: "./out".to_string(),
        depth: depth.to_string(),
        jobs: "4".to_string(),
        delay: "250".to_string(),
        retries: "2".to_string(),
        timeout: "60".to_string(),
        proxy: "127.0.0.1:9150".to_string(),
        user_agent: "TestAgent".to_string(),
        include_patterns: vec!["a".to_string()],
        exclude_patterns: vec![],
        quiet: true,
        verbose: false,
        continue_download: true,
        dry_run: false,
        monitor: true,
    }
}

#[test]
fn config_from_command_line() {
    let c = Config::from_cli(cli("7")).unwrap();
    assert_eq!(c.url, "http://example.onion");
    assert_eq!(c.output_dir, "./out");
    assert_eq!(c.max_depth, 7);
    assert_eq!(c.max_concurrent, 4);
    assert_eq!(c.delay_ms, 250);
    assert_eq!(c.max_retries, 2);
    assert_eq!(c.timeout_sec, 60);
    assert_eq!(c.proxy, "127.0.0.1:9150");
    assert_eq!(c.user_agent, "TestAgent");
    assert_eq!(c.include_patterns, vec!["a".to_string()]);
    assert!(c.quiet && c.continue_download && c.monitor && !c.verbose && !c.dry_run);

    let mut v = cli("+3");
    v.url = None;
    let d = Config::from_cli(v).unwrap();
    assert_eq!(d.max_depth, 3);
    assert_eq!(d.url, Config::default().url);
}

#[test]
fn command_line_number_errors() {
    let kinds = [("", IntErrorKind::Empty), ("x1", IntErrorKind::InvalidDigit), ("-1", IntErrorKind::InvalidDigit)];
    for (text, kind) in kinds.iter() {
        match Config::from_cli(cli(text)) {
            Err(TorDownloaderError::ParseInt(k)) => assert_eq!(k, *kind),
            other => panic!("expected a number error, got {:?}", other),
        }
        assert!(text.parse::<usize>().is_err());
    }
    let mut v = cli("1");
    v.delay = "18446744073709551616".to_string();
    match Config::from_cli(v) {
        Err(TorDownloaderError::ParseInt(k)) => assert_eq!(k, IntErrorKind::PosOverflow),
        other => panic!("expected an overflow, got {:?}", other),
    }
}

#[test]
fn proxy_url() {
    assert_eq!(socks_proxy_url("127.0.0.1:9050"), "socks5h://127.0.0.1:9050");
}
