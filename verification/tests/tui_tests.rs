use tor_downloader_rs::tui::{
    crawl_progress, display_value, field_at_exec, field_label, AppState, ConfigField, InputMode, Key, TuiAction, TuiModel,
};
use tor_downloader_rs::{CrawlState, DownloadResult};

fn configured() -> TuiModel {
    let mut m = TuiModel::new();
    m.tor_check_result(9050, true);
    m
}

fn type_text(m: &mut TuiModel, text: &str) {
    for c in text.chars() {
        m.handle_key(Key::Char(c));
    }
}

#[test]
fn starts_checking_tor() {
    let m = TuiModel::new();
    assert!(matches!(m.state, AppState::TorChecking));
    assert_eq!(m.selected, Some(0));
    assert_eq!(m.input_mode, InputMode::Normal);
    assert!(m.messages.is_empty());
    assert_eq!(m.tor_status.port, 9050);
    assert_eq!(m.proxy_port(), 9050);
}

#[test]
fn tor_check_outcomes() {
    let mut m = TuiModel::new();
    m.start_tor_check();
    assert!(m.tor_status.checking);
    assert!(!m.tor_check_result(9150, true));
    assert!(matches!(m.state, AppState::Configuration));
    assert_eq!(m.messages.last().unwrap(), "✅ Tor is running on port 9150");

    let mut m = TuiModel::new();
    assert!(m.tor_check_result(9050, false));
    assert!(matches!(m.state, AppState::TorStarting));
    assert!(m.tor_status.starting);
    assert_eq!(m.messages[0], "❌ Tor not running on port 9050");
    assert_eq!(m.messages[1], "🚀 Attempting to start Tor...");

    m.tor_start_result(false, 3);
    assert_eq!(m.messages.len(), 2);
    m.tor_start_result(false, 6);
    assert_eq!(m.messages.last().unwrap(), "⏳ Waiting for Tor to start...");
    m.tor_start_result(true, 7);
    assert!(matches!(m.state, AppState::Configuration));
    assert_eq!(m.messages.last().unwrap(), "✅ Tor started successfully on port 9050");
}

#[test]
fn tor_spawn_failure_is_an_error_state() {
    let mut m = TuiModel::new();
    m.tor_check_result(9050, false);
    m.tor_service_spawned(Some("not found"));
    match &m.state {
        AppState::Error(e) => assert_eq!(e, "Tor startup failed: not found"),
        other => panic!("unexpected state {:?}", other),
    }
    assert_eq!(m.tor_status.error, Some("Failed to start Tor: not found".to_string()));
    assert_eq!(m.handle_key(Key::Char('t')), TuiAction::RecheckTor);
    assert!(matches!(m.state, AppState::TorChecking));
    assert!(m.tor_status.checking);
    assert_eq!(m.tor_status.error, None);
}

#[test]
fn proxy_port_parsing() {
    let mut m = TuiModel::new();
    m.config.proxy = "127.0.0.1:9150".to_string();
    assert_eq!(m.proxy_port(), 9150);
    m.config.proxy = "127.0.0.1:notaport".to_string();
    assert_eq!(m.proxy_port(), 9050);
    m.config.proxy = "localhost".to_string();
    assert_eq!(m.proxy_port(), 9050);
    m.config.proxy = "h:70000".to_string();
    assert_eq!(m.proxy_port(), 9050);
}

#[test]
fn navigation_wraps() {
    let mut m = configured();
    m.handle_key(Key::Up);
    assert_eq!(m.selected, Some(10));
    m.handle_key(Key::Down);
    assert_eq!(m.selected, Some(0));
    m.selected = None;
    m.next_config_item();
    assert_eq!(m.selected, Some(0));
    assert_eq!(field_at_exec(10), ConfigField::ExcludePattern);
}

#[test]
fn editing_a_number() {
    let mut m = configured();
    m.handle_key(Key::Char('3'));
    assert_eq!(m.input_mode, InputMode::Editing);
    assert_eq!(m.editing_field, Some(ConfigField::MaxDepth));
    assert_eq!(m.current_input, "5");
    m.handle_key(Key::Backspace);
    type_text(&mut m, "12");
    m.handle_key(Key::Enter);
    assert_eq!(m.config.max_depth, 12);
    assert_eq!(m.input_mode, InputMode::Normal);
    assert_eq!(m.current_input, "");

    m.handle_key(Key::Char('3'));
    m.handle_key(Key::Backspace);
    m.handle_key(Key::Backspace);
    type_text(&mut m, "abc");
    m.handle_key(Key::Enter);
    assert_eq!(m.config.max_depth, 12);
}

#[test]
fn escape_keeps_the_configuration() {
    let mut m = configured();
    m.handle_key(Key::Char('1'));
    type_text(&mut m, "changed");
    m.handle_key(Key::Esc);
    assert_eq!(m.config.url, "http://kxlpsf4uua2k36quvcob3mjlguurbc3rhjkwt7thoyi52o7y6tf2wrad.onion");
    assert_eq!(m.input_mode, InputMode::Normal);
    assert_eq!(m.editing_field, None);
}

#[test]
fn editing_patterns() {
    let mut m = configured();
    m.selected = Some(9);
    m.handle_key(Key::Enter);
    assert_eq!(m.editing_field, Some(ConfigField::IncludePattern));
    assert_eq!(m.current_input, "");
    type_text(&mut m, " a , ,b,");
    m.handle_key(Key::Enter);
    assert_eq!(m.config.include_patterns, vec!["a".to_string(), "b".to_string()]);
    assert_eq!(m.get_field_value(ConfigField::IncludePattern), "a, b");
    assert_eq!(m.get_field_value(ConfigField::DelayMs), "1000");
}

#[test]
fn help_and_quit() {
    let mut m = configured();
    assert_eq!(m.handle_key(Key::Char('h')), TuiAction::Nothing);
    assert!(m.show_help);
    m.handle_key(Key::F(1));
    assert!(!m.show_help);
    m.handle_key(Key::Char('h'));
    m.handle_key(Key::Esc);
    assert!(!m.show_help);
    assert_eq!(m.handle_key(Key::Char('q')), TuiAction::Quit);
}

#[test]
fn start_download_checks_the_configuration() {
    let mut m = configured();
    m.config.max_concurrent = 0;
    assert_eq!(m.handle_key(Key::Char('s')), TuiAction::Nothing);
    assert_eq!(
        m.messages.last().unwrap(),
        "❌ Configuration error: Invalid configuration: max_concurrent must be greater than 0"
    );
    m.config.url = String::new();
    assert_eq!(m.start_download(), TuiAction::Nothing);
    assert_eq!(m.messages.last().unwrap(), "❌ Error: URL is required");

    m.handle_key(Key::Char('r'));
    assert_eq!(m.messages.last().unwrap(), "Configuration reset to defaults");
    assert_eq!(m.config.max_concurrent, 8);
    assert_eq!(m.handle_key(Key::Char('s')), TuiAction::LaunchCrawler);
    assert!(matches!(m.state, AppState::Downloading));
    assert_eq!(m.messages.last().unwrap(), "🚀 Starting download...");
}

#[test]
fn pause_resume_and_confirmed_quit() {
    let mut m = configured();
    m.handle_key(Key::Char('s'));
    m.handle_key(Key::Char('p'));
    assert!(matches!(m.state, AppState::Paused));
    assert_eq!(m.messages.last().unwrap(), "Download paused");
    m.handle_key(Key::Char('p'));
    assert!(matches!(m.state, AppState::Downloading));
    assert_eq!(m.messages.last().unwrap(), "Download resumed");

    assert_eq!(m.handle_key(Key::Char('q')), TuiAction::Nothing);
    assert_eq!(m.input_mode, InputMode::Confirm);
    assert!(m.show_confirm);
    assert_eq!(m.confirm_message, "Stop download and quit? (y/n)");
    assert_eq!(m.handle_key(Key::Char('x')), TuiAction::Nothing);
    assert_eq!(m.input_mode, InputMode::Confirm);
    assert_eq!(m.handle_key(Key::Char('n')), TuiAction::Nothing);
    assert_eq!(m.input_mode, InputMode::Normal);
    m.handle_key(Key::Char('q'));
    assert_eq!(m.handle_key(Key::Char('Y')), TuiAction::Quit);
}

#[test]
fn crawler_events() {
    let mut m = configured();
    m.crawler_started();
    assert_eq!(m.messages.last().unwrap(), &format!("📍 Crawling: {}", m.config.url));
    m.crawler_failed("boom");
    match &m.state {
        AppState::Error(e) => assert_eq!(e, "Failed to initialize crawler: boom"),
        other => panic!("unexpected state {:?}", other),
    }
    assert_eq!(m.messages.last().unwrap(), "❌ Crawler error: boom");
    m.download_finished();
    assert!(matches!(m.state, AppState::Completed));
    assert_eq!(m.messages.last().unwrap(), "🎉 Download completed!");
}

#[test]
fn progress_of_a_crawl() {
    let mut s = CrawlState::default();
    let p = crawl_progress(&s);
    assert_eq!(p.current_url, None);
    s.start("http://e.onion/");
    for (u, ok) in [("http://e.onion/a", true), ("http://e.onion/b", false), ("http://e.onion/c", true)] {
        s.record_result(DownloadResult {
            url: u.to_string(),
            content_type: None,
            content_length: None,
            success: ok,
            error: None,
        });
    }
    let p = crawl_progress(&s);
    assert_eq!(p.total_found, 1);
    assert_eq!(p.total_processed, 3);
    assert_eq!(p.successful, 2);
    assert_eq!(p.failed, 1);
    assert_eq!(p.current_url, Some("http://e.onion/".to_string()));
}

#[test]
fn configuration_screen_text() {
    assert_eq!(field_label(ConfigField::DelayMs), "Delay (ms)");
    assert_eq!(field_label(ConfigField::ExcludePattern), "Exclude Patterns");
    let forty = "x".repeat(40);
    assert_eq!(display_value(&forty), forty);
    let long = format!("{}{}", "a".repeat(37), "bcdefgh");
    assert_eq!(display_value(&long), format!("{}...", "a".repeat(37)));
    assert_eq!(display_value("short"), "short");
}
