//! The state of the interactive terminal interface and how keys and events
//! change it; drawing and the terminal itself are outside the library.
use vstd::prelude::*;
use vstd::string::StringSliceAdditionalSpecFns;
use crate::config::{config_problem, default_config, lemma_reported_message, problem_message, Config, ConfigView, string_views};
use crate::crawler::CrawlState;
use crate::errors::error_message;
use crate::text::{
    chars_of, decimal, is_digit, digit_value, join, join_strings, owned, parse_unsigned,
    parse_unsigned_exec, push_char, push_decimal, push_str, split_on, split_string,
    string_from_range, trim, trim_string, decimal_string, is_space,
};

verus! {

/// Which screen the interface shows.
#[derive(Clone, Debug)]
pub enum AppState {
    TorChecking,
    TorStarting,
    Configuration,
    Downloading,
    Paused,
    Completed,
    Error(String),
}

pub enum AppStateView {
    TorChecking,
    TorStarting,
    Configuration,
    Downloading,
    Paused,
    Completed,
    Error(Seq<char>),
}

impl View for AppState {
    type V = AppStateView;

    open spec fn view(&self) -> AppStateView {
        match self {
            AppState::TorChecking => AppStateView::TorChecking,
            AppState::TorStarting => AppStateView::TorStarting,
            AppState::Configuration => AppStateView::Configuration,
            AppState::Downloading => AppStateView::Downloading,
            AppState::Paused => AppStateView::Paused,
            AppState::Completed => AppStateView::Completed,
            AppState::Error(s) => AppStateView::Error(s@),
        }
    }
}

/// What keys do: navigate, edit a value, or answer a question.
#[derive(Clone, Copy, Debug, PartialEq, Eq, Structural)]
pub enum InputMode {
    Normal,
    Editing,
    Confirm,
}

/// The settings that the configuration screen lists, in order.
#[derive(Clone, Copy, Debug, PartialEq, Eq, Structural)]
pub enum ConfigField {
    Url,
    OutputDir,
    MaxDepth,
    MaxConcurrent,
    DelayMs,
    MaxRetries,
    TimeoutSec,
    Proxy,
    UserAgent,
    IncludePattern,
    ExcludePattern,
}

/// A key press.
#[derive(Clone, Copy, Debug, PartialEq, Eq, Structural)]
pub enum Key {
    Char(char),
    F(u8),
    Up,
    Down,
    Enter,
    Esc,
    Backspace,
    Other,
}

/// What the interface asks its runner to do after a key or an event.
#[derive(Clone, Copy, Debug, PartialEq, Eq, Structural)]
pub enum TuiAction {
    Nothing,
    /// Leave the interface.
    Quit,
    /// Create the crawler for the configuration and start it.
    LaunchCrawler,
    /// A Tor check started: restart its timer.
    RecheckTor,
}

/// What is known of the Tor service.
#[derive(Clone, Debug)]
pub struct TorStatus {
    pub is_running: bool,
    pub port: u16,
    pub checking: bool,
    pub starting: bool,
    pub error: Option<String>,
}

pub struct TorView {
    pub is_running: bool,
    pub port: u16,
    pub checking: bool,
    pub starting: bool,
    pub error: Option<Seq<char>>,
}

impl View for TorStatus {
    type V = TorView;

    open spec fn view(&self) -> TorView {
        TorView {
            is_running: self.is_running,
            port: self.port,
            checking: self.checking,
            starting: self.starting,
            error: crate::urls::opt_view(self.error),
        }
    }
}

pub open spec fn default_tor() -> TorView {
    TorView { is_running: false, port: 9050, checking: false, starting: false, error: None }
}

impl Default for TorStatus {
    fn default() -> (t: Self)
        ensures
            t@ == default_tor(),
    {
        TorStatus { is_running: false, port: 9050, checking: false, starting: false, error: None }
    }
}

/// The state of the interface.
#[derive(Debug)]
pub struct TuiModel {
    pub config: Config,
    pub state: AppState,
    pub selected: Option<usize>,
    pub input_mode: InputMode,
    pub current_input: String,
    pub editing_field: Option<ConfigField>,
    pub messages: Vec<String>,
    pub show_help: bool,
    pub show_confirm: bool,
    pub confirm_message: String,
    pub tor_status: TorStatus,
}

pub struct TuiView {
    pub config: ConfigView,
    pub state: AppStateView,
    pub selected: Option<usize>,
    pub input_mode: InputMode,
    pub current_input: Seq<char>,
    pub editing_field: Option<ConfigField>,
    pub messages: Seq<Seq<char>>,
    pub show_help: bool,
    pub show_confirm: bool,
    pub confirm_message: Seq<char>,
    pub tor: TorView,
}

impl View for TuiModel {
    type V = TuiView;

    open spec fn view(&self) -> TuiView {
        TuiView {
            config: self.config@,
            state: self.state@,
            selected: self.selected,
            input_mode: self.input_mode,
            current_input: self.current_input@,
            editing_field: self.editing_field,
            messages: string_views(self.messages@),
            show_help: self.show_help,
            show_confirm: self.show_confirm,
            confirm_message: self.confirm_message@,
            tor: self.tor_status@,
        }
    }
}

/// The number of settings on the configuration screen.
pub open spec fn field_count() -> nat {
    11
}

/// The setting at position `i` of the configuration screen.
pub open spec fn field_at(i: nat) -> ConfigField {
    if i == 0 {
        ConfigField::Url
    } else if i == 1 {
        ConfigField::OutputDir
    } else if i == 2 {
        ConfigField::MaxDepth
    } else if i == 3 {
        ConfigField::MaxConcurrent
    } else if i == 4 {
        ConfigField::DelayMs
    } else if i == 5 {
        ConfigField::MaxRetries
    } else if i == 6 {
        ConfigField::TimeoutSec
    } else if i == 7 {
        ConfigField::Proxy
    } else if i == 8 {
        ConfigField::UserAgent
    } else if i == 9 {
        ConfigField::IncludePattern
    } else {
        ConfigField::ExcludePattern
    }
}

pub fn field_at_exec(i: usize) -> (f: ConfigField)
    requires
        i < 11,
    ensures
        f == field_at(i as nat),
{
    if i == 0 {
        ConfigField::Url
    } else if i == 1 {
        ConfigField::OutputDir
    } else if i == 2 {
        ConfigField::MaxDepth
    } else if i == 3 {
        ConfigField::MaxConcurrent
    } else if i == 4 {
        ConfigField::DelayMs
    } else if i == 5 {
        ConfigField::MaxRetries
    } else if i == 6 {
        ConfigField::TimeoutSec
    } else if i == 7 {
        ConfigField::Proxy
    } else if i == 8 {
        ConfigField::UserAgent
    } else if i == 9 {
        ConfigField::IncludePattern
    } else {
        ConfigField::ExcludePattern
    }
}

/// The text that the configuration screen shows for a setting.
pub open spec fn field_value(c: ConfigView, f: ConfigField) -> Seq<char> {
    match f {
        ConfigField::Url => c.url,
        ConfigField::OutputDir => c.output_dir,
        ConfigField::MaxDepth => decimal(c.max_depth as nat),
        ConfigField::MaxConcurrent => decimal(c.max_concurrent as nat),
        ConfigField::DelayMs => decimal(c.delay_ms as nat),
        ConfigField::MaxRetries => decimal(c.max_retries as nat),
        ConfigField::TimeoutSec => decimal(c.timeout_sec as nat),
        ConfigField::Proxy => c.proxy,
        ConfigField::UserAgent => c.user_agent,
        ConfigField::IncludePattern => join(c.include_patterns, ", "@),
        ConfigField::ExcludePattern => join(c.exclude_patterns, ", "@),
    }
}

/// The trimmed pieces that are not empty, in order.
pub open spec fn nonblank(pieces: Seq<Seq<char>>) -> Seq<Seq<char>>
    decreases pieces.len(),
{
    if pieces.len() == 0 {
        seq![]
    } else {
        let prev = nonblank(pieces.drop_last());
        if trim(pieces.last()).len() > 0 {
            prev.push(trim(pieces.last()))
        } else {
            prev
        }
    }
}

/// The patterns that a comma-separated input gives.
pub open spec fn pattern_list(input: Seq<char>) -> Seq<Seq<char>> {
    nonblank(split_on(input, ','))
}

/// The configuration after the edited text is saved into setting `f`: text
/// settings take it as it is, numbers only when it parses, pattern lists are
/// split at commas.
pub open spec fn save_spec(c: ConfigView, f: Option<ConfigField>, input: Seq<char>) -> ConfigView {
    match f {
        None => c,
        Some(field) => match field {
            ConfigField::Url => ConfigView { url: input, ..c },
            ConfigField::OutputDir => ConfigView { output_dir: input, ..c },
            ConfigField::MaxDepth => match parse_unsigned(input, usize::MAX as nat) {
                Ok(v) => ConfigView { max_depth: v as usize, ..c },
                Err(_) => c,
            },
            ConfigField::MaxConcurrent => match parse_unsigned(input, usize::MAX as nat) {
                Ok(v) => ConfigView { max_concurrent: v as usize, ..c },
                Err(_) => c,
            },
            ConfigField::DelayMs => match parse_unsigned(input, u64::MAX as nat) {
                Ok(v) => ConfigView { delay_ms: v as u64, ..c },
                Err(_) => c,
            },
            ConfigField::MaxRetries => match parse_unsigned(input, usize::MAX as nat) {
                Ok(v) => ConfigView { max_retries: v as usize, ..c },
                Err(_) => c,
            },
            ConfigField::TimeoutSec => match parse_unsigned(input, u64::MAX as nat) {
                Ok(v) => ConfigView { timeout_sec: v as u64, ..c },
                Err(_) => c,
            },
            ConfigField::Proxy => ConfigView { proxy: input, ..c },
            ConfigField::UserAgent => ConfigView { user_agent: input, ..c },
            ConfigField::IncludePattern => ConfigView { include_patterns: pattern_list(input), ..c },
            ConfigField::ExcludePattern => ConfigView { exclude_patterns: pattern_list(input), ..c },
        },
    }
}

pub open spec fn with_message(m: TuiView, msg: Seq<char>) -> TuiView {
    TuiView { messages: m.messages.push(msg), ..m }
}

pub open spec fn select_previous(s: Option<usize>) -> Option<usize> {
    match s {
        Some(i) => Some(
            if i == 0 {
                10usize
            } else {
                (i - 1) as usize
            },
        ),
        None => Some(0usize),
    }
}

pub open spec fn select_next(s: Option<usize>) -> Option<usize> {
    match s {
        Some(i) => Some(
            if i >= 10 {
                0usize
            } else {
                (i + 1) as usize
            },
        ),
        None => Some(0usize),
    }
}

/// Starts editing the selected setting with its current text.
pub open spec fn start_editing_spec(m: TuiView) -> TuiView {
    match m.selected {
        Some(i) => if i < 11 {
            TuiView {
                editing_field: Some(field_at(i as nat)),
                current_input: field_value(m.config, field_at(i as nat)),
                input_mode: InputMode::Editing,
                ..m
            }
        } else {
            m
        },
        None => m,
    }
}

/// A new check of Tor: the status starts over and the check begins.
pub open spec fn recheck_spec(m: TuiView) -> TuiView {
    with_message(
        TuiView {
            tor: TorView { checking: true, ..default_tor() },
            state: AppStateView::TorChecking,
            ..m
        },
        "🔍 Checking Tor connection..."@,
    )
}

/// Checking the configuration before a download: the URL must be given and
/// the configuration valid; then the download starts.
pub open spec fn begin_download_spec(m: TuiView) -> (TuiView, TuiAction) {
    let m1 = with_message(m, "🔍 Checking download configuration..."@);
    if m.config.url.len() == 0 {
        (with_message(m1, "❌ Error: URL is required"@), TuiAction::Nothing)
    } else {
        let m2 = with_message(m1, "📝 Target URL: "@ + m.config.url);
        match config_problem(m.config) {
            Some(p) => (
                with_message(m2, "❌ Configuration error: "@ + problem_message(p)),
                TuiAction::Nothing,
            ),
            None => (
                with_message(
                    TuiView {
                        state: AppStateView::Downloading,
                        ..with_message(m2, "✅ Configuration validated successfully"@)
                    },
                    "🚀 Starting download..."@,
                ),
                TuiAction::LaunchCrawler,
            ),
        }
    }
}

/// What a key does in the normal mode.
pub open spec fn normal_input_spec(m: TuiView, key: Key) -> (TuiView, TuiAction) {
    let is_config = m.state is Configuration;
    match key {
        Key::Char('q') => if m.state is Downloading {
            (
                TuiView {
                    show_confirm: true,
                    confirm_message: "Stop download and quit? (y/n)"@,
                    input_mode: InputMode::Confirm,
                    ..m
                },
                TuiAction::Nothing,
            )
        } else {
            (m, TuiAction::Quit)
        },
        Key::Char('h') => (TuiView { show_help: !m.show_help, ..m }, TuiAction::Nothing),
        Key::F(1) => (TuiView { show_help: !m.show_help, ..m }, TuiAction::Nothing),
        Key::Char('r') => if is_config {
            (
                with_message(
                    TuiView { config: default_config(), ..m },
                    "Configuration reset to defaults"@,
                ),
                TuiAction::Nothing,
            )
        } else if m.state is Error {
            (recheck_spec(m), TuiAction::RecheckTor)
        } else {
            (m, TuiAction::Nothing)
        },
        Key::Char('s') => if is_config {
            begin_download_spec(m)
        } else {
            (m, TuiAction::Nothing)
        },
        Key::Char('p') => if m.state is Downloading {
            (
                with_message(TuiView { state: AppStateView::Paused, ..m }, "Download paused"@),
                TuiAction::Nothing,
            )
        } else if m.state is Paused {
            (
                with_message(TuiView { state: AppStateView::Downloading, ..m }, "Download resumed"@),
                TuiAction::Nothing,
            )
        } else {
            (m, TuiAction::Nothing)
        },
        Key::Char('t') => if is_config || m.state is Error {
            (recheck_spec(m), TuiAction::RecheckTor)
        } else {
            (m, TuiAction::Nothing)
        },
        Key::Up => if is_config {
            (TuiView { selected: select_previous(m.selected), ..m }, TuiAction::Nothing)
        } else {
            (m, TuiAction::Nothing)
        },
        Key::Down => if is_config {
            (TuiView { selected: select_next(m.selected), ..m }, TuiAction::Nothing)
        } else {
            (m, TuiAction::Nothing)
        },
        Key::Enter => if is_config {
            (start_editing_spec(m), TuiAction::Nothing)
        } else {
            (m, TuiAction::Nothing)
        },
        Key::Char(c) => if is_digit(c) && is_config && 0 < digit_value(c) <= 11 {
            (
                start_editing_spec(
                    TuiView { selected: Some((digit_value(c) - 1) as usize), ..m },
                ),
                TuiAction::Nothing,
            )
        } else {
            (m, TuiAction::Nothing)
        },
        Key::Esc => (TuiView { show_help: false, ..m }, TuiAction::Nothing),
        _ => (m, TuiAction::Nothing),
    }
}

/// What a key does while a setting is edited.
pub open spec fn editing_input_spec(m: TuiView, key: Key) -> TuiView {
    match key {
        Key::Enter => TuiView {
            config: save_spec(m.config, m.editing_field, m.current_input),
            input_mode: InputMode::Normal,
            editing_field: None,
            current_input: seq![],
            ..m
        },
        Key::Esc => TuiView {
            input_mode: InputMode::Normal,
            editing_field: None,
            current_input: seq![],
            ..m
        },
        Key::Char(c) => TuiView { current_input: m.current_input.push(c), ..m },
        Key::Backspace => if m.current_input.len() > 0 {
            TuiView { current_input: m.current_input.drop_last(), ..m }
        } else {
            m
        },
        _ => m,
    }
}

/// What a key does while a question waits for an answer.
pub open spec fn confirm_input_spec(m: TuiView, key: Key) -> (TuiView, TuiAction) {
    let closed = TuiView { show_confirm: false, input_mode: InputMode::Normal, ..m };
    match key {
        Key::Char('y') => (closed, TuiAction::Quit),
        Key::Char('Y') => (closed, TuiAction::Quit),
        Key::Char('n') => (closed, TuiAction::Nothing),
        Key::Char('N') => (closed, TuiAction::Nothing),
        Key::Esc => (closed, TuiAction::Nothing),
        _ => (m, TuiAction::Nothing),
    }
}

/// What a key press does in the current input mode.
pub open spec fn key_spec(m: TuiView, key: Key) -> (TuiView, TuiAction) {
    match m.input_mode {
        InputMode::Normal => normal_input_spec(m, key),
        InputMode::Editing => (editing_input_spec(m, key), TuiAction::Nothing),
        InputMode::Confirm => confirm_input_spec(m, key),
    }
}

/// The port in a "host:port" proxy setting, or 9050 when there is none that parses.
pub open spec fn proxy_port_spec(proxy: Seq<char>) -> u16 {
    let pieces = split_on(proxy, ':');
    if pieces.len() >= 2 {
        match parse_unsigned(pieces[1], 65535) {
            Ok(v) => v as u16,
            Err(_) => 9050,
        }
    } else {
        9050
    }
}

/// The state after a check found Tor running on `port` or not.
pub open spec fn tor_check_spec(m: TuiView, port: u16, running: bool) -> TuiView {
    if running {
        with_message(
            TuiView {
                tor: TorView { port: port, is_running: true, checking: false, ..m.tor },
                state: AppStateView::Configuration,
                ..m
            },
            "✅ Tor is running on port "@ + decimal(port as nat),
        )
    } else {
        with_message(
            with_message(
                TuiView {
                    tor: TorView { port: port, checking: false, starting: true, ..m.tor },
                    state: AppStateView::TorStarting,
                    ..m
                },
                "❌ Tor not running on port "@ + decimal(port as nat),
            ),
            "🚀 Attempting to start Tor..."@,
        )
    }
}

/// The state after trying to start the Tor service (`error` when that failed).
pub open spec fn tor_spawn_spec(m: TuiView, error: Option<Seq<char>>) -> TuiView {
    match error {
        None => with_message(m, "🔄 Tor service started in background..."@),
        Some(e) => with_message(
            with_message(
                TuiView {
                    tor: TorView { error: Some("Failed to start Tor: "@ + e), ..m.tor },
                    state: AppStateView::Error("Tor startup failed: "@ + e),
                    ..m
                },
                "❌ Failed to start Tor: "@ + e,
            ),
            "ℹ️ Please ensure Tor is installed and accessible"@,
        ),
    }
}

/// The state after a check while Tor starts, `elapsed_seconds` after the last one.
pub open spec fn tor_start_spec(m: TuiView, running: bool, elapsed_seconds: u64) -> TuiView {
    if running {
        with_message(
            TuiView {
                tor: TorView { is_running: true, starting: false, ..m.tor },
                state: AppStateView::Configuration,
                ..m
            },
            "✅ Tor started successfully on port "@ + decimal(m.tor.port as nat),
        )
    } else if elapsed_seconds > 0 && elapsed_seconds % 6 == 0 {
        with_message(m, "⏳ Waiting for Tor to start..."@)
    } else {
        m
    }
}

/// The progress of a crawl that the interface shows.
#[derive(Clone, Debug)]
pub struct CrawlProgress {
    pub total_found: usize,
    pub total_processed: usize,
    pub successful: usize,
    pub failed: usize,
    pub current_url: Option<String>,
}

/// The number of successful results.
pub open spec fn successes(results: Seq<crate::downloader::DownloadResult>) -> nat
    decreases results.len(),
{
    if results.len() == 0 {
        0
    } else {
        successes(results.drop_last()) + if results.last().success {
            1nat
        } else {
            0nat
        }
    }
}

proof fn lemma_successes_bound(results: Seq<crate::downloader::DownloadResult>)
    ensures
        successes(results) <= results.len(),
    decreases results.len(),
{
    if results.len() > 0 {
        lemma_successes_bound(results.drop_last());
    }
}

/// The count of successes is the number of results that succeeded.
pub proof fn lemma_successes_count(results: Seq<crate::downloader::DownloadResult>)
    ensures
        successes(results) == results.filter(|r: crate::downloader::DownloadResult| r.success).len(),
    decreases results.len(),
{
    reveal(Seq::filter);
    if results.len() > 0 {
        lemma_successes_count(results.drop_last());
    }
}

/// Reads the progress out of the crawl state.
pub fn crawl_progress(state: &CrawlState) -> (p: CrawlProgress)
    ensures
        p.total_found == state.total_found,
        p.total_processed == state.total_processed,
        p.successful == successes(state.download_results@),
        p.failed == state.failed_urls@.len(),
        match p.current_url {
            Some(u) => state.pending_urls@.len() > 0 && u@ == state.pending_urls@[0].url@,
            None => state.pending_urls@.len() == 0,
        },
{
    let mut successful: usize = 0;
    let mut i: usize = 0;
    while i < state.download_results.len()
        invariant
            i <= state.download_results@.len(),
            successful == successes(state.download_results@.take(i as int)),
        decreases state.download_results@.len() - i,
    {
        assert(state.download_results@.take(i + 1).drop_last() =~= state.download_results@.take(
            i as int,
        ));
        proof {
            lemma_successes_bound(state.download_results@.take(i as int));
        }
        if state.download_results[i].success {
            successful = successful + 1;
        }
        i = i + 1;
    }
    assert(state.download_results@.take(i as int) =~= state.download_results@);
    let current_url = if state.pending_urls.len() > 0 {
        Some(owned(state.pending_urls[0].url.as_str()))
    } else {
        None
    };
    CrawlProgress {
        total_found: state.total_found,
        total_processed: state.total_processed,
        successful,
        failed: state.failed_urls.len(),
        current_url,
    }
}

fn message_with_number(prefix: &str, n: u16) -> (r: String)
    ensures
        r@ == prefix@ + decimal(n as nat),
{
    let mut r = owned(prefix);
    push_decimal(&mut r, n as u128);
    r
}

impl TuiModel {
    /// The interface as it starts: checking Tor, with the default configuration.
    pub fn new() -> (m: TuiModel)
        ensures
            m@ == (TuiView {
                config: default_config(),
                state: AppStateView::TorChecking,
                selected: Some(0usize),
                input_mode: InputMode::Normal,
                current_input: seq![],
                editing_field: None,
                messages: seq![],
                show_help: false,
                show_confirm: false,
                confirm_message: seq![],
                tor: default_tor(),
            }),
    {
        let m = TuiModel {
            config: Config::default(),
            state: AppState::TorChecking,
            selected: Some(0),
            input_mode: InputMode::Normal,
            current_input: String::new(),
            editing_field: None,
            messages: Vec::new(),
            show_help: false,
            show_confirm: false,
            confirm_message: String::new(),
            tor_status: TorStatus::default(),
        };
        assert(string_views(m.messages@) =~= Seq::<Seq<char>>::empty());
        m
    }

    fn push_message(&mut self, msg: String)
        ensures
            final(self)@ == with_message(old(self)@, msg@),
    {
        let ghost before = string_views(self.messages@);
        self.messages.push(msg);
        assert(string_views(self.messages@) =~= before.push(msg@));
    }

    /// Begins a check of Tor.
    pub fn start_tor_check(&mut self)
        ensures
            final(self)@ == with_message(
                TuiView { tor: TorView { checking: true, ..old(self)@.tor }, ..old(self)@ },
                "🔍 Checking Tor connection..."@,
            ),
    {
        self.tor_status.checking = true;
        self.push_message(owned("🔍 Checking Tor connection..."));
    }

    /// The port of the configured proxy.
    pub fn proxy_port(&self) -> (p: u16)
        ensures
            p == proxy_port_spec(self.config.proxy@),
    {
        let pieces = split_string(self.config.proxy.as_str(), ':');
        assert(pieces@.len() == split_on(self.config.proxy@, ':').len());
        if pieces.len() >= 2 {
            assert(pieces@[1]@ == split_on(self.config.proxy@, ':')[1]);
            match parse_unsigned_exec(pieces[1].as_str(), 65535) {
                Ok(v) => v as u16,
                Err(_) => 9050,
            }
        } else {
            9050
        }
    }

    /// Records the result of a Tor check on `port`; returns whether the Tor
    /// service is to be started.
    pub fn tor_check_result(&mut self, port: u16, running: bool) -> (start: bool)
        ensures
            final(self)@ == tor_check_spec(old(self)@, port, running),
            start == !running,
    {
        self.tor_status.port = port;
        if running {
            self.tor_status.is_running = true;
            self.tor_status.checking = false;
            self.state = AppState::Configuration;
            self.push_message(message_with_number("✅ Tor is running on port ", port));
            false
        } else {
            self.tor_status.checking = false;
            self.tor_status.starting = true;
            self.state = AppState::TorStarting;
            self.push_message(message_with_number("❌ Tor not running on port ", port));
            self.push_message(owned("🚀 Attempting to start Tor..."));
            true
        }
    }

    /// Records whether the Tor service could be started (`error` says why not).
    pub fn tor_service_spawned(&mut self, error: Option<&str>)
        ensures
            final(self)@ == tor_spawn_spec(
                old(self)@,
                match error {
                    Some(e) => Some(e@),
                    None => None,
                },
            ),
    {
        match error {
            None => {
                self.push_message(owned("🔄 Tor service started in background..."));
            },
            Some(e) => {
                let mut err = owned("Failed to start Tor: ");
                push_str(&mut err, e);
                self.tor_status.error = Some(err);
                let mut state_msg = owned("Tor startup failed: ");
                push_str(&mut state_msg, e);
                self.state = AppState::Error(state_msg);
                let mut msg = owned("❌ Failed to start Tor: ");
                push_str(&mut msg, e);
                self.push_message(msg);
                self.push_message(owned("ℹ️ Please ensure Tor is installed and accessible"));
            },
        }
    }

    /// Records a check while Tor starts.
    pub fn tor_start_result(&mut self, running: bool, elapsed_seconds: u64)
        ensures
            final(self)@ == tor_start_spec(old(self)@, running, elapsed_seconds),
    {
        if running {
            self.tor_status.is_running = true;
            self.tor_status.starting = false;
            self.state = AppState::Configuration;
            let port = self.tor_status.port;
            self.push_message(message_with_number("✅ Tor started successfully on port ", port));
        } else if elapsed_seconds > 0 && elapsed_seconds % 6 == 0 {
            self.push_message(owned("⏳ Waiting for Tor to start..."));
        }
    }

    /// The text of a setting.
    pub fn get_field_value(&self, field: ConfigField) -> (v: String)
        ensures
            v@ == field_value(self.config@, field),
    {
        match field {
            ConfigField::Url => owned(self.config.url.as_str()),
            ConfigField::OutputDir => owned(self.config.output_dir.as_str()),
            ConfigField::MaxDepth => decimal_string(self.config.max_depth as u128),
            ConfigField::MaxConcurrent => decimal_string(self.config.max_concurrent as u128),
            ConfigField::DelayMs => decimal_string(self.config.delay_ms as u128),
            ConfigField::MaxRetries => decimal_string(self.config.max_retries as u128),
            ConfigField::TimeoutSec => decimal_string(self.config.timeout_sec as u128),
            ConfigField::Proxy => owned(self.config.proxy.as_str()),
            ConfigField::UserAgent => owned(self.config.user_agent.as_str()),
            ConfigField::IncludePattern => join_strings(&self.config.include_patterns, ", "),
            ConfigField::ExcludePattern => join_strings(&self.config.exclude_patterns, ", "),
        }
    }

    /// Selects the previous setting, wrapping to the last.
    pub fn previous_config_item(&mut self)
        ensures
            final(self)@ == (TuiView { selected: select_previous(old(self).selected), ..old(self)@ }),
    {
        let i = match self.selected {
            Some(i) => if i == 0 {
                10
            } else {
                i - 1
            },
            None => 0,
        };
        self.selected = Some(i);
    }

    /// Selects the next setting, wrapping to the first.
    pub fn next_config_item(&mut self)
        ensures
            final(self)@ == (TuiView { selected: select_next(old(self).selected), ..old(self)@ }),
    {
        let i = match self.selected {
            Some(i) => if i >= 10 {
                0
            } else {
                i + 1
            },
            None => 0,
        };
        self.selected = Some(i);
    }

    /// Starts editing the selected setting.
    pub fn start_editing_selected_field(&mut self)
        ensures
            final(self)@ == start_editing_spec(old(self)@),
    {
        match self.selected {
            Some(i) => {
                if i < 11 {
                    let field = field_at_exec(i);
                    self.current_input = self.get_field_value(field);
                    self.editing_field = Some(field);
                    self.input_mode = InputMode::Editing;
                }
            },
            None => {},
        }
    }

    /// Saves the edited text into the setting being edited.
    pub fn save_current_input(&mut self)
        ensures
            final(self)@ == (TuiView {
                config: save_spec(old(self)@.config, old(self).editing_field, old(self)@.current_input),
                ..old(self)@
            }),
    {
        let input = self.current_input.as_str();
        match self.editing_field {
            None => {},
            Some(field) => match field {
                ConfigField::Url => {
                    self.config.url = owned(input);
                },
                ConfigField::OutputDir => {
                    self.config.output_dir = owned(input);
                },
                ConfigField::MaxDepth => {
                    if let Ok(v) = parse_unsigned_exec(input, usize::MAX as u64) {
                        self.config.max_depth = v as usize;
                    }
                },
                ConfigField::MaxConcurrent => {
                    if let Ok(v) = parse_unsigned_exec(input, usize::MAX as u64) {
                        self.config.max_concurrent = v as usize;
                    }
                },
                ConfigField::DelayMs => {
                    if let Ok(v) = parse_unsigned_exec(input, u64::MAX) {
                        self.config.delay_ms = v;
                    }
                },
                ConfigField::MaxRetries => {
                    if let Ok(v) = parse_unsigned_exec(input, usize::MAX as u64) {
                        self.config.max_retries = v as usize;
                    }
                },
                ConfigField::TimeoutSec => {
                    if let Ok(v) = parse_unsigned_exec(input, u64::MAX) {
                        self.config.timeout_sec = v;
                    }
                },
                ConfigField::Proxy => {
                    self.config.proxy = owned(input);
                },
                ConfigField::UserAgent => {
                    self.config.user_agent = owned(input);
                },
                ConfigField::IncludePattern => {
                    self.config.include_patterns = patterns_from(input);
                },
                ConfigField::ExcludePattern => {
                    self.config.exclude_patterns = patterns_from(input);
                },
            },
        }
        assert(self@.config =~= save_spec(old(self)@.config, old(self).editing_field, old(self)@.current_input));
    }

    /// Checks the configuration and, when it is valid, starts the download.
    pub fn start_download(&mut self) -> (a: TuiAction)
        ensures
            (final(self)@, a) == begin_download_spec(old(self)@),
    {
        self.push_message(owned("🔍 Checking download configuration..."));
        if self.config.url.as_str().is_empty() {
            self.push_message(owned("❌ Error: URL is required"));
            return TuiAction::Nothing;
        }
        let mut target = owned("📝 Target URL: ");
        push_str(&mut target, self.config.url.as_str());
        self.push_message(target);
        match self.config.validate() {
            Err(e) => {
                let mut msg = owned("❌ Configuration error: ");
                let text = e.message();
                proof {
                    lemma_reported_message(e, config_problem(self@.config)->Some_0);
                }
                push_str(&mut msg, text.as_str());
                self.push_message(msg);
                TuiAction::Nothing
            },
            Ok(()) => {
                self.push_message(owned("✅ Configuration validated successfully"));
                self.state = AppState::Downloading;
                self.push_message(owned("🚀 Starting download..."));
                TuiAction::LaunchCrawler
            },
        }
    }

    /// Records that the crawler was created and started for `url`.
    pub fn crawler_started(&mut self)
        ensures
            final(self)@ == with_message(
                with_message(
                    with_message(
                        with_message(old(self)@, "✅ Crawler initialized successfully"@),
                        "🔄 Starting real crawler execution..."@,
                    ),
                    "🚀 Crawler started successfully"@,
                ),
                "📍 Crawling: "@ + old(self)@.config.url,
            ),
    {
        self.push_message(owned("✅ Crawler initialized successfully"));
        self.push_message(owned("🔄 Starting real crawler execution..."));
        self.push_message(owned("🚀 Crawler started successfully"));
        let mut msg = owned("📍 Crawling: ");
        push_str(&mut msg, self.config.url.as_str());
        self.push_message(msg);
    }

    /// Records that the crawler could not be created, with the error's text.
    pub fn crawler_failed(&mut self, error: &str)
        ensures
            final(self)@ == with_message(
                TuiView {
                    state: AppStateView::Error("Failed to initialize crawler: "@ + error@),
                    ..old(self)@
                },
                "❌ Crawler error: "@ + error@,
            ),
    {
        let mut state_msg = owned("Failed to initialize crawler: ");
        push_str(&mut state_msg, error);
        self.state = AppState::Error(state_msg);
        let mut msg = owned("❌ Crawler error: ");
        push_str(&mut msg, error);
        self.push_message(msg);
    }

    /// Records that the crawl has ended.
    pub fn download_finished(&mut self)
        ensures
            final(self)@ == with_message(
                TuiView { state: AppStateView::Completed, ..old(self)@ },
                "🎉 Download completed!"@,
            ),
    {
        self.state = AppState::Completed;
        self.push_message(owned("🎉 Download completed!"));
    }

    fn recheck_tor(&mut self)
        ensures
            final(self)@ == recheck_spec(old(self)@),
    {
        self.tor_status = TorStatus::default();
        self.state = AppState::TorChecking;
        self.start_tor_check();
    }

    /// A key in the normal mode.
    pub fn handle_normal_input(&mut self, key: Key) -> (a: TuiAction)
        ensures
            (final(self)@, a) == normal_input_spec(old(self)@, key),
    {
        let is_config = matches!(self.state, AppState::Configuration);
        match key {
            Key::Char('q') => {
                if matches!(self.state, AppState::Downloading) {
                    self.show_confirm = true;
                    self.confirm_message = owned("Stop download and quit? (y/n)");
                    self.input_mode = InputMode::Confirm;
                    TuiAction::Nothing
                } else {
                    TuiAction::Quit
                }
            },
            Key::Char('h') | Key::F(1) => {
                self.show_help = !self.show_help;
                TuiAction::Nothing
            },
            Key::Char('r') => {
                if is_config {
                    self.config = Config::default();
                    self.push_message(owned("Configuration reset to defaults"));
                    TuiAction::Nothing
                } else if matches!(self.state, AppState::Error(_)) {
                    self.recheck_tor();
                    TuiAction::RecheckTor
                } else {
                    TuiAction::Nothing
                }
            },
            Key::Char('s') => {
                if is_config {
                    self.start_download()
                } else {
                    TuiAction::Nothing
                }
            },
            Key::Char('p') => {
                if matches!(self.state, AppState::Downloading) {
                    self.state = AppState::Paused;
                    self.push_message(owned("Download paused"));
                } else if matches!(self.state, AppState::Paused) {
                    self.state = AppState::Downloading;
                    self.push_message(owned("Download resumed"));
                }
                TuiAction::Nothing
            },
            Key::Char('t') => {
                if is_config || matches!(self.state, AppState::Error(_)) {
                    self.recheck_tor();
                    TuiAction::RecheckTor
                } else {
                    TuiAction::Nothing
                }
            },
            Key::Up => {
                if is_config {
                    self.previous_config_item();
                }
                TuiAction::Nothing
            },
            Key::Down => {
                if is_config {
                    self.next_config_item();
                }
                TuiAction::Nothing
            },
            Key::Enter => {
                if is_config {
                    self.start_editing_selected_field();
                }
                TuiAction::Nothing
            },
            Key::Char(c) => {
                if '0' <= c && c <= '9' && is_config {
                    let index = (c as u32 - '0' as u32) as usize;
                    if index > 0 && index <= 11 {
                        self.selected = Some(index - 1);
                        self.start_editing_selected_field();
                    }
                }
                TuiAction::Nothing
            },
            Key::Esc => {
                if self.show_help {
                    self.show_help = false;
                }
                TuiAction::Nothing
            },
            _ => TuiAction::Nothing,
        }
    }

    /// A key while a setting is edited.
    pub fn handle_editing_input(&mut self, key: Key)
        ensures
            final(self)@ == editing_input_spec(old(self)@, key),
    {
        match key {
            Key::Enter => {
                self.save_current_input();
                self.input_mode = InputMode::Normal;
                self.editing_field = None;
                self.current_input = String::new();
            },
            Key::Esc => {
                self.input_mode = InputMode::Normal;
                self.editing_field = None;
                self.current_input = String::new();
            },
            Key::Char(c) => {
                push_char(&mut self.current_input, c);
            },
            Key::Backspace => {
                let v = chars_of(self.current_input.as_str());
                if v.len() > 0 {
                    self.current_input = string_from_range(&v, 0, v.len() - 1);
                    assert(v@.subrange(0, v.len() - 1) =~= v@.drop_last());
                }
            },
            _ => {},
        }
    }

    /// A key while a question waits for an answer.
    pub fn handle_confirm_input(&mut self, key: Key) -> (a: TuiAction)
        ensures
            (final(self)@, a) == confirm_input_spec(old(self)@, key),
    {
        match key {
            Key::Char('y') | Key::Char('Y') => {
                self.show_confirm = false;
                self.input_mode = InputMode::Normal;
                TuiAction::Quit
            },
            Key::Char('n') | Key::Char('N') | Key::Esc => {
                self.show_confirm = false;
                self.input_mode = InputMode::Normal;
                TuiAction::Nothing
            },
            _ => TuiAction::Nothing,
        }
    }

    /// A key press, handled by the current input mode.
    pub fn handle_key(&mut self, key: Key) -> (a: TuiAction)
        ensures
            (final(self)@, a) == key_spec(old(self)@, key),
    {
        match self.input_mode {
            InputMode::Normal => self.handle_normal_input(key),
            InputMode::Editing => {
                self.handle_editing_input(key);
                TuiAction::Nothing
            },
            InputMode::Confirm => self.handle_confirm_input(key),
        }
    }
}

/// The patterns of a comma-separated input.
/// The name that the configuration screen gives a setting.
pub fn field_label(f: ConfigField) -> (s: &'static str)
    ensures
        s@ == field_label_spec(f),
{
    match f {
        ConfigField::Url => "URL",
        ConfigField::OutputDir => "Output Directory",
        ConfigField::MaxDepth => "Max Depth",
        ConfigField::MaxConcurrent => "Max Concurrent",
        ConfigField::DelayMs => "Delay (ms)",
        ConfigField::MaxRetries => "Max Retries",
        ConfigField::TimeoutSec => "Timeout (sec)",
        ConfigField::Proxy => "Proxy",
        ConfigField::UserAgent => "User Agent",
        ConfigField::IncludePattern => "Include Patterns",
        ConfigField::ExcludePattern => "Exclude Patterns",
    }
}

pub open spec fn field_label_spec(f: ConfigField) -> Seq<char> {
    match f {
        ConfigField::Url => "URL"@,
        ConfigField::OutputDir => "Output Directory"@,
        ConfigField::MaxDepth => "Max Depth"@,
        ConfigField::MaxConcurrent => "Max Concurrent"@,
        ConfigField::DelayMs => "Delay (ms)"@,
        ConfigField::MaxRetries => "Max Retries"@,
        ConfigField::TimeoutSec => "Timeout (sec)"@,
        ConfigField::Proxy => "Proxy"@,
        ConfigField::UserAgent => "User Agent"@,
        ConfigField::IncludePattern => "Include Patterns"@,
        ConfigField::ExcludePattern => "Exclude Patterns"@,
    }
}

/// How the configuration screen shows a value: one of more than 40 bytes is
/// cut to its first 37 bytes followed by "...".
pub open spec fn display_value_spec(value: &str) -> Seq<char> {
    if value.spec_bytes().len() > 40 {
        vstd::utf8::decode_utf8(value.spec_bytes().subrange(0, 37)) + "..."@
    } else {
        value@
    }
}

pub fn display_value(value: &str) -> (r: String)
    requires
        value.spec_bytes().len() <= usize::MAX,
        value.spec_bytes().len() > 40 ==> vstd::utf8::is_char_boundary(value.spec_bytes(), 37),
    ensures
        r@ == display_value_spec(value),
{
    if value.len() > 40 {
        let (head, _) = value.split_at(37);
        proof {
            vstd::utf8::encode_utf8_decode_utf8(head@);
            assert(head.spec_bytes() == value.spec_bytes().subrange(0, 37));
        }
        let mut r = owned(head);
        push_str(&mut r, "...");
        r
    } else {
        owned(value)
    }
}

fn patterns_from(input: &str) -> (r: Vec<String>)
    ensures
        string_views(r@) == pattern_list(input@),
{
    let pieces = split_string(input, ',');
    let ghost pv = pieces@.map_values(|x: String| x@);
    let mut out: Vec<String> = Vec::new();
    let mut i: usize = 0;
    while i < pieces.len()
        invariant
            i <= pieces.len(),
            pv == pieces@.map_values(|x: String| x@),
            pv == split_on(input@, ','),
            string_views(out@) == nonblank(pv.take(i as int)),
        decreases pieces.len() - i,
    {
        assert(pv.take(i + 1).drop_last() =~= pv.take(i as int));
        assert(pv.take(i + 1).last() == pieces@[i as int]@);
        let t = trim_string(pieces[i].as_str());
        if !t.as_str().is_empty() {
            let ghost before = string_views(out@);
            let ghost tv = t@;
            out.push(t);
            assert(string_views(out@) =~= before.push(tv));
        }
        i = i + 1;
    }
    assert(pv.take(pieces.len() as int) =~= pv);
    out
}

/// Saving the edited text of a text setting (URL, output directory, proxy,
/// user agent) stores that text in the setting and changes no other setting.
pub proof fn lemma_text_edit_saved(c: ConfigView, input: Seq<char>)
    ensures
        save_spec(c, Some(ConfigField::Url), input) == (ConfigView { url: input, ..c }),
        save_spec(c, Some(ConfigField::OutputDir), input) == (ConfigView { output_dir: input, ..c }),
        save_spec(c, Some(ConfigField::Proxy), input) == (ConfigView { proxy: input, ..c }),
        save_spec(c, Some(ConfigField::UserAgent), input) == (ConfigView { user_agent: input, ..c }),
        save_spec(c, None, input) == c,
{
}

/// Saving the edited text of a numeric setting stores the number it reads as
/// (as `str::parse` reads it) and changes nothing when it does not read as one.
pub proof fn lemma_number_edit_saved(c: ConfigView, input: Seq<char>)
    ensures
        match parse_unsigned(input, usize::MAX as nat) {
            Ok(v) => {
                &&& save_spec(c, Some(ConfigField::MaxDepth), input) == (ConfigView { max_depth: v as usize, ..c })
                &&& save_spec(c, Some(ConfigField::MaxConcurrent), input) == (ConfigView {
                    max_concurrent: v as usize,
                    ..c
                })
                &&& save_spec(c, Some(ConfigField::MaxRetries), input) == (ConfigView { max_retries: v as usize, ..c })
            },
            Err(_) => {
                &&& save_spec(c, Some(ConfigField::MaxDepth), input) == c
                &&& save_spec(c, Some(ConfigField::MaxConcurrent), input) == c
                &&& save_spec(c, Some(ConfigField::MaxRetries), input) == c
            },
        },
        match parse_unsigned(input, u64::MAX as nat) {
            Ok(v) => {
                &&& save_spec(c, Some(ConfigField::DelayMs), input) == (ConfigView { delay_ms: v as u64, ..c })
                &&& save_spec(c, Some(ConfigField::TimeoutSec), input) == (ConfigView { timeout_sec: v as u64, ..c })
            },
            Err(_) => {
                &&& save_spec(c, Some(ConfigField::DelayMs), input) == c
                &&& save_spec(c, Some(ConfigField::TimeoutSec), input) == c
            },
        },
{
}

/// Pressing Enter while a setting is edited saves the typed text into it,
/// returns to the normal mode and clears the input; for the URL the typed text
/// becomes the URL.
pub proof fn lemma_enter_saves_edit(m: TuiView)
    requires
        m.input_mode == InputMode::Editing,
    ensures
        key_spec(m, Key::Enter).0.input_mode == InputMode::Normal,
        key_spec(m, Key::Enter).0.editing_field is None,
        key_spec(m, Key::Enter).0.current_input.len() == 0,
        key_spec(m, Key::Enter).1 == TuiAction::Nothing,
        m.editing_field == Some(ConfigField::Url) ==> key_spec(m, Key::Enter).0.config.url
            == m.current_input,
        m.editing_field == Some(ConfigField::Proxy) ==> key_spec(m, Key::Enter).0.config.proxy
            == m.current_input,
{
}

/// Typing a character while editing appends it, and Backspace removes the last
/// one; the configuration is not touched until Enter.
pub proof fn lemma_typing_edits_input(m: TuiView, ch: char)
    requires
        m.input_mode == InputMode::Editing,
    ensures
        key_spec(m, Key::Char(ch)).0.current_input == m.current_input.push(ch),
        key_spec(m, Key::Char(ch)).0.config == m.config,
        key_spec(key_spec(m, Key::Char(ch)).0, Key::Backspace).0.current_input == m.current_input,
{
    assert(m.current_input.push(ch).drop_last() =~= m.current_input);
}

/// Quitting: `q` quits at once unless a download runs, in which case it asks
/// for confirmation; `y` or `Y` then quits, `n`, `N` or Esc closes the question.
pub proof fn lemma_quit_keys(m: TuiView)
    ensures
        m.input_mode == InputMode::Normal && !(m.state is Downloading) ==> key_spec(
            m,
            Key::Char('q'),
        ).1 == TuiAction::Quit,
        m.input_mode == InputMode::Normal && m.state is Downloading ==> {
            &&& key_spec(m, Key::Char('q')).1 == TuiAction::Nothing
            &&& key_spec(m, Key::Char('q')).0.input_mode == InputMode::Confirm
            &&& key_spec(m, Key::Char('q')).0.show_confirm
            &&& key_spec(m, Key::Char('q')).0.config == m.config
        },
        m.input_mode == InputMode::Confirm ==> {
            &&& key_spec(m, Key::Char('y')).1 == TuiAction::Quit
            &&& key_spec(m, Key::Char('Y')).1 == TuiAction::Quit
            &&& key_spec(m, Key::Char('n')).1 == TuiAction::Nothing
            &&& key_spec(m, Key::Char('n')).0.input_mode == InputMode::Normal
            &&& !key_spec(m, Key::Char('n')).0.show_confirm
            &&& key_spec(m, Key::Char('N')).0.input_mode == InputMode::Normal
            &&& key_spec(m, Key::Esc).0.input_mode == InputMode::Normal
            &&& key_spec(m, Key::Esc).1 == TuiAction::Nothing
        },
{
}

/// On the configuration screen, `1` starts editing the URL with its current
/// text, `2` the output directory, `3` the maximum depth (its decimal text)
/// and `8` the proxy.
pub proof fn lemma_digit_edits(m: TuiView)
    requires
        m.input_mode == InputMode::Normal,
        m.state is Configuration,
    ensures
        key_spec(m, Key::Char('1')).0.editing_field == Some(ConfigField::Url),
        key_spec(m, Key::Char('1')).0.current_input == m.config.url,
        key_spec(m, Key::Char('1')).0.input_mode == InputMode::Editing,
        key_spec(m, Key::Char('2')).0.editing_field == Some(ConfigField::OutputDir),
        key_spec(m, Key::Char('2')).0.current_input == m.config.output_dir,
        key_spec(m, Key::Char('3')).0.editing_field == Some(ConfigField::MaxDepth),
        key_spec(m, Key::Char('3')).0.current_input == decimal(m.config.max_depth as nat),
        key_spec(m, Key::Char('8')).0.editing_field == Some(ConfigField::Proxy),
        key_spec(m, Key::Char('8')).0.current_input == m.config.proxy,
{
}

/// Starting from the configuration screen: a configuration with a URL that
/// validates launches the crawler and shows the download; one that does not
/// launches nothing and stays on the configuration screen with the same
/// configuration.
pub proof fn lemma_start_download(m: TuiView)
    requires
        m.input_mode == InputMode::Normal,
        m.state is Configuration,
    ensures
        m.config.url.len() > 0 && config_problem(m.config) is None ==> {
            &&& key_spec(m, Key::Char('s')).1 == TuiAction::LaunchCrawler
            &&& key_spec(m, Key::Char('s')).0.state is Downloading
            &&& key_spec(m, Key::Char('s')).0.config == m.config
        },
        !(m.config.url.len() > 0 && config_problem(m.config) is None) ==> {
            &&& key_spec(m, Key::Char('s')).1 == TuiAction::Nothing
            &&& key_spec(m, Key::Char('s')).0.state is Configuration
            &&& key_spec(m, Key::Char('s')).0.config == m.config
        },
{
}

/// A Tor check that finds Tor running on a port shows the configuration with
/// that port; one that does not asks for Tor to be started.
pub proof fn lemma_tor_check(m: TuiView, port: u16, running: bool)
    ensures
        running ==> tor_check_spec(m, port, running).state is Configuration && tor_check_spec(
            m,
            port,
            running,
        ).tor.is_running && tor_check_spec(m, port, running).tor.port == port,
        !running ==> tor_check_spec(m, port, running).state is TorStarting && tor_check_spec(
            m,
            port,
            running,
        ).tor.starting && tor_check_spec(m, port, running).tor.port == port,
        tor_check_spec(m, port, running).config == m.config,
{
}

/// The port of a "host:port" proxy (host without `:`) is the port written
/// after the colon.
pub proof fn lemma_proxy_port(host: Seq<char>, port: u16)
    requires
        !host.contains(':'),
    ensures
        proxy_port_spec(host.push(':') + decimal(port as nat)) == port,
{
    crate::text::lemma_decimal_digits(port as nat);
    crate::text::lemma_split_two(host, decimal(port as nat), ':');
    crate::text::lemma_parse_decimal(port as nat, 65535);
}

/// The patterns typed as a comma-separated list are its pieces, trimmed, with
/// the blank ones left out: each is nonempty and holds no comma, and a text
/// without commas that is not blank gives exactly its trimmed self.
pub proof fn lemma_pattern_list(input: Seq<char>)
    ensures
        forall|i: int|
            0 <= i < pattern_list(input).len() ==> (#[trigger] pattern_list(input)[i]).len() > 0
                && !pattern_list(input)[i].contains(','),
        !input.contains(',') && trim(input).len() > 0 ==> pattern_list(input) == seq![trim(input)],
        !input.contains(',') && trim(input).len() == 0 ==> pattern_list(input).len() == 0,
{
    crate::text::lemma_split_join(input, ',');
    lemma_nonblank_shape(split_on(input, ','));
    if !input.contains(',') {
        crate::text::lemma_split_single(input, ',');
        assert(seq![input].drop_last() =~= Seq::<Seq<char>>::empty());
        assert(seq![input].last() == input);
        let e = Seq::<Seq<char>>::empty();
        assert(nonblank(e) == e);
        assert(pattern_list(input) == nonblank(seq![input]));
        if trim(input).len() > 0 {
            assert(nonblank(seq![input]) =~= e.push(trim(input)));
        } else {
            assert(nonblank(seq![input]) =~= e);
        }
    }
}

proof fn lemma_trim_sub(s: Seq<char>)
    ensures
        forall|k: int| 0 <= k < trim(s).len() ==> s.contains(#[trigger] trim(s)[k]),
{
    crate::text::lemma_trim_shape(s);
    let (a, b) = choose|a: int, b: int|
        0 <= a <= b <= s.len() && trim(s) == s.subrange(a, b) && (forall|j: int|
            0 <= j < a ==> is_space(#[trigger] s[j])) && (forall|j: int|
            b <= j < s.len() ==> is_space(#[trigger] s[j]));
    assert forall|k: int| 0 <= k < trim(s).len() implies s.contains(#[trigger] trim(s)[k]) by {
        assert(s[a + k] == trim(s)[k]);
    }
}

proof fn lemma_nonblank_shape(pieces: Seq<Seq<char>>)
    requires
        forall|i: int| 0 <= i < pieces.len() ==> !(#[trigger] pieces[i]).contains(','),
    ensures
        forall|i: int|
            0 <= i < nonblank(pieces).len() ==> (#[trigger] nonblank(pieces)[i]).len() > 0
                && !nonblank(pieces)[i].contains(','),
    decreases pieces.len(),
{
    if pieces.len() > 0 {
        let prev = pieces.drop_last();
        assert forall|i: int| 0 <= i < prev.len() implies !(#[trigger] prev[i]).contains(',') by {
            assert(prev[i] == pieces[i]);
        }
        lemma_nonblank_shape(prev);
        let last = pieces.last();
        assert(last == pieces[pieces.len() - 1]);
        lemma_trim_sub(last);
        let n = nonblank(pieces);
        let pn = nonblank(prev);
        assert forall|i: int| 0 <= i < n.len() implies (#[trigger] n[i]).len() > 0 && !n[i].contains(',') by {
            if i < pn.len() {
                assert(n[i] == pn[i]);
            } else {
                assert(n[i] == trim(last));
                if trim(last).contains(',') {
                    let k = choose|k: int| 0 <= k < trim(last).len() && trim(last)[k] == ',';
                    assert(last.contains(trim(last)[k]));
                }
            }
        }
    }
}

/// A Tor service that could not be started puts the interface in the error
/// state with the reason; one that started leaves the state as it was.
pub proof fn lemma_tor_spawn(m: TuiView, error: Option<Seq<char>>)
    ensures
        error is None ==> tor_spawn_spec(m, error).state == m.state,
        error matches Some(e) ==> tor_spawn_spec(m, error).state == AppStateView::Error(
            "Tor startup failed: "@ + e,
        ) && tor_spawn_spec(m, error).tor.error == Some("Failed to start Tor: "@ + e),
        tor_spawn_spec(m, error).config == m.config,
{
}

/// The configuration screen shows text settings as they are, numbers in
/// decimal and pattern lists joined with ", ".
pub proof fn lemma_field_texts(c: ConfigView)
    ensures
        field_value(c, ConfigField::Url) == c.url,
        field_value(c, ConfigField::OutputDir) == c.output_dir,
        field_value(c, ConfigField::MaxDepth) == decimal(c.max_depth as nat),
        field_value(c, ConfigField::MaxConcurrent) == decimal(c.max_concurrent as nat),
        field_value(c, ConfigField::DelayMs) == decimal(c.delay_ms as nat),
        field_value(c, ConfigField::MaxRetries) == decimal(c.max_retries as nat),
        field_value(c, ConfigField::TimeoutSec) == decimal(c.timeout_sec as nat),
        field_value(c, ConfigField::Proxy) == c.proxy,
        field_value(c, ConfigField::UserAgent) == c.user_agent,
        field_value(c, ConfigField::IncludePattern) == join(c.include_patterns, ", "@),
        field_value(c, ConfigField::ExcludePattern) == join(c.exclude_patterns, ", "@),
{
}

/// On the configuration screen Down selects the next setting and Up the
/// previous one, wrapping around between the first (0) and the last (10).
pub proof fn lemma_arrow_keys(m: TuiView, i: usize)
    requires
        m.input_mode == InputMode::Normal,
        m.state is Configuration,
        m.selected == Some(i),
        i <= 10,
    ensures
        key_spec(m, Key::Down).0.selected == Some(if i == 10 { 0usize } else { (i + 1) as usize }),
        key_spec(m, Key::Up).0.selected == Some(if i == 0 { 10usize } else { (i - 1) as usize }),
        key_spec(m, Key::Down).0.config == m.config,
        key_spec(m, Key::Up).0.config == m.config,
{
}

/// In the normal mode `h` and F1 show the help when it is hidden and hide it
/// when it is shown, and Esc hides it.
pub proof fn lemma_help_key(m: TuiView)
    requires
        m.input_mode == InputMode::Normal,
    ensures
        key_spec(m, Key::Char('h')).0.show_help == !m.show_help,
        key_spec(m, Key::F(1)).0.show_help == !m.show_help,
        !key_spec(m, Key::Esc).0.show_help,
        key_spec(m, Key::Char('h')).1 == TuiAction::Nothing,
{
}

/// On the configuration screen `r` puts back the default configuration.
pub proof fn lemma_reset_key(m: TuiView)
    requires
        m.input_mode == InputMode::Normal,
        m.state is Configuration,
    ensures
        key_spec(m, Key::Char('r')).0.config == default_config(),
        key_spec(m, Key::Char('r')).0.state is Configuration,
{
}

/// `t` on the configuration or error screen starts a new Tor check: the Tor
/// status starts over (no error, not running) and the check screen shows.
pub proof fn lemma_recheck_key(m: TuiView)
    requires
        m.input_mode == InputMode::Normal,
        m.state is Configuration || m.state is Error,
    ensures
        key_spec(m, Key::Char('t')).1 == TuiAction::RecheckTor,
        key_spec(m, Key::Char('t')).0.state is TorChecking,
        key_spec(m, Key::Char('t')).0.tor.checking,
        !key_spec(m, Key::Char('t')).0.tor.is_running,
        key_spec(m, Key::Char('t')).0.tor.error is None,
        key_spec(m, Key::Char('t')).0.config == m.config,
{
}

/// While Tor starts, a check that finds it running shows the configuration;
/// one that does not leaves the state as it was.
pub proof fn lemma_tor_start(m: TuiView, running: bool, elapsed: u64)
    ensures
        running ==> tor_start_spec(m, running, elapsed).state is Configuration && tor_start_spec(
            m,
            running,
            elapsed,
        ).tor.is_running && !tor_start_spec(m, running, elapsed).tor.starting,
        !running ==> tor_start_spec(m, running, elapsed).state == m.state && tor_start_spec(
            m,
            running,
            elapsed,
        ).tor == m.tor,
{
}

/// Pressing `h` twice in the normal mode leaves the interface as it was.
pub proof fn lemma_help_toggle(m: TuiView)
    requires
        m.input_mode == InputMode::Normal,
    ensures
        key_spec(key_spec(m, Key::Char('h')).0, Key::Char('h')) == (m, TuiAction::Nothing),
{
    assert(key_spec(key_spec(m, Key::Char('h')).0, Key::Char('h')).0 =~= m);
}

/// Leaving an edit with Esc keeps the configuration.
pub proof fn lemma_escape_keeps_config(m: TuiView)
    requires
        m.input_mode == InputMode::Editing,
    ensures
        key_spec(m, Key::Esc).0.config == m.config,
        key_spec(m, Key::Esc).0.input_mode == InputMode::Normal,
{
}

/// Moving down then up, or up then down, returns to the same setting.
pub proof fn lemma_navigation_round_trip(i: usize)
    requires
        i <= 10,
    ensures
        select_previous(select_next(Some(i))) == Some(i),
        select_next(select_previous(Some(i))) == Some(i),
{
}

/// Saving the unchanged text of a numeric setting keeps its value: what
/// `get_field_value` shows, `save_current_input` reads back.
pub proof fn lemma_numeric_edit_round_trip(c: ConfigView, f: ConfigField)
    requires
        f == ConfigField::MaxDepth || f == ConfigField::MaxConcurrent || f == ConfigField::DelayMs
            || f == ConfigField::MaxRetries || f == ConfigField::TimeoutSec,
    ensures
        save_spec(c, Some(f), field_value(c, f)) == c,
{
    crate::text::lemma_parse_decimal(c.max_depth as nat, usize::MAX as nat);
    crate::text::lemma_parse_decimal(c.max_concurrent as nat, usize::MAX as nat);
    crate::text::lemma_parse_decimal(c.delay_ms as nat, u64::MAX as nat);
    crate::text::lemma_parse_decimal(c.max_retries as nat, usize::MAX as nat);
    crate::text::lemma_parse_decimal(c.timeout_sec as nat, u64::MAX as nat);
    assert(save_spec(c, Some(f), field_value(c, f)) =~= c);
}

/// Pausing and resuming returns to the download.
pub proof fn lemma_pause_resume(m: TuiView)
    requires
        m.input_mode == InputMode::Normal,
        m.state is Downloading,
    ensures
        key_spec(key_spec(m, Key::Char('p')).0, Key::Char('p')).0.state is Downloading,
        key_spec(key_spec(m, Key::Char('p')).0, Key::Char('p')).0.messages == m.messages.push(
            "Download paused"@,
        ).push("Download resumed"@),
{
}

} // verus!
