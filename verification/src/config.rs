//! Download settings: their defaults, their validation, URL filtering and
//! where a downloaded URL is stored.
use vstd::prelude::*;
use crate::errors::{error_message, IntErrorKind, TorDownloaderError};
use crate::text::{
    chars_of, ends_with, ends_with_str, has_char, owned, parse_unsigned, parse_unsigned_exec,
    join, push_char, push_str, str_eq,
};
use crate::urls::{url_parse, UrlParts, UrlView};
use crate::utils::{clean_filename, clean_filename_spec, is_onion_url_spec};

verus! {

/// The settings of one download.
#[derive(Clone, Debug)]
pub struct Config {
    pub url: String,
    pub output_dir: String,
    pub max_depth: usize,
    pub max_concurrent: usize,
    pub delay_ms: u64,
    pub max_retries: usize,
    pub timeout_sec: u64,
    pub proxy: String,
    pub user_agent: String,
    pub include_patterns: Vec<String>,
    pub exclude_patterns: Vec<String>,
    pub quiet: bool,
    pub verbose: bool,
    pub continue_download: bool,
    pub dry_run: bool,
    pub monitor: bool,
}

/// The mathematical value of a [`Config`].
pub struct ConfigView {
    pub url: Seq<char>,
    pub output_dir: Seq<char>,
    pub max_depth: usize,
    pub max_concurrent: usize,
    pub delay_ms: u64,
    pub max_retries: usize,
    pub timeout_sec: u64,
    pub proxy: Seq<char>,
    pub user_agent: Seq<char>,
    pub include_patterns: Seq<Seq<char>>,
    pub exclude_patterns: Seq<Seq<char>>,
    pub quiet: bool,
    pub verbose: bool,
    pub continue_download: bool,
    pub dry_run: bool,
    pub monitor: bool,
}

pub open spec fn string_views(v: Seq<String>) -> Seq<Seq<char>> {
    v.map_values(|s: String| s@)
}

impl View for Config {
    type V = ConfigView;

    open spec fn view(&self) -> ConfigView {
        ConfigView {
            url: self.url@,
            output_dir: self.output_dir@,
            max_depth: self.max_depth,
            max_concurrent: self.max_concurrent,
            delay_ms: self.delay_ms,
            max_retries: self.max_retries,
            timeout_sec: self.timeout_sec,
            proxy: self.proxy@,
            user_agent: self.user_agent@,
            include_patterns: string_views(self.include_patterns@),
            exclude_patterns: string_views(self.exclude_patterns@),
            quiet: self.quiet,
            verbose: self.verbose,
            continue_download: self.continue_download,
            dry_run: self.dry_run,
            monitor: self.monitor,
        }
    }
}

/// The default settings.
pub open spec fn default_config() -> ConfigView {
    ConfigView {
        url: "http://kxlpsf4uua2k36quvcob3mjlguurbc3rhjkwt7thoyi52o7y6tf2wrad.onion"@,
        output_dir: "./downloaded_site"@,
        max_depth: 5,
        max_concurrent: 8,
        delay_ms: 1000,
        max_retries: 3,
        timeout_sec: 30,
        proxy: "127.0.0.1:9050"@,
        user_agent: "Mozilla/5.0 (Windows NT 10.0; rv:102.0) Gecko/20100101 Firefox/102.0"@,
        include_patterns: seq![],
        exclude_patterns: seq![],
        quiet: false,
        verbose: false,
        continue_download: false,
        dry_run: false,
        monitor: false,
    }
}

impl Default for Config {
    fn default() -> (c: Self)
        ensures
            c@ == default_config(),
    {
        let c = Config {
            url: owned("http://kxlpsf4uua2k36quvcob3mjlguurbc3rhjkwt7thoyi52o7y6tf2wrad.onion"),
            output_dir: owned("./downloaded_site"),
            max_depth: 5,
            max_concurrent: 8,
            delay_ms: 1000,
            max_retries: 3,
            timeout_sec: 30,
            proxy: owned("127.0.0.1:9050"),
            user_agent: owned(
                "Mozilla/5.0 (Windows NT 10.0; rv:102.0) Gecko/20100101 Firefox/102.0",
            ),
            include_patterns: Vec::new(),
            exclude_patterns: Vec::new(),
            quiet: false,
            verbose: false,
            continue_download: false,
            dry_run: false,
            monitor: false,
        };
        assert(string_views(c.include_patterns@) =~= Seq::<Seq<char>>::empty());
        assert(string_views(c.exclude_patterns@) =~= Seq::<Seq<char>>::empty());
        assert(c@ =~= default_config());
        c
    }
}

/// The first thing that `Config::validate` finds wrong with a configuration.
pub enum ConfigProblem {
    /// The URL does not parse; the `url` crate's message.
    BadUrl(Seq<char>),
    BadScheme,
    NotOnion,
    NoHost,
    NoConcurrency,
    TooMuchConcurrency,
    DelayTooLong,
    TimeoutTooLong,
    BadProxy,
}

/// The checks on the numbers and the proxy, in the order `validate` makes them.
pub open spec fn limits_problem(c: ConfigView) -> Option<ConfigProblem> {
    if c.max_concurrent == 0 {
        Some(ConfigProblem::NoConcurrency)
    } else if c.max_concurrent > 50 {
        Some(ConfigProblem::TooMuchConcurrency)
    } else if c.delay_ms > 60000 {
        Some(ConfigProblem::DelayTooLong)
    } else if c.timeout_sec > 300 {
        Some(ConfigProblem::TimeoutTooLong)
    } else if !c.proxy.contains(':') {
        Some(ConfigProblem::BadProxy)
    } else {
        None
    }
}

/// What is wrong with `c`, if anything: the URL must parse, use http or https
/// and have a host ending in ".onion"; then the limits.
pub open spec fn config_problem(c: ConfigView) -> Option<ConfigProblem> {
    match url_parse(c.url) {
        Err(m) => Some(ConfigProblem::BadUrl(m)),
        Ok(u) => if u.scheme != "http"@ && u.scheme != "https"@ {
            Some(ConfigProblem::BadScheme)
        } else {
            match u.host {
                Some(h) => if !ends_with(h, ".onion"@) {
                    Some(ConfigProblem::NotOnion)
                } else {
                    limits_problem(c)
                },
                None => Some(ConfigProblem::NoHost),
            }
        },
    }
}

/// The error that `validate` reports for a problem.
pub open spec fn reports(e: TorDownloaderError, p: ConfigProblem) -> bool {
    match p {
        ConfigProblem::BadUrl(m) => e matches TorDownloaderError::UrlParse(x) && x@ == m,
        ConfigProblem::BadScheme => e matches TorDownloaderError::InvalidUrl(s) && s@
            == "URL must use http or https scheme"@,
        ConfigProblem::NotOnion => e matches TorDownloaderError::InvalidUrl(s) && s@
            == "URL must be a .onion address"@,
        ConfigProblem::NoHost => e matches TorDownloaderError::InvalidUrl(s) && s@
            == "URL must have a valid host"@,
        ConfigProblem::NoConcurrency => e matches TorDownloaderError::InvalidConfiguration(s)
            && s@ == "max_concurrent must be greater than 0"@,
        ConfigProblem::TooMuchConcurrency => e matches TorDownloaderError::InvalidConfiguration(s)
            && s@ == "max_concurrent should not exceed 50 to avoid overwhelming the server"@,
        ConfigProblem::DelayTooLong => e matches TorDownloaderError::InvalidConfiguration(s) && s@
            == "delay_ms should not exceed 60000ms (1 minute)"@,
        ConfigProblem::TimeoutTooLong => e matches TorDownloaderError::InvalidConfiguration(s)
            && s@ == "timeout_sec should not exceed 300s (5 minutes)"@,
        ConfigProblem::BadProxy => e matches TorDownloaderError::InvalidConfiguration(s) && s@
            == "proxy must be in format 'host:port'"@,
    }
}

/// The text of the error that `validate` reports for a problem.
pub open spec fn problem_message(p: ConfigProblem) -> Seq<char> {
    match p {
        ConfigProblem::BadUrl(m) => "URL parse error: "@ + m,
        ConfigProblem::BadScheme => "Invalid URL: "@ + "URL must use http or https scheme"@,
        ConfigProblem::NotOnion => "Invalid URL: "@ + "URL must be a .onion address"@,
        ConfigProblem::NoHost => "Invalid URL: "@ + "URL must have a valid host"@,
        ConfigProblem::NoConcurrency => "Invalid configuration: "@
            + "max_concurrent must be greater than 0"@,
        ConfigProblem::TooMuchConcurrency => "Invalid configuration: "@
            + "max_concurrent should not exceed 50 to avoid overwhelming the server"@,
        ConfigProblem::DelayTooLong => "Invalid configuration: "@
            + "delay_ms should not exceed 60000ms (1 minute)"@,
        ConfigProblem::TimeoutTooLong => "Invalid configuration: "@
            + "timeout_sec should not exceed 300s (5 minutes)"@,
        ConfigProblem::BadProxy => "Invalid configuration: "@
            + "proxy must be in format 'host:port'"@,
    }
}

/// The error reported for a problem has the problem's text.
pub proof fn lemma_reported_message(e: TorDownloaderError, p: ConfigProblem)
    requires
        reports(e, p),
    ensures
        error_message(e) == problem_message(p),
{
}

/// Whether the regular expression `pattern` compiles (`Some`) and, if so,
/// whether it matches somewhere in `text`.
pub uninterp spec fn regex_match(pattern: Seq<char>, text: Seq<char>) -> Option<bool>;

/// Calls `regex::Regex::new` on `pattern` and, if it compiles, `Regex::is_match`
/// on `text`. Claimed: the result is `regex_match` of the two.
#[verifier::external_body]
fn call_regex_match(pattern: &str, text: &str) -> (r: Option<bool>)
    ensures
        r == regex_match(pattern@, text@),
{
    match regex::Regex::new(pattern) {
        Ok(re) => Some(re.is_match(text)),
        Err(_) => None,
    }
}

/// Whether some pattern of the list compiles and matches `url`.
pub open spec fn any_pattern_matches(patterns: Seq<Seq<char>>, url: Seq<char>) -> bool {
    exists|i: int| 0 <= i < patterns.len() && regex_match(#[trigger] patterns[i], url) == Some(true)
}

/// Whether the include and exclude patterns let `url` through: some include
/// pattern matches (or there is none) and no exclude pattern matches.
pub open spec fn should_download(c: ConfigView, url: Seq<char>) -> bool {
    (c.include_patterns.len() == 0 || any_pattern_matches(c.include_patterns, url))
        && !any_pattern_matches(c.exclude_patterns, url)
}

fn any_matches(patterns: &Vec<String>, url: &str) -> (b: bool)
    ensures
        b == any_pattern_matches(string_views(patterns@), url@),
{
    let mut i: usize = 0;
    while i < patterns.len()
        invariant
            i <= patterns.len(),
            forall|k: int| 0 <= k < i ==> regex_match(#[trigger] patterns@[k]@, url@) != Some(true),
        decreases patterns.len() - i,
    {
        if call_regex_match(patterns[i].as_str(), url) == Some(true) {
            assert(string_views(patterns@)[i as int] == patterns@[i as int]@);
            return true;
        }
        i = i + 1;
    }
    assert forall|k: int| 0 <= k < string_views(patterns@).len() implies regex_match(
        #[trigger] string_views(patterns@)[k],
        url@,
    ) != Some(true) by {
        assert(string_views(patterns@)[k] == patterns@[k]@);
    }
    false
}

/// `PathBuf::push` on Unix: an absolute `component` replaces the path;
/// otherwise it is appended, with a `/` between unless the path is empty or
/// already ends with one.
pub open spec fn path_push(path: Seq<char>, component: Seq<char>) -> Seq<char> {
    if component.len() > 0 && component[0] == '/' {
        component
    } else if path.len() > 0 && path.last() != '/' {
        path + seq!['/'] + component
    } else {
        path + component
    }
}

pub fn push_path(path: &String, component: &str) -> (r: String)
    ensures
        r@ == path_push(path@, component@),
{
    let c = chars_of(component);
    let p = chars_of(path.as_str());
    if c.len() > 0 && c[0] == '/' {
        return owned(component);
    }
    let mut r = owned(path.as_str());
    if p.len() > 0 && p[p.len() - 1] != '/' {
        push_char(&mut r, '/');
    }
    push_str(&mut r, component);
    r
}

/// The nonempty runs of characters other than `/` in `s`, in order: the path
/// segments that `get_output_path` keeps.
pub open spec fn segments(s: Seq<char>) -> Seq<Seq<char>>
    decreases s.len(),
{
    if s.len() == 0 {
        seq![]
    } else {
        let prev = segments(s.drop_last());
        if s.last() == '/' {
            prev
        } else if s.len() >= 2 && s[s.len() - 2] != '/' {
            prev.drop_last().push(prev.last().push(s.last()))
        } else {
            prev.push(seq![s.last()])
        }
    }
}

/// `path` with each segment pushed after cleaning it for the filesystem.
pub open spec fn push_segments(path: Seq<char>, segs: Seq<Seq<char>>) -> Seq<char>
    decreases segs.len(),
{
    if segs.len() == 0 {
        path
    } else {
        path_push(push_segments(path, segs.drop_last()), clean_filename_spec(segs.last()))
    }
}

/// The directory part of the output path of `u`: the output directory, the host
/// and the cleaned path segments.
pub open spec fn output_base(c: ConfigView, u: UrlView) -> Seq<char> {
    let with_host = match u.host {
        Some(h) => path_push(c.output_dir, h),
        None => c.output_dir,
    };
    push_segments(with_host, segments(u.path))
}

/// Whether `std::path::Path::extension` finds an extension in `path`.
pub uninterp spec fn path_has_extension(path: Seq<char>) -> bool;

/// Calls `Path::extension` on the path. Claimed: the result is `path_has_extension`.
#[verifier::external_body]
fn call_path_has_extension(path: &str) -> (b: bool)
    ensures
        b == path_has_extension(path@),
{
    std::path::Path::new(path).extension().is_some()
}

/// Calls `Path::is_dir`, which asks the filesystem; nothing is claimed of the result.
#[verifier::external_body]
fn call_is_dir(path: &str) -> bool {
    std::path::Path::new(path).is_dir()
}

/// Where a URL whose path is `url_path` is stored, given the directory part
/// `base` and whether `base` is an existing directory: under "index.html" when
/// the URL path ends with `/`, when `base` is a directory or has no extension.
pub open spec fn finish_spec(base: Seq<char>, url_path: Seq<char>, base_is_dir: bool) -> Seq<char> {
    if ends_with(url_path, "/"@) || base_is_dir || !path_has_extension(base) {
        path_push(base, "index.html"@)
    } else {
        base
    }
}

/// The output path of a URL, given its directory part and whether that is an
/// existing directory.
pub fn finish_output_path(base: String, url_path: &str, base_is_dir: bool) -> (r: String)
    ensures
        r@ == finish_spec(base@, url_path@, base_is_dir),
{
    if ends_with_str(url_path, "/") || base_is_dir || !call_path_has_extension(base.as_str()) {
        push_path(&base, "index.html")
    } else {
        base
    }
}

impl Config {
    /// Checks the configuration; the first problem found is reported.
    pub fn validate(&self) -> (r: Result<(), TorDownloaderError>)
        ensures
            match config_problem(self@) {
                None => r is Ok,
                Some(p) => r matches Err(e) && reports(e, p),
            },
    {
        let u = match UrlParts::parse(self.url.as_str()) {
            Ok(u) => u,
            Err(e) => return Err(TorDownloaderError::UrlParse(e)),
        };
        if !str_eq(u.scheme.as_str(), "http") && !str_eq(u.scheme.as_str(), "https") {
            return Err(TorDownloaderError::InvalidUrl(owned("URL must use http or https scheme")));
        }
        match &u.host {
            Some(host) => {
                if !ends_with_str(host.as_str(), ".onion") {
                    return Err(TorDownloaderError::InvalidUrl(owned("URL must be a .onion address")));
                }
            },
            None => {
                return Err(TorDownloaderError::InvalidUrl(owned("URL must have a valid host")));
            },
        }
        if self.max_concurrent == 0 {
            return Err(
                TorDownloaderError::InvalidConfiguration(
                    owned("max_concurrent must be greater than 0"),
                ),
            );
        }
        if self.max_concurrent > 50 {
            return Err(
                TorDownloaderError::InvalidConfiguration(
                    owned("max_concurrent should not exceed 50 to avoid overwhelming the server"),
                ),
            );
        }
        if self.delay_ms > 60000 {
            return Err(
                TorDownloaderError::InvalidConfiguration(
                    owned("delay_ms should not exceed 60000ms (1 minute)"),
                ),
            );
        }
        if self.timeout_sec > 300 {
            return Err(
                TorDownloaderError::InvalidConfiguration(
                    owned("timeout_sec should not exceed 300s (5 minutes)"),
                ),
            );
        }
        if !has_char(self.proxy.as_str(), ':') {
            return Err(
                TorDownloaderError::InvalidConfiguration(
                    owned("proxy must be in format 'host:port'"),
                ),
            );
        }
        Ok(())
    }

    /// Whether the include and exclude patterns let `url` through.
    pub fn should_download_url(&self, url: &str) -> (b: bool)
        ensures
            b == should_download(self@, url@),
    {
        if self.include_patterns.len() > 0 {
            if !any_matches(&self.include_patterns, url) {
                return false;
            }
        }
        if self.exclude_patterns.len() > 0 {
            if any_matches(&self.exclude_patterns, url) {
                return false;
            }
        }
        true
    }

    /// The directory part of the output path of a parsed URL.
    fn output_base_path(&self, u: &UrlParts) -> (r: String)
        ensures
            r@ == output_base(self@, u@),
    {
        let mut path = match &u.host {
            Some(h) => push_path(&self.output_dir, h.as_str()),
            None => owned(self.output_dir.as_str()),
        };
        let ghost start = path@;
        let v = chars_of(u.path.as_str());
        let mut cur = String::new();
        let mut i: usize = 0;
        while i < v.len()
            invariant
                v@ == u.path@,
                i <= v.len(),
                start == (match u@.host {
                    Some(h) => path_push(self.output_dir@, h),
                    None => self.output_dir@,
                }),
                i > 0 && v@[i - 1] != '/' ==> {
                    &&& segments(v@.take(i as int)).len() > 0
                    &&& path@ == push_segments(start, segments(v@.take(i as int)).drop_last())
                    &&& cur@ == segments(v@.take(i as int)).last()
                },
                !(i > 0 && v@[i - 1] != '/') ==> path@ == push_segments(
                    start,
                    segments(v@.take(i as int)),
                ) && cur@.len() == 0,
            decreases v.len() - i,
        {
            let c = v[i];
            let ghost t = v@.take(i as int);
            assert(v@.take(i + 1).drop_last() =~= t);
            assert(v@.take(i + 1).last() == c);
            if c == '/' {
                if i > 0 && v[i - 1] != '/' {
                    let seg = clean_filename(cur.as_str());
                    path = push_path(&path, seg.as_str());
                    cur = String::new();
                    assert(segments(t) =~= segments(t).drop_last().push(segments(t).last()));
                }
            } else {
                let ghost old_cur = cur@;
                push_char(&mut cur, c);
                if i > 0 && v[i - 1] != '/' {
                    assert(v@.take(i + 1)[i - 1] == v@[i - 1]);
                    assert(segments(v@.take(i + 1)).drop_last() =~= segments(t).drop_last());
                    assert(segments(v@.take(i + 1)).last() =~= old_cur.push(c));
                } else {
                    assert(i > 0 ==> v@.take(i + 1)[i - 1] == v@[i - 1]);
                    assert(segments(v@.take(i + 1)).drop_last() =~= segments(t));
                    assert(segments(v@.take(i + 1)).last() =~= cur@);
                }
            }
            i = i + 1;
        }
        if i > 0 && v[i - 1] != '/' {
            let seg = clean_filename(cur.as_str());
            path = push_path(&path, seg.as_str());
            let ghost s = segments(v@.take(i as int));
            assert(s =~= s.drop_last().push(s.last()));
        }
        assert(v@.take(i as int) =~= u.path@);
        path
    }

    /// Where a downloaded URL is stored: output directory, host, cleaned path
    /// segments, and "index.html" for directory-like URLs. Whether the directory
    /// part already exists as a directory is asked of the filesystem.
    pub fn get_output_path(&self, url: &str) -> (r: Result<String, TorDownloaderError>)
        ensures
            match url_parse(url@) {
                Err(m) => r matches Err(e) && e matches TorDownloaderError::UrlParse(x) && x@ == m,
                Ok(u) => r matches Ok(p) && (p@ == finish_spec(output_base(self@, u), u.path, true)
                    || p@ == finish_spec(output_base(self@, u), u.path, false)),
            },
    {
        let u = match UrlParts::parse(url) {
            Ok(u) => u,
            Err(e) => return Err(TorDownloaderError::UrlParse(e)),
        };
        let base = self.output_base_path(&u);
        let is_dir = call_is_dir(base.as_str());
        Ok(finish_output_path(base, u.path.as_str(), is_dir))
    }
}

/// The values given on the command line, as text where a number is expected.
#[derive(Clone, Debug)]
pub struct CliValues {
    pub url: Option<String>,
    pub output: String,
    pub depth: String,
    pub jobs: String,
    pub delay: String,
    pub retries: String,
    pub timeout: String,
    pub proxy: String,
    pub user_agent: String,
    pub include_patterns: Vec<String>,
    pub exclude_patterns: Vec<String>,
    pub quiet: bool,
    pub verbose: bool,
    pub continue_download: bool,
    pub dry_run: bool,
    pub monitor: bool,
}

/// The numbers of the command line, read in order: depth, jobs, delay,
/// retries, timeout; the first that does not parse gives its error.
pub open spec fn cli_numbers(v: CliValues) -> Result<(nat, nat, nat, nat, nat), IntErrorKind> {
    match parse_unsigned(v.depth@, usize::MAX as nat) {
        Err(e) => Err(e),
        Ok(depth) => match parse_unsigned(v.jobs@, usize::MAX as nat) {
            Err(e) => Err(e),
            Ok(jobs) => match parse_unsigned(v.delay@, u64::MAX as nat) {
                Err(e) => Err(e),
                Ok(delay) => match parse_unsigned(v.retries@, usize::MAX as nat) {
                    Err(e) => Err(e),
                    Ok(retries) => match parse_unsigned(v.timeout@, u64::MAX as nat) {
                        Err(e) => Err(e),
                        Ok(timeout) => Ok((depth, jobs, delay, retries, timeout)),
                    },
                },
            },
        },
    }
}

fn parse_field(text: &String, max: u64) -> (r: Result<u64, TorDownloaderError>)
    ensures
        match parse_unsigned(text@, max as nat) {
            Ok(n) => r matches Ok(x) && x == n,
            Err(k) => r matches Err(e) && e matches TorDownloaderError::ParseInt(k2) && k2 == k,
        },
{
    match parse_unsigned_exec(text.as_str(), max) {
        Ok(v) => Ok(v),
        Err(k) => Err(TorDownloaderError::ParseInt(k)),
    }
}

impl Config {
    /// The configuration that the command line gives: the URL (the default
    /// one when none is given), the settings, and the numbers parsed from text.
    pub fn from_cli(values: CliValues) -> (r: Result<Config, TorDownloaderError>)
        ensures
            match cli_numbers(values) {
                Err(k) => r matches Err(e) && e matches TorDownloaderError::ParseInt(k2) && k2 == k,
                Ok((depth, jobs, delay, retries, timeout)) => r matches Ok(c) && c@ == (ConfigView {
                    url: match values.url {
                        Some(u) => u@,
                        None => default_config().url,
                    },
                    output_dir: values.output@,
                    max_depth: depth as usize,
                    max_concurrent: jobs as usize,
                    delay_ms: delay as u64,
                    max_retries: retries as usize,
                    timeout_sec: timeout as u64,
                    proxy: values.proxy@,
                    user_agent: values.user_agent@,
                    include_patterns: string_views(values.include_patterns@),
                    exclude_patterns: string_views(values.exclude_patterns@),
                    quiet: values.quiet,
                    verbose: values.verbose,
                    continue_download: values.continue_download,
                    dry_run: values.dry_run,
                    monitor: values.monitor,
                }),
            },
    {
        let url = match &values.url {
            Some(u) => owned(u.as_str()),
            None => Config::default().url,
        };
        let max_depth = parse_field(&values.depth, usize::MAX as u64)? as usize;
        let max_concurrent = parse_field(&values.jobs, usize::MAX as u64)? as usize;
        let delay_ms = parse_field(&values.delay, u64::MAX)?;
        let max_retries = parse_field(&values.retries, usize::MAX as u64)? as usize;
        let timeout_sec = parse_field(&values.timeout, u64::MAX)?;
        let c = Config {
            url,
            output_dir: values.output,
            max_depth,
            max_concurrent,
            delay_ms,
            max_retries,
            timeout_sec,
            proxy: values.proxy,
            user_agent: values.user_agent,
            include_patterns: values.include_patterns,
            exclude_patterns: values.exclude_patterns,
            quiet: values.quiet,
            verbose: values.verbose,
            continue_download: values.continue_download,
            dry_run: values.dry_run,
            monitor: values.monitor,
        };
        Ok(c)
    }
}

/// The address of the SOCKS5 proxy through which every request goes, with
/// host names resolved by the proxy (so by Tor).
pub fn socks_proxy_url(proxy: &str) -> (r: String)
    ensures
        r@ == "socks5h://"@ + proxy@,
{
    let mut r = owned("socks5h://");
    push_str(&mut r, proxy);
    r
}

/// A URL that an exclude pattern matches is never downloaded, whatever the
/// include patterns say.
pub proof fn lemma_exclude_wins(c: ConfigView, url: Seq<char>)
    requires
        any_pattern_matches(c.exclude_patterns, url),
    ensures
        !should_download(c, url),
{
}

/// Without include or exclude patterns every URL is downloaded.
pub proof fn lemma_no_patterns_download_all(c: ConfigView, url: Seq<char>)
    requires
        c.include_patterns.len() == 0,
        c.exclude_patterns.len() == 0,
    ensures
        should_download(c, url),
{
}

/// A URL is downloaded exactly when some include pattern compiles and matches
/// it (or there is no include pattern) and no exclude pattern compiles and
/// matches it; which include pattern matches, and where it stands in the
/// list, does not matter.
pub proof fn lemma_should_download_iff(c: ConfigView, url: Seq<char>)
    ensures
        should_download(c, url) <==> ((c.include_patterns.len() == 0 || exists|i: int|
            0 <= i < c.include_patterns.len() && regex_match(#[trigger] c.include_patterns[i], url)
                == Some(true)) && forall|j: int|
            0 <= j < c.exclude_patterns.len() ==> regex_match(#[trigger] c.exclude_patterns[j], url)
                != Some(true)),
{
}

/// Reordering the include patterns does not change which URLs are downloaded.
pub proof fn lemma_include_order_irrelevant(c: ConfigView, d: ConfigView, url: Seq<char>)
    requires
        c.include_patterns.to_set() == d.include_patterns.to_set(),
        c.include_patterns.len() == d.include_patterns.len(),
        c.exclude_patterns == d.exclude_patterns,
    ensures
        should_download(c, url) == should_download(d, url),
{
    lemma_should_download_iff(c, url);
    lemma_should_download_iff(d, url);
    if exists|i: int|
        0 <= i < c.include_patterns.len() && regex_match(#[trigger] c.include_patterns[i], url)
            == Some(true) {
        let i = choose|i: int|
            0 <= i < c.include_patterns.len() && regex_match(#[trigger] c.include_patterns[i], url)
                == Some(true);
        assert(c.include_patterns.to_set().contains(c.include_patterns[i]));
        assert(d.include_patterns.to_set().contains(c.include_patterns[i]));
        let k = choose|k: int| 0 <= k < d.include_patterns.len() && d.include_patterns[k] == c.include_patterns[i];
        assert(regex_match(d.include_patterns[k], url) == Some(true));
    }
    if exists|i: int|
        0 <= i < d.include_patterns.len() && regex_match(#[trigger] d.include_patterns[i], url)
            == Some(true) {
        let i = choose|i: int|
            0 <= i < d.include_patterns.len() && regex_match(#[trigger] d.include_patterns[i], url)
                == Some(true);
        assert(d.include_patterns.to_set().contains(d.include_patterns[i]));
        assert(c.include_patterns.to_set().contains(d.include_patterns[i]));
        let k = choose|k: int| 0 <= k < c.include_patterns.len() && c.include_patterns[k] == d.include_patterns[i];
        assert(regex_match(c.include_patterns[k], url) == Some(true));
    }
}

/// A configuration whose URL parses with scheme http or https and a host
/// ending in ".onion", with 1 to 50 concurrent downloads, a delay of at most
/// 60000 ms, a timeout of at most 300 s and a `:` in the proxy, validates.
pub proof fn lemma_valid_config_accepted(c: ConfigView)
    requires
        url_parse(c.url) matches Ok(u) && (u.scheme == "http"@ || u.scheme == "https"@) && (
        u.host matches Some(h) && ends_with(h, ".onion"@)),
        1 <= c.max_concurrent <= 50,
        c.delay_ms <= 60000,
        c.timeout_sec <= 300,
        c.proxy.contains(':'),
    ensures
        config_problem(c) is None,
{
}

/// The path segments of a URL path are nonempty and hold no `/`.
pub proof fn lemma_segments_shape(s: Seq<char>)
    ensures
        forall|i: int|
            0 <= i < segments(s).len() ==> (#[trigger] segments(s)[i]).len() > 0 && !segments(
                s,
            )[i].contains('/'),
    decreases s.len(),
{
    if s.len() > 0 {
        lemma_segments_shape(s.drop_last());
        let prev = segments(s.drop_last());
        let w = segments(s);
        assert forall|i: int| 0 <= i < w.len() implies (#[trigger] w[i]).len() > 0 && !w[i].contains('/') by {
            if s.last() == '/' || i < prev.len() - 1 || (i < prev.len() && w.len() > prev.len()) {
                assert(w[i] == prev[i]);
            } else if w.len() > prev.len() {
                assert(w[i] == seq![s.last()]);
            } else {
                assert(w[i] == prev[i].push(s.last()));
                if w[i].contains('/') {
                    let k = choose|k: int| 0 <= k < w[i].len() && w[i][k] == '/';
                    assert(prev[i][k] == '/');
                }
            }
        }
    }
}

/// A URL whose path ends with `/`, or whose directory part is an existing
/// directory, is stored as "index.html" inside it; otherwise a directory part
/// with an extension is the file itself and one without gets "index.html".
pub proof fn lemma_output_file(base: Seq<char>, url_path: Seq<char>, base_is_dir: bool)
    requires
        base.len() > 0,
        base.last() != '/',
    ensures
        ends_with(url_path, "/"@) || base_is_dir || !path_has_extension(base) ==> finish_spec(
            base,
            url_path,
            base_is_dir,
        ) == base + "/index.html"@,
        !ends_with(url_path, "/"@) && !base_is_dir && path_has_extension(base) ==> finish_spec(
            base,
            url_path,
            base_is_dir,
        ) == base,
{
    reveal_strlit("index.html");
    reveal_strlit("/index.html");
    assert(base + seq!['/'] + "index.html"@ =~= base + "/index.html"@);
}

/// The default configuration uses the library's default values: depth 5, 8
/// concurrent downloads, 1000 ms between requests, 3 retries, a 30 s timeout,
/// the local Tor proxy, no patterns and every switch off.
pub proof fn lemma_default_values()
    ensures
        default_config().max_depth == crate::defaults::MAX_DEPTH,
        default_config().max_concurrent == crate::defaults::MAX_CONCURRENT,
        default_config().delay_ms == crate::defaults::DELAY_MS,
        default_config().max_retries == crate::defaults::MAX_RETRIES,
        default_config().timeout_sec == crate::defaults::TIMEOUT_SEC,
        default_config().proxy == crate::defaults::TOR_PROXY@,
        default_config().user_agent == crate::defaults::USER_AGENT@,
        default_config().output_dir == crate::defaults::OUTPUT_DIR@,
        default_config().include_patterns.len() == 0,
        default_config().exclude_patterns.len() == 0,
        !default_config().quiet && !default_config().verbose && !default_config().continue_download
            && !default_config().dry_run && !default_config().monitor,
        limits_problem(default_config()) is None,
{
    reveal_strlit("127.0.0.1:9050");
    assert(default_config().proxy[9] == ':');
}

/// The path segments, each cleaned for the filesystem.
pub open spec fn cleaned(segs: Seq<Seq<char>>) -> Seq<Seq<char>> {
    segs.map_values(|g: Seq<char>| clean_filename_spec(g))
}

proof fn lemma_push_segments_join(path: Seq<char>, segs: Seq<Seq<char>>)
    requires
        path.len() > 0,
        path.last() != '/',
        forall|i: int| 0 <= i < segs.len() ==> (#[trigger] segs[i]).len() > 0 && !segs[i].contains('/'),
    ensures
        push_segments(path, segs) == join(seq![path] + cleaned(segs), seq!['/']),
        push_segments(path, segs).len() > 0,
        push_segments(path, segs).last() != '/',
    decreases segs.len(),
{
    if segs.len() > 0 {
        let prev = segs.drop_last();
        assert forall|i: int| 0 <= i < prev.len() implies (#[trigger] prev[i]).len() > 0 && !prev[i].contains('/') by {
            assert(prev[i] == segs[i]);
        }
        lemma_push_segments_join(path, prev);
        let g = segs.last();
        assert(g == segs[segs.len() - 1]);
        let cg = clean_filename_spec(g);
        assert(cg.len() == g.len());
        assert(cg[0] == g[0] || cg[0] == '_');
        assert(g[0] != '/') by {
            if g[0] == '/' {
                assert(g.contains('/'));
            }
        }
        assert(cg.last() == g.last() || cg.last() == '_');
        assert(g.last() != '/') by {
            if g.last() == '/' {
                assert(g[g.len() - 1] == '/');
            }
        }
        let all = seq![path] + cleaned(segs);
        assert(all.drop_last() =~= seq![path] + cleaned(prev));
        assert(all.last() == cg);
    } else {
        assert(seq![path] + cleaned(segs) =~= seq![path]);
    }
}

/// Where a URL with a host goes: the output directory, the host, and the
/// cleaned path segments, one after the other with a `/` between them.
pub proof fn lemma_output_base(c: ConfigView, u: UrlView, h: Seq<char>)
    requires
        u.host == Some(h),
        c.output_dir.len() > 0,
        c.output_dir.last() != '/',
        h.len() > 0,
        h[0] != '/',
        h.last() != '/',
    ensures
        output_base(c, u) == join(seq![c.output_dir, h] + cleaned(segments(u.path)), "/"@),
{
    reveal_strlit("/");
    lemma_segments_shape(u.path);
    let start = path_push(c.output_dir, h);
    assert(start == c.output_dir + seq!['/'] + h);
    lemma_push_segments_join(start, segments(u.path));
    lemma_join_front(c.output_dir, h, cleaned(segments(u.path)));
    assert("/"@ =~= seq!['/']);
}

proof fn lemma_join_front(a: Seq<char>, b: Seq<char>, rest: Seq<Seq<char>>)
    ensures
        join(seq![a + seq!['/'] + b] + rest, seq!['/']) == join(seq![a, b] + rest, seq!['/']),
    decreases rest.len(),
{
    if rest.len() > 0 {
        lemma_join_front(a, b, rest.drop_last());
        assert((seq![a + seq!['/'] + b] + rest).drop_last() =~= seq![a + seq!['/'] + b] + rest.drop_last());
        assert((seq![a, b] + rest).drop_last() =~= seq![a, b] + rest.drop_last());
        assert((seq![a + seq!['/'] + b] + rest).last() == rest.last());
        assert((seq![a, b] + rest).last() == rest.last());
    } else {
        assert(seq![a + seq!['/'] + b] + rest =~= seq![a + seq!['/'] + b]);
        assert(seq![a, b] + rest =~= seq![a, b]);
        assert(seq![a, b].drop_last() =~= seq![a]);
        assert(seq![a, b].last() == b);
        assert(join(seq![a], seq!['/']) == a);
        assert(join(seq![a, b], seq!['/']) == join(seq![a], seq!['/']) + seq!['/'] + b);
        assert(join(seq![a + seq!['/'] + b], seq!['/']) == a + seq!['/'] + b);
    }
}

/// The command line's numbers are read with `str::parse` from the depth, jobs,
/// delay, retries and timeout texts; when they all read, those are the
/// numbers, and a depth that does not read is reported with its error.
pub proof fn lemma_cli_numbers(v: CliValues)
    ensures
        parse_unsigned(v.depth@, usize::MAX as nat) is Ok && parse_unsigned(v.jobs@, usize::MAX as nat) is Ok
            && parse_unsigned(v.delay@, u64::MAX as nat) is Ok && parse_unsigned(
            v.retries@,
            usize::MAX as nat,
        ) is Ok && parse_unsigned(v.timeout@, u64::MAX as nat) is Ok ==> cli_numbers(v) == Ok::<
            (nat, nat, nat, nat, nat),
            IntErrorKind,
        >(
            (
                parse_unsigned(v.depth@, usize::MAX as nat)->Ok_0,
                parse_unsigned(v.jobs@, usize::MAX as nat)->Ok_0,
                parse_unsigned(v.delay@, u64::MAX as nat)->Ok_0,
                parse_unsigned(v.retries@, usize::MAX as nat)->Ok_0,
                parse_unsigned(v.timeout@, u64::MAX as nat)->Ok_0,
            ),
        ),
        parse_unsigned(v.depth@, usize::MAX as nat) matches Err(k) ==> cli_numbers(v) == Err::<
            (nat, nat, nat, nat, nat),
            IntErrorKind,
        >(k),
        cli_numbers(v) is Err <==> (parse_unsigned(v.depth@, usize::MAX as nat) is Err || parse_unsigned(
            v.jobs@,
            usize::MAX as nat,
        ) is Err || parse_unsigned(v.delay@, u64::MAX as nat) is Err || parse_unsigned(
            v.retries@,
            usize::MAX as nat,
        ) is Err || parse_unsigned(v.timeout@, u64::MAX as nat) is Err),
{
}

/// A configuration that validates targets a .onion URL over http(s) and keeps
/// its limits.
pub proof fn lemma_valid_config(c: ConfigView)
    requires
        config_problem(c) is None,
    ensures
        is_onion_url_spec(c.url),
        url_parse(c.url) matches Ok(u) && (u.scheme == "http"@ || u.scheme == "https"@),
        1 <= c.max_concurrent <= 50,
        c.delay_ms <= 60000,
        c.timeout_sec <= 300,
        c.proxy.contains(':'),
{
}

} // verus!
