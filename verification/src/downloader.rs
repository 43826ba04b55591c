//! The decisions of a download: retries with backoff, what a response means,
//! and the counters of the downloads made.
use vstd::prelude::*;
use crate::errors::TorDownloaderError;
use crate::text::{decimal, owned, push_decimal, push_str};
use crate::urls::opt_view;
use crate::utils::two_pow;

verus! {

/// The outcome of downloading one URL.
#[derive(Clone, Debug)]
pub struct DownloadResult {
    pub url: String,
    pub content_type: Option<String>,
    pub content_length: Option<u64>,
    pub success: bool,
    pub error: Option<String>,
}

/// The mathematical value of a [`DownloadResult`].
pub struct DownloadResultView {
    pub url: Seq<char>,
    pub content_type: Option<Seq<char>>,
    pub content_length: Option<u64>,
    pub success: bool,
    pub error: Option<Seq<char>>,
}

impl View for DownloadResult {
    type V = DownloadResultView;

    open spec fn view(&self) -> DownloadResultView {
        DownloadResultView {
            url: self.url@,
            content_type: opt_view(self.content_type),
            content_length: self.content_length,
            success: self.success,
            error: opt_view(self.error),
        }
    }
}

/// Counters of the requests made.
#[derive(Clone, Copy, Debug)]
pub struct DownloadStats {
    pub total_requests: usize,
    pub successful_downloads: usize,
    pub failed_downloads: usize,
    pub bytes_downloaded: u64,
    pub retry_count: usize,
}

impl Default for DownloadStats {
    fn default() -> (s: Self)
        ensures
            s.total_requests == 0,
            s.successful_downloads == 0,
            s.failed_downloads == 0,
            s.bytes_downloaded == 0,
            s.retry_count == 0,
    {
        DownloadStats {
            total_requests: 0,
            successful_downloads: 0,
            failed_downloads: 0,
            bytes_downloaded: 0,
            retry_count: 0,
        }
    }
}

impl DownloadStats {
    /// Counts the request of attempt number `attempt` (1 for the first); later
    /// attempts count as retries.
    pub fn record_request(&mut self, attempt: usize)
        requires
            old(self).total_requests < usize::MAX,
            attempt > 1 ==> old(self).retry_count < usize::MAX,
        ensures
            final(self).total_requests == old(self).total_requests + 1,
            final(self).retry_count == old(self).retry_count + if attempt > 1 {
                1int
            } else {
                0int
            },
            final(self).successful_downloads == old(self).successful_downloads,
            final(self).failed_downloads == old(self).failed_downloads,
            final(self).bytes_downloaded == old(self).bytes_downloaded,
    {
        self.total_requests = self.total_requests + 1;
        if attempt > 1 {
            self.retry_count = self.retry_count + 1;
        }
    }

    /// Counts a finished download: a successful one adds one success and its
    /// length, a failed one changes nothing.
    pub fn record_result(&mut self, result: &DownloadResult)
        requires
            result.success ==> old(self).successful_downloads < usize::MAX,
            result.success ==> match result.content_length {
                Some(n) => old(self).bytes_downloaded + n <= u64::MAX,
                None => true,
            },
        ensures
            final(self).successful_downloads == old(self).successful_downloads + if result.success {
                1int
            } else {
                0int
            },
            final(self).bytes_downloaded == old(self).bytes_downloaded + if result.success {
                match result.content_length {
                    Some(n) => n as int,
                    None => 0int,
                }
            } else {
                0int
            },
            final(self).total_requests == old(self).total_requests,
            final(self).failed_downloads == old(self).failed_downloads,
            final(self).retry_count == old(self).retry_count,
    {
        if result.success {
            self.successful_downloads = self.successful_downloads + 1;
            match result.content_length {
                Some(size) => {
                    self.bytes_downloaded = self.bytes_downloaded + size;
                },
                None => {},
            }
        }
    }
}

/// The wait before attempt `attempts + 1`: the configured delay doubled for each
/// attempt after the first, plus a jitter below one second taken from `random`.
pub open spec fn backoff_spec(delay_ms: u64, attempts: nat, random: u64) -> int {
    delay_ms * two_pow((attempts - 1) as nat) + random % 1000
}

/// `2^e` as a `u64`.
fn pow2_u64(e: usize) -> (p: u64)
    requires
        e <= 63,
    ensures
        p as nat == two_pow(e as nat),
{
    let mut p: u64 = 1;
    let mut k: usize = 0;
    while k < e
        invariant
            k <= e <= 63,
            p as nat == two_pow(k as nat),
        decreases e - k,
    {
        assert(two_pow((k + 1) as nat) == 2 * two_pow(k as nat));
        assert(p <= 0x4000_0000_0000_0000) by {
            lemma_two_pow_bound(k as nat);
        }
        p = p * 2;
        k = k + 1;
    }
    p
}

/// Computes the backoff delay in milliseconds.
pub fn backoff_delay_ms(delay_ms: u64, attempts: usize, random: u64) -> (d: u64)
    requires
        1 <= attempts <= 64,
        backoff_spec(delay_ms, attempts as nat, random) <= u64::MAX,
    ensures
        d == backoff_spec(delay_ms, attempts as nat, random),
{
    let p = pow2_u64(attempts - 1);
    assert(delay_ms as int * p as int <= u64::MAX) by (nonlinear_arith)
        requires
            delay_ms as int * p as int + random as int % 1000 <= u64::MAX,
            0 <= random as int % 1000,
    ;
    delay_ms * p + random % 1000
}

/// Whether the backoff delay of attempt `attempts` can be computed: there has
/// been an attempt, at most 64, and the delay fits in a `u64`.
pub fn backoff_fits(delay_ms: u64, attempts: usize, random: u64) -> (b: bool)
    ensures
        b == (1 <= attempts <= 64 && backoff_spec(delay_ms, attempts as nat, random) <= u64::MAX),
{
    if attempts < 1 || attempts > 64 {
        return false;
    }
    let p = pow2_u64(attempts - 1);
    match delay_ms.checked_mul(p) {
        Some(d) => d.checked_add(random % 1000).is_some(),
        None => {
            assert(delay_ms as int * p as int + random as int % 1000 > u64::MAX) by (nonlinear_arith)
                requires
                    delay_ms as int * p as int > u64::MAX,
                    0 <= random as int % 1000,
            ;
            false
        },
    }
}

/// `2^e <= 2^62` for `e <= 62`.
proof fn lemma_two_pow_bound(e: nat)
    requires
        e <= 62,
    ensures
        two_pow(e) <= 0x4000_0000_0000_0000,
    decreases e,
{
    lemma_two_pow_mono(e, 62);
    reveal_with_fuel(two_pow, 63);
    assert(two_pow(62) == 0x4000_0000_0000_0000);
}

proof fn lemma_two_pow_mono(a: nat, b: nat)
    requires
        a <= b,
    ensures
        two_pow(a) <= two_pow(b),
    decreases b,
{
    if a < b {
        lemma_two_pow_mono(a, (b - 1) as nat);
    }
}

/// What to do after an attempt of a download failed with an error.
#[derive(Debug)]
pub enum RetryAction {
    /// Give up with this result.
    GiveUp(DownloadResult),
    /// Try again after this many milliseconds.
    RetryAfter(u64),
}

/// The attempts made at one download, and how many are allowed.
#[derive(Clone, Copy, Debug)]
pub struct RetryState {
    pub attempts: usize,
    pub max_attempts: usize,
}

/// The result given when a download fails on every attempt.
pub open spec fn exhausted_result(url: Seq<char>, error_message: Seq<char>) -> DownloadResultView {
    DownloadResultView {
        url: url,
        content_type: None,
        content_length: None,
        success: false,
        error: Some("Max retries exceeded: "@ + error_message),
    }
}

impl RetryState {
    /// No attempt made yet; `max_retries + 1` attempts allowed.
    pub fn new(max_retries: usize) -> (s: RetryState)
        requires
            max_retries < usize::MAX,
        ensures
            s.attempts == 0,
            s.max_attempts == max_retries + 1,
    {
        RetryState { attempts: 0, max_attempts: max_retries + 1 }
    }

    /// Starts the next attempt; returns its number.
    pub fn start_attempt(&mut self) -> (n: usize)
        requires
            old(self).attempts < usize::MAX,
        ensures
            final(self).attempts == old(self).attempts + 1,
            final(self).max_attempts == old(self).max_attempts,
            n == final(self).attempts,
    {
        self.attempts = self.attempts + 1;
        self.attempts
    }

    /// After the current attempt failed with `error_message`: when no attempt
    /// is left, counts the failure and gives up with a "Max retries exceeded"
    /// result; otherwise retries after the backoff delay.
    pub fn after_error(
        &self,
        url: &str,
        error_message: &str,
        stats: &mut DownloadStats,
        delay_ms: u64,
        random: u64,
    ) -> (a: RetryAction)
        requires
            self.attempts >= 1,
            self.attempts >= self.max_attempts ==> old(stats).failed_downloads < usize::MAX,
            self.attempts < self.max_attempts ==> self.attempts <= 64 && backoff_spec(
                delay_ms,
                self.attempts as nat,
                random,
            ) <= u64::MAX,
        ensures
            self.attempts >= self.max_attempts ==> {
                &&& a matches RetryAction::GiveUp(r) && r@ == exhausted_result(url@, error_message@)
                &&& *final(stats) == (DownloadStats {
                    failed_downloads: (old(stats).failed_downloads + 1) as usize,
                    ..*old(stats)
                })
            },
            self.attempts < self.max_attempts ==> {
                &&& a matches RetryAction::RetryAfter(d) && d == backoff_spec(
                    delay_ms,
                    self.attempts as nat,
                    random,
                )
                &&& *final(stats) == *old(stats)
            },
    {
        if self.attempts >= self.max_attempts {
            stats.failed_downloads = stats.failed_downloads + 1;
            let mut msg = owned("Max retries exceeded: ");
            push_str(&mut msg, error_message);
            RetryAction::GiveUp(
                DownloadResult {
                    url: owned(url),
                    content_type: None,
                    content_length: None,
                    success: false,
                    error: Some(msg),
                },
            )
        } else {
            RetryAction::RetryAfter(backoff_delay_ms(delay_ms, self.attempts, random))
        }
    }
}

/// Whether an HTTP status code means success (`2xx`).
pub open spec fn is_success_status(status: u16) -> bool {
    200 <= status < 300
}

pub fn status_is_success(status: u16) -> (b: bool)
    ensures
        b == is_success_status(status),
{
    200 <= status && status < 300
}

/// The result of a URL that the include/exclude patterns keep out.
pub fn filtered_result(url: &str) -> (r: DownloadResult)
    ensures
        r@ == (DownloadResultView {
            url: url@,
            content_type: None,
            content_length: None,
            success: false,
            error: Some("URL filtered out by include/exclude patterns"@),
        }),
{
    DownloadResult {
        url: owned(url),
        content_type: None,
        content_length: None,
        success: false,
        error: Some(owned("URL filtered out by include/exclude patterns")),
    }
}

/// What a response's status decides before its body is read: a failure for a
/// status other than `2xx` (with the status as text, such as "404 Not Found"),
/// a success without body in a dry run, or `None` when the body is to be read.
pub open spec fn response_outcome_spec(
    url: Seq<char>,
    status: u16,
    status_text: Seq<char>,
    content_type: Option<Seq<char>>,
    content_length: Option<u64>,
    dry_run: bool,
) -> Option<DownloadResultView> {
    if !is_success_status(status) {
        Some(
            DownloadResultView {
                url: url,
                content_type: content_type,
                content_length: content_length,
                success: false,
                error: Some("HTTP error: "@ + status_text),
            },
        )
    } else if dry_run {
        Some(
            DownloadResultView {
                url: url,
                content_type: content_type,
                content_length: content_length,
                success: true,
                error: None,
            },
        )
    } else {
        None
    }
}

pub open spec fn opt_result_view(r: Option<DownloadResult>) -> Option<DownloadResultView> {
    match r {
        Some(x) => Some(x@),
        None => None,
    }
}

/// Decides on a response from its status.
pub fn response_outcome(
    url: &str,
    status: u16,
    status_text: &str,
    content_type: Option<String>,
    content_length: Option<u64>,
    dry_run: bool,
) -> (r: Option<DownloadResult>)
    ensures
        opt_result_view(r) == response_outcome_spec(
            url@,
            status,
            status_text@,
            opt_view(content_type),
            content_length,
            dry_run,
        ),
{
    if !status_is_success(status) {
        let mut msg = owned("HTTP error: ");
        push_str(&mut msg, status_text);
        Some(
            DownloadResult {
                url: owned(url),
                content_type,
                content_length,
                success: false,
                error: Some(msg),
            },
        )
    } else if dry_run {
        Some(DownloadResult { url: owned(url), content_type, content_length, success: true, error: None })
    } else {
        None
    }
}

/// The result of a URL whose body of `body_len` bytes was read.
pub fn downloaded_result(url: &str, content_type: Option<String>, body_len: u64) -> (r: DownloadResult)
    ensures
        r@ == (DownloadResultView {
            url: url@,
            content_type: opt_view(content_type),
            content_length: Some(body_len),
            success: true,
            error: None,
        }),
{
    DownloadResult {
        url: owned(url),
        content_type,
        content_length: Some(body_len),
        success: true,
        error: None,
    }
}

/// Whether the connection test accepts a status: success, 403 or 404.
pub open spec fn connection_test_accepts(status: u16) -> bool {
    is_success_status(status) || status == 403 || status == 404
}

/// The outcome of the connection test for the status of the target URL.
pub fn connection_test_outcome(status: u16) -> (r: Result<(), TorDownloaderError>)
    ensures
        connection_test_accepts(status) ==> r is Ok,
        !connection_test_accepts(status) ==> (r matches Err(e) && e matches TorDownloaderError::Connection(
            m,
        ) && m@ == "Connection test failed with status: "@ + decimal(status as nat)),
{
    if status_is_success(status) || status == 403 || status == 404 {
        Ok(())
    } else {
        let mut msg = owned("Connection test failed with status: ");
        push_decimal(&mut msg, status as u128);
        Err(TorDownloaderError::Connection(msg))
    }
}

/// The first retry waits the configured delay plus the jitter `random % 1000`,
/// which stays below one second.
pub proof fn lemma_first_backoff(delay_ms: u64, random: u64)
    ensures
        backoff_spec(delay_ms, 1, random) == delay_ms + random % 1000,
        delay_ms <= backoff_spec(delay_ms, 1, random) < delay_ms + 1000,
{
    assert(((1nat - 1) as nat) == 0nat);
    assert(two_pow(0) == 1);
    assert(delay_ms * two_pow(0) == delay_ms);
}

/// A response whose status is not in 200..=299 is a failed download that
/// keeps the content type and length and reports "HTTP error: " and the
/// status text; a status in 200..=299 is a success without body in a dry run
/// and otherwise leaves the body to be read.
pub proof fn lemma_response_outcome(
    url: Seq<char>,
    status: u16,
    status_text: Seq<char>,
    content_type: Option<Seq<char>>,
    content_length: Option<u64>,
    dry_run: bool,
)
    ensures
        !(200 <= status && status <= 299) ==> response_outcome_spec(
            url,
            status,
            status_text,
            content_type,
            content_length,
            dry_run,
        ) == Some(
            DownloadResultView {
                url: url,
                content_type: content_type,
                content_length: content_length,
                success: false,
                error: Some("HTTP error: "@ + status_text),
            },
        ),
        200 <= status <= 299 && dry_run ==> response_outcome_spec(
            url,
            status,
            status_text,
            content_type,
            content_length,
            dry_run,
        ) == Some(
            DownloadResultView {
                url: url,
                content_type: content_type,
                content_length: content_length,
                success: true,
                error: None,
            },
        ),
        200 <= status <= 299 && !dry_run ==> response_outcome_spec(
            url,
            status,
            status_text,
            content_type,
            content_length,
            dry_run,
        ) is None,
{
}

/// The connection test passes exactly for the statuses 200..=299, 403 and 404.
pub proof fn lemma_connection_test_statuses(status: u16)
    ensures
        connection_test_accepts(status) <==> (200 <= status <= 299 || status == 403 || status
            == 404),
{
}

/// A download that used up its attempts is a failure for its URL, without
/// content type or length, whose error is "Max retries exceeded: " and the
/// last error.
pub proof fn lemma_exhausted_result(url: Seq<char>, error_message: Seq<char>)
    ensures
        exhausted_result(url, error_message).url == url,
        !exhausted_result(url, error_message).success,
        exhausted_result(url, error_message).content_type is None,
        exhausted_result(url, error_message).content_length is None,
        exhausted_result(url, error_message).error == Some("Max retries exceeded: "@ + error_message),
{
}

/// Each retry waits twice as long as the one before, apart from the jitter.
pub proof fn lemma_backoff_doubles(delay_ms: u64, attempts: nat, random: u64)
    requires
        attempts >= 1,
    ensures
        backoff_spec(delay_ms, attempts + 1, random) - random % 1000 == 2 * (backoff_spec(
            delay_ms,
            attempts,
            random,
        ) - random % 1000),
        0 <= random % 1000 < 1000,
{
    let p = two_pow((attempts - 1) as nat);
    assert(two_pow(attempts) == 2 * p);
    assert(delay_ms * (2 * p) == 2 * (delay_ms * p)) by (nonlinear_arith);
}

} // verus!
