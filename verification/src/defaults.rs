//! Default configuration values.
use vstd::prelude::*;

verus! {

/// Default maximum recursion depth
pub const MAX_DEPTH: usize = 5;

/// Default number of concurrent downloads
pub const MAX_CONCURRENT: usize = 8;

/// Default delay between requests in milliseconds
pub const DELAY_MS: u64 = 1000;

/// Default maximum number of retries per request
pub const MAX_RETRIES: usize = 3;

/// Default request timeout in seconds
pub const TIMEOUT_SEC: u64 = 30;

/// Default Tor SOCKS5 proxy address
pub const TOR_PROXY: &'static str = "127.0.0.1:9050";

/// Default User-Agent string
pub const USER_AGENT: &'static str = "Mozilla/5.0 (Windows NT 10.0; rv:102.0) Gecko/20100101 Firefox/102.0";

/// Default output directory
pub const OUTPUT_DIR: &'static str = "./downloaded_site";

} // verus!
