//! Recursive downloader for .onion sites: the verified core.
use vstd::prelude::*;

pub mod config;
pub mod defaults;
pub mod crawler;
pub mod downloader;
pub mod errors;
pub mod monitor;
pub mod parser;
pub mod text;
pub mod tui;
pub mod urls;
pub mod utils;

pub use config::Config;
pub use crawler::CrawlState;
pub use downloader::{DownloadResult, DownloadStats};
pub use errors::TorDownloaderError;
pub use parser::{HtmlParser, ParsedUrl, UrlType};

verus! {

} // verus!
