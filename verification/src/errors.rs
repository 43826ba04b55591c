//! The library's error type and its constructors.
use vstd::prelude::*;
use crate::text::{owned, push_str};
use crate::urls::UrlError;

verus! {

/// Why `str::parse` refused a number (the kinds of `std::num::IntErrorKind`
/// that parsing an unsigned integer can give).
#[derive(Clone, Copy, Debug, PartialEq, Eq, Structural)]
pub enum IntErrorKind {
    Empty,
    InvalidDigit,
    PosOverflow,
}

/// Errors of the downloader.
#[derive(Debug)]
pub enum TorDownloaderError {
    UrlParse(UrlError),
    ParseInt(IntErrorKind),
    Validation(String),
    Parse(String),
    InvalidUrl(String),
    InvalidConfiguration(String),
    Network(String),
    Connection(String),
    Proxy(String),
    FileSystem(String),
    Timeout(String),
    RateLimit(String),
    Authentication(String),
    MaxRetries(String),
    Cancelled,
    Unknown(String),
}

pub fn validation_error(msg: &str) -> (e: TorDownloaderError)
    ensures
        e matches TorDownloaderError::Validation(m) && m@ == msg@,
{
    TorDownloaderError::Validation(owned(msg))
}

pub fn parse_error(msg: &str) -> (e: TorDownloaderError)
    ensures
        e matches TorDownloaderError::Parse(m) && m@ == msg@,
{
    TorDownloaderError::Parse(owned(msg))
}

pub fn connection_error(msg: &str) -> (e: TorDownloaderError)
    ensures
        e matches TorDownloaderError::Connection(m) && m@ == msg@,
{
    TorDownloaderError::Connection(owned(msg))
}

pub fn proxy_error(msg: &str) -> (e: TorDownloaderError)
    ensures
        e matches TorDownloaderError::Proxy(m) && m@ == msg@,
{
    TorDownloaderError::Proxy(owned(msg))
}

pub fn network_error(msg: &str) -> (e: TorDownloaderError)
    ensures
        e matches TorDownloaderError::Network(m) && m@ == msg@,
{
    TorDownloaderError::Network(owned(msg))
}

/// A failed download is reported as a network error.
pub fn download_error(msg: &str) -> (e: TorDownloaderError)
    ensures
        e matches TorDownloaderError::Network(m) && m@ == msg@,
{
    TorDownloaderError::Network(owned(msg))
}

/// A failure of the HTML parser is reported as a parse error.
pub fn parser_error(msg: &str) -> (e: TorDownloaderError)
    ensures
        e matches TorDownloaderError::Parse(m) && m@ == msg@,
{
    TorDownloaderError::Parse(owned(msg))
}

/// A failure to reach Tor is reported as a connection error.
pub fn tor_connection_error(msg: &str) -> (e: TorDownloaderError)
    ensures
        e matches TorDownloaderError::Connection(m) && m@ == msg@,
{
    TorDownloaderError::Connection(owned(msg))
}

/// The message of a `ParseIntError` of each kind.
pub open spec fn int_error_text(k: IntErrorKind) -> Seq<char> {
    match k {
        IntErrorKind::Empty => "cannot parse integer from empty string"@,
        IntErrorKind::InvalidDigit => "invalid digit found in string"@,
        IntErrorKind::PosOverflow => "number too large to fit in target type"@,
    }
}

/// The text that describes an error.
pub open spec fn error_message(e: TorDownloaderError) -> Seq<char> {
    match e {
        TorDownloaderError::UrlParse(u) => "URL parse error: "@ + u@,
        TorDownloaderError::ParseInt(k) => "Parse int error: "@ + int_error_text(k),
        TorDownloaderError::Validation(s) => "Validation error: "@ + s@,
        TorDownloaderError::Parse(s) => "Parse error: "@ + s@,
        TorDownloaderError::InvalidUrl(s) => "Invalid URL: "@ + s@,
        TorDownloaderError::InvalidConfiguration(s) => "Invalid configuration: "@ + s@,
        TorDownloaderError::Network(s) => "Network error: "@ + s@,
        TorDownloaderError::Connection(s) => "Connection error: "@ + s@,
        TorDownloaderError::Proxy(s) => "Proxy error: "@ + s@,
        TorDownloaderError::FileSystem(s) => "File system error: "@ + s@,
        TorDownloaderError::Timeout(s) => "Timeout error: "@ + s@,
        TorDownloaderError::RateLimit(s) => "Rate limit error: "@ + s@,
        TorDownloaderError::Authentication(s) => "Authentication error: "@ + s@,
        TorDownloaderError::MaxRetries(s) => "Max retries exceeded: "@ + s@,
        TorDownloaderError::Cancelled => "Operation cancelled"@,
        TorDownloaderError::Unknown(s) => "Unknown error: "@ + s@,
    }
}

fn prefixed(prefix: &str, rest: &str) -> (r: String)
    ensures
        r@ == prefix@ + rest@,
{
    let mut r = owned(prefix);
    push_str(&mut r, rest);
    r
}

impl TorDownloaderError {
    /// The text that describes the error.
    pub fn message(&self) -> (m: String)
        ensures
            m@ == error_message(*self),
    {
        match self {
            TorDownloaderError::UrlParse(u) => prefixed("URL parse error: ", u.text.as_str()),
            TorDownloaderError::ParseInt(k) => {
                let text = match k {
                    IntErrorKind::Empty => "cannot parse integer from empty string",
                    IntErrorKind::InvalidDigit => "invalid digit found in string",
                    IntErrorKind::PosOverflow => "number too large to fit in target type",
                };
                prefixed("Parse int error: ", text)
            },
            TorDownloaderError::Validation(s) => prefixed("Validation error: ", s.as_str()),
            TorDownloaderError::Parse(s) => prefixed("Parse error: ", s.as_str()),
            TorDownloaderError::InvalidUrl(s) => prefixed("Invalid URL: ", s.as_str()),
            TorDownloaderError::InvalidConfiguration(s) => prefixed(
                "Invalid configuration: ",
                s.as_str(),
            ),
            TorDownloaderError::Network(s) => prefixed("Network error: ", s.as_str()),
            TorDownloaderError::Connection(s) => prefixed("Connection error: ", s.as_str()),
            TorDownloaderError::Proxy(s) => prefixed("Proxy error: ", s.as_str()),
            TorDownloaderError::FileSystem(s) => prefixed("File system error: ", s.as_str()),
            TorDownloaderError::Timeout(s) => prefixed("Timeout error: ", s.as_str()),
            TorDownloaderError::RateLimit(s) => prefixed("Rate limit error: ", s.as_str()),
            TorDownloaderError::Authentication(s) => prefixed("Authentication error: ", s.as_str()),
            TorDownloaderError::MaxRetries(s) => prefixed("Max retries exceeded: ", s.as_str()),
            TorDownloaderError::Cancelled => owned("Operation cancelled"),
            TorDownloaderError::Unknown(s) => prefixed("Unknown error: ", s.as_str()),
        }
    }
}

/// Each error's text is its kind's label, ": ", and its detail (the `url`
/// crate's message, the number error's text, or the given text).
pub proof fn lemma_error_texts(u: UrlError, s: String)
    ensures
        error_message(TorDownloaderError::UrlParse(u)) == "URL parse error: "@ + u@,
        error_message(TorDownloaderError::ParseInt(IntErrorKind::Empty)) == "Parse int error: "@
            + "cannot parse integer from empty string"@,
        error_message(TorDownloaderError::ParseInt(IntErrorKind::InvalidDigit)) == "Parse int error: "@
            + "invalid digit found in string"@,
        error_message(TorDownloaderError::ParseInt(IntErrorKind::PosOverflow)) == "Parse int error: "@
            + "number too large to fit in target type"@,
        error_message(TorDownloaderError::Validation(s)) == "Validation error: "@ + s@,
        error_message(TorDownloaderError::Parse(s)) == "Parse error: "@ + s@,
        error_message(TorDownloaderError::InvalidUrl(s)) == "Invalid URL: "@ + s@,
        error_message(TorDownloaderError::InvalidConfiguration(s)) == "Invalid configuration: "@ + s@,
        error_message(TorDownloaderError::Network(s)) == "Network error: "@ + s@,
        error_message(TorDownloaderError::Connection(s)) == "Connection error: "@ + s@,
        error_message(TorDownloaderError::Proxy(s)) == "Proxy error: "@ + s@,
        error_message(TorDownloaderError::FileSystem(s)) == "File system error: "@ + s@,
        error_message(TorDownloaderError::Timeout(s)) == "Timeout error: "@ + s@,
        error_message(TorDownloaderError::RateLimit(s)) == "Rate limit error: "@ + s@,
        error_message(TorDownloaderError::Authentication(s)) == "Authentication error: "@ + s@,
        error_message(TorDownloaderError::MaxRetries(s)) == "Max retries exceeded: "@ + s@,
        error_message(TorDownloaderError::Cancelled) == "Operation cancelled"@,
        error_message(TorDownloaderError::Unknown(s)) == "Unknown error: "@ + s@,
{
}

} // verus!
