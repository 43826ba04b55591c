//! URLs as the library reads them: the parts that the `url` crate computes,
//! held as plain strings.
use vstd::prelude::*;

verus! {

/// A parsed URL: scheme, host, path, fragment and the whole serialization.
#[derive(Clone, Debug)]
pub struct UrlParts {
    pub scheme: String,
    pub host: Option<String>,
    pub path: String,
    pub fragment: Option<String>,
    pub serialization: String,
}

/// The mathematical value of a [`UrlParts`].
pub struct UrlView {
    pub scheme: Seq<char>,
    pub host: Option<Seq<char>>,
    pub path: Seq<char>,
    pub fragment: Option<Seq<char>>,
    pub serialization: Seq<char>,
}

pub open spec fn opt_view(o: Option<String>) -> Option<Seq<char>> {
    match o {
        Some(s) => Some(s@),
        None => None,
    }
}

impl View for UrlParts {
    type V = UrlView;

    open spec fn view(&self) -> UrlView {
        UrlView {
            scheme: self.scheme@,
            host: opt_view(self.host),
            path: self.path@,
            fragment: opt_view(self.fragment),
            serialization: self.serialization@,
        }
    }
}

/// Why the `url` crate refused an input; `text` is its message.
#[derive(Clone, Debug)]
pub struct UrlError {
    pub text: String,
}

impl View for UrlError {
    type V = Seq<char>;

    open spec fn view(&self) -> Seq<char> {
        self.text@
    }
}

/// What `url::Url::parse` gives for `input`: the parts of the URL, or the
/// message of the error.
pub uninterp spec fn url_parse(input: Seq<char>) -> Result<UrlView, Seq<char>>;

/// What the `url` crate gives when `input` is resolved against the URL that
/// `base` parses to (`Url::parse(base)` and then `Url::join`): the parts of the
/// URL, or the message of the first error.
pub uninterp spec fn url_join(base: Seq<char>, input: Seq<char>) -> Result<UrlView, Seq<char>>;

pub open spec fn url_result_view(r: Result<UrlParts, UrlError>) -> Result<UrlView, Seq<char>> {
    match r {
        Ok(u) => Ok(u@),
        Err(e) => Err(e@),
    }
}

/// Calls `url::Url::parse` and reads the parts of the result through
/// `scheme`, `host_str`, `path`, `fragment` and `as_str`; an error becomes its
/// message (`Display`). Claimed: the result is `url_parse` of the input.
#[verifier::external_body]
fn call_url_parse(input: &str) -> (r: Result<UrlParts, UrlError>)
    ensures
        url_result_view(r) == url_parse(input@),
{
    match url::Url::parse(input) {
        Ok(u) => Ok(UrlParts {
            scheme: u.scheme().to_string(),
            host: u.host_str().map(String::from),
            path: u.path().to_string(),
            fragment: u.fragment().map(String::from),
            serialization: u.as_str().to_string(),
        }),
        Err(e) => Err(UrlError { text: e.to_string() }),
    }
}

/// Calls `url::Url::parse` on `base` and `url::Url::join` on the result, and
/// reads the parts as `call_url_parse` does. Claimed: the result is
/// `url_join` of the two inputs.
#[verifier::external_body]
pub(crate) fn call_url_join(base: &str, input: &str) -> (r: Result<UrlParts, UrlError>)
    ensures
        url_result_view(r) == url_join(base@, input@),
{
    match url::Url::parse(base).and_then(|b| b.join(input)) {
        Ok(u) => Ok(UrlParts {
            scheme: u.scheme().to_string(),
            host: u.host_str().map(String::from),
            path: u.path().to_string(),
            fragment: u.fragment().map(String::from),
            serialization: u.as_str().to_string(),
        }),
        Err(e) => Err(UrlError { text: e.to_string() }),
    }
}

impl UrlParts {
    /// Parses an absolute URL.
    pub fn parse(input: &str) -> (r: Result<UrlParts, UrlError>)
        ensures
            url_result_view(r) == url_parse(input@),
    {
        call_url_parse(input)
    }
}

} // verus!
