//! GitHub resources: URLs built with the `url` crate, and the client settings.

use vstd::prelude::*;

verus! {

/// The user agent sent to GitHub.
pub const USER_AGENT: &'static str = "typstlab";

/// The default timeout of a request, in seconds.
pub const DEFAULT_TIMEOUT_SECS: u64 = 30;

/// A parsed URL: its serialization, scheme and host, as the `url` crate gives them.
#[derive(Debug)]
pub struct WebUrl {
    serialization: String,
    scheme: String,
    host: Option<String>,
}

/// The mathematical form of a [`WebUrl`].
pub struct UrlParts {
    pub text: Seq<char>,
    pub scheme: Seq<char>,
    pub host: Option<Seq<char>>,
}

impl View for WebUrl {
    type V = UrlParts;

    closed spec fn view(&self) -> UrlParts {
        UrlParts {
            text: self.serialization@,
            scheme: self.scheme@,
            host: match self.host {
                Some(h) => Some(h@),
                None => None,
            },
        }
    }
}

/// What `url::Url::parse` makes of a text: the parts of the URL, or the text
/// of its parse error.
pub uninterp spec fn parsed_url(text: Seq<char>) -> Result<UrlParts, Seq<char>>;

/// What a URL becomes after `path_segments_mut().clear().extend(segments)`:
/// `None` when the URL cannot be a base.
pub uninterp spec fn url_with_segments(url: Seq<char>, segments: Seq<Seq<char>>) -> Option<UrlParts>;

/// A URL parse error: its message.
#[derive(Debug)]
pub struct UrlParseError {
    pub message: String,
}

/// Parses an absolute URL with `url::Url::parse` and keeps its
/// serialization, scheme and host. The contract claims only that the outcome
/// is a function of the text (named `parsed_url`).
#[verifier::external_body]
fn parse_web_url(text: &str) -> (r: Result<WebUrl, UrlParseError>)
    ensures
        match r {
            Ok(u) => parsed_url(text@) == Ok::<UrlParts, Seq<char>>(u@),
            Err(e) => parsed_url(text@) == Err::<UrlParts, Seq<char>>(e.message@),
        },
{
    match url::Url::parse(text) {
        Ok(u) => {
            let host = match u.host_str() {
                Some(h) => Some(h.to_string()),
                None => None,
            };
            Ok(WebUrl { serialization: u.as_str().to_string(), scheme: u.scheme().to_string(), host })
        },
        Err(e) => Err(UrlParseError { message: e.to_string() }),
    }
}

impl WebUrl {
    /// Parses an absolute URL (see [`parsed_url`]).
    pub fn parse(text: &str) -> (r: Result<WebUrl, UrlParseError>)
        ensures
            match r {
                Ok(u) => parsed_url(text@) == Ok::<UrlParts, Seq<char>>(u@),
                Err(e) => parsed_url(text@) == Err::<UrlParts, Seq<char>>(e.message@),
            },
    {
        parse_web_url(text)
    }

    /// The serialization of the URL.
    pub fn as_str(&self) -> (r: &str)
        ensures
            r@ == self@.text,
    {
        self.serialization.as_str()
    }

    /// The scheme of the URL.
    pub fn scheme(&self) -> (r: &str)
        ensures
            r@ == self@.scheme,
    {
        self.scheme.as_str()
    }

    /// The host of the URL, if it has one.
    pub fn host_str(&self) -> (r: Option<&str>)
        ensures
            match self@.host {
                Some(h) => r matches Some(x) && x@ == h,
                None => r is None,
            },
    {
        match &self.host {
            Some(h) => Some(h.as_str()),
            None => None,
        }
    }
}

/// Replaces the path of the URL by the segments, each percent-encoded, with
/// `url::Url::path_segments_mut().clear().extend(..)` on the URL parsed from
/// the serialization. The contract claims only that the outcome is a function
/// of the serialization and the segments (named `url_with_segments`).
#[verifier::external_body]
fn set_path_segments(url: &WebUrl, segments: &[&str]) -> (r: Option<WebUrl>)
    ensures
        match r {
            Some(u) => url_with_segments(url@.text, segments@.map_values(|s: &str| s@)) == Some(u@),
            None => url_with_segments(url@.text, segments@.map_values(|s: &str| s@)) is None,
        },
{
    let mut u = url::Url::parse(url.as_str()).ok()?;
    u.path_segments_mut().ok()?.clear().extend(segments);
    let host = match u.host_str() {
        Some(h) => Some(h.to_string()),
        None => None,
    };
    Some(WebUrl { serialization: u.as_str().to_string(), scheme: u.scheme().to_string(), host })
}

/// URL construction errors.
#[derive(Debug)]
pub enum UrlError {
    /// The URL cannot be a base, so it has no path segments.
    CannotBeABase { url: WebUrl },
    /// The URL could not be parsed.
    ParseError(UrlParseError),
}

impl UrlError {
    /// The message of the error.
    pub fn message(&self) -> (r: String)
        ensures
            match self {
                UrlError::CannotBeABase { url } => r@ == "URL cannot be a base: "@ + url@.text,
                UrlError::ParseError(e) => r@ == "Invalid URL: "@ + e.message@,
            },
    {
        match self {
            UrlError::CannotBeABase { url } => {
                let mut m = String::from_str("URL cannot be a base: ");
                m.append(url.as_str());
                m
            },
            UrlError::ParseError(e) => {
                let mut m = String::from_str("Invalid URL: ");
                m.append(e.message.as_str());
                m
            },
        }
    }
}

/// A copy of a URL.
fn copy_url(u: &WebUrl) -> (r: WebUrl)
    ensures
        r@ == u@,
{
    WebUrl {
        serialization: u.serialization.clone(),
        scheme: u.scheme.clone(),
        host: match &u.host {
            Some(h) => Some(h.clone()),
            None => None,
        },
    }
}

/// Replaces the path of `url` by the segments, each percent-encoded; fails,
/// leaving `url` unchanged, when the URL cannot be a base.
pub fn add_path_segments(url: &mut WebUrl, segments: &[&str]) -> (r: Result<(), UrlError>)
    ensures
        match url_with_segments(old(url)@.text, segments@.map_values(|s: &str| s@)) {
            Some(u) => r is Ok && final(url)@ == u,
            None => r matches Err(UrlError::CannotBeABase { url: e }) && e@ == old(url)@ && final(url)@ == old(
                url,
            )@,
        },
{
    match set_path_segments(url, segments) {
        Some(u) => {
            *url = u;
            Ok(())
        },
        None => Err(UrlError::CannotBeABase { url: copy_url(url) }),
    }
}

/// The base URL of GitHub.
pub fn github_base_url() -> (r: Result<WebUrl, UrlParseError>)
    ensures
        match parsed_url("https://github.com"@) {
            Ok(p) => r matches Ok(u) && u@ == p,
            Err(m) => r matches Err(e) && e.message@ == m,
        },
{
    WebUrl::parse("https://github.com")
}

/// The base URL of the GitHub API.
pub fn github_api_base_url() -> (r: Result<WebUrl, UrlParseError>)
    ensures
        match parsed_url("https://api.github.com"@) {
            Ok(p) => r matches Ok(u) && u@ == p,
            Err(m) => r matches Err(e) && e.message@ == m,
        },
{
    WebUrl::parse("https://api.github.com")
}

} // verus!
