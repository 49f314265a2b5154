//! A minimal fetch client: its configuration, the responses it produces, and scheme checking.
//! No HTTP backend is wired in; callers that bring their own build `Response`s from parts.
use vstd::prelude::*;

use crate::omnibox::utf8;
use crate::text::{contains_sub, contains_str, owned, push_str, str_eq};

verus! {

/// A parsed URL, carried through unread.
#[verifier::external_type_specification]
#[verifier::external_body]
pub struct ExUrl(url::Url);

/// Why a fetch failed.
#[derive(Debug, Clone, PartialEq, Eq)]
pub enum FetchError {
    /// An unusable URL.
    InvalidUrl(String),
    /// A network or I/O failure.
    NetworkError(String),
    /// An HTTP error status.
    HttpError { status: u16, message: String },
    /// Refused by the content blocker.
    Blocked(String),
    /// Timed out after this many milliseconds.
    Timeout(u64),
}

/// The UTF-8 encoding of a character sequence.
pub open spec fn utf8_encode(s: Seq<char>) -> Seq<u8>
    decreases s.len(),
{
    if s.len() == 0 {
        seq![]
    } else {
        utf8_encode(s.drop_last()) + utf8(s.last())
    }
}

/// `std::str::from_utf8`: the text whose UTF-8 encoding `bytes` is, when they are valid UTF-8.
/// Claimed, as the standard library documents: success exactly when some text encodes to
/// `bytes`, and then that text.
#[verifier::external_body]
fn utf8_text(bytes: &[u8]) -> (r: Option<&str>)
    ensures
        match r {
            Some(s) => utf8_encode(s@) == bytes@,
            None => forall|t: Seq<char>| utf8_encode(t) != bytes@,
        },
{
    std::str::from_utf8(bytes).ok()
}

/// An HTTP response.
#[derive(Debug)]
pub struct Response {
    pub status: u16,
    /// Header names and values.
    pub headers: Vec<(String, String)>,
    pub body: Vec<u8>,
    /// The final URL, after redirects.
    pub url: url::Url,
}

/// The value of the first header named exactly `name`.
pub open spec fn header_value(headers: Seq<(String, String)>, name: Seq<char>) -> Option<Seq<char>>
    decreases headers.len(),
{
    if headers.len() == 0 {
        None
    } else if headers[0].0@ == name {
        Some(headers[0].1@)
    } else {
        header_value(headers.drop_first(), name)
    }
}

/// The content type: the `content-type` header, else `Content-Type`.
pub open spec fn content_type_of(headers: Seq<(String, String)>) -> Option<Seq<char>> {
    match header_value(headers, "content-type"@) {
        Some(v) => Some(v),
        None => header_value(headers, "Content-Type"@),
    }
}

/// The value of the first header named `name`.
fn header<'a>(headers: &'a Vec<(String, String)>, name: &str) -> (r: Option<&'a str>)
    ensures
        match header_value(headers@, name@) {
            Some(v) => r matches Some(x) && x@ == v,
            None => r is None,
        },
{
    let mut i: usize = 0;
    assert(headers@.skip(0) =~= headers@);
    while i < headers.len()
        invariant
            i <= headers@.len(),
            header_value(headers@, name@) == header_value(headers@.skip(i as int), name@),
        decreases headers@.len() - i,
    {
        assert(headers@.skip(i as int).drop_first() =~= headers@.skip(i + 1));
        if str_eq(headers[i].0.as_str(), name) {
            return Some(headers[i].1.as_str());
        }
        i += 1;
    }
    None
}

impl Response {
    /// The body as text, when it is valid UTF-8.
    pub fn text(&self) -> (r: Option<&str>)
        ensures
            match r {
                Some(s) => utf8_encode(s@) == self.body@,
                None => forall|t: Seq<char>| utf8_encode(t) != self.body@,
            },
    {
        utf8_text(self.body.as_slice())
    }

    /// The `content-type` header, else the `Content-Type` one.
    pub fn content_type(&self) -> (r: Option<&str>)
        ensures
            match content_type_of(self.headers@) {
                Some(v) => r matches Some(x) && x@ == v,
                None => r is None,
            },
    {
        match header(&self.headers, "content-type") {
            Some(v) => Some(v),
            None => header(&self.headers, "Content-Type"),
        }
    }

    /// A 2xx status.
    pub fn is_success(&self) -> (r: bool)
        ensures
            r == (200 <= self.status < 300),
    {
        200 <= self.status && self.status < 300
    }

    /// The content type mentions `text/html`.
    pub fn is_html(&self) -> (r: bool)
        ensures
            r == (content_type_of(self.headers@) matches Some(v) && contains_sub(v, "text/html"@)),
    {
        match self.content_type() {
            Some(ct) => contains_str(ct, "text/html"),
            None => false,
        }
    }

    /// The content type mentions `text/css`.
    pub fn is_css(&self) -> (r: bool)
        ensures
            r == (content_type_of(self.headers@) matches Some(v) && contains_sub(v, "text/css"@)),
    {
        match self.content_type() {
            Some(ct) => contains_str(ct, "text/css"),
            None => false,
        }
    }
}

/// Fetch settings.
#[derive(Debug, Clone, PartialEq, Eq)]
pub struct FetchConfig {
    pub user_agent: String,
    /// Request timeout in milliseconds.
    pub timeout_ms: u64,
    /// Most redirects followed.
    pub max_redirects: u32,
    pub accept_cookies: bool,
}

impl Default for FetchConfig {
    /// `nami-core/<version>`, thirty seconds, ten redirects, no cookies.
    fn default() -> (r: Self)
        ensures
            r.user_agent@ == "nami-core/0.1.0"@,
            r.timeout_ms == 30_000,
            r.max_redirects == 10,
            !r.accept_cookies,
    {
        FetchConfig {
            user_agent: owned("nami-core/0.1.0"),
            timeout_ms: 30_000,
            max_redirects: 10,
            accept_cookies: false,
        }
    }
}

/// The error message for an unsupported scheme.
pub open spec fn unsupported_scheme_message(scheme: Seq<char>) -> Seq<char> {
    "unsupported scheme: "@ + scheme
}

/// The error that fetching a URL of the given scheme produces.
pub fn check_scheme(scheme: &str) -> (r: FetchError)
    ensures
        match r {
            FetchError::NetworkError(m) => (scheme@ == "http"@ || scheme@ == "https"@) && m@
                == "no HTTP backend configured — enable the `network` feature or provide responses directly"@,
            FetchError::InvalidUrl(m) => !(scheme@ == "http"@ || scheme@ == "https"@) && m@
                == unsupported_scheme_message(scheme@),
            _ => false,
        },
{
    if str_eq(scheme, "http") || str_eq(scheme, "https") {
        FetchError::NetworkError(
            owned("no HTTP backend configured — enable the `network` feature or provide responses directly"),
        )
    } else {
        let mut m = owned("unsupported scheme: ");
        push_str(&mut m, scheme);
        FetchError::InvalidUrl(m)
    }
}

/// The scheme of a URL.
pub uninterp spec fn url_scheme_name(url: url::Url) -> Seq<char>;

/// `url::Url::scheme`. Claimed: the scheme is the one named `url_scheme_name` of the URL, a
/// function of the URL alone.
#[verifier::external_body]
fn url_scheme(url: &url::Url) -> (r: String)
    ensures
        r@ == url_scheme_name(*url),
{
    url.scheme().to_string()
}

/// The texts `url::ParseError` displays: one per kind of parse error.
pub open spec fn url_parse_error_text(m: Seq<char>) -> bool {
    m == "empty host"@ || m == "invalid international domain name"@ || m == "invalid port number"@ || m
        == "invalid IPv4 address"@ || m == "invalid IPv6 address"@ || m == "invalid domain character"@ || m
        == "relative URL without a base"@ || m == "relative URL with a cannot-be-a-base base"@ || m
        == "a cannot-be-a-base URL doesn’t have a host to set"@ || m == "URLs more than 4 GB are not supported"@
}

/// What joining a reference onto a base URL gives: the joined URL, or the parse error's text.
pub uninterp spec fn url_joined(base: url::Url, href: Seq<char>) -> Result<url::Url, Seq<char>>;

/// `url::Url::join`, with the parse error as text. Claimed: the outcome is the one named
/// `url_joined` of the base and the reference, a function of them alone; and, as the crate's
/// source shows, an error's text is one of the texts `url::ParseError` displays.
#[verifier::external_body]
fn url_join(base: &url::Url, href: &str) -> (r: Result<url::Url, String>)
    ensures
        match r {
            Ok(u) => url_joined(*base, href@) == Ok::<url::Url, Seq<char>>(u),
            Err(m) => url_joined(*base, href@) == Err::<url::Url, Seq<char>>(m@) && url_parse_error_text(m@),
        },
{
    base.join(href).map_err(|e| e.to_string())
}

/// A fetch client.
#[derive(Debug, Clone)]
pub struct FetchClient {
    config: FetchConfig,
}

impl FetchClient {
    /// A client with the default configuration.
    pub fn new() -> (r: Self)
        ensures
            r.config_view().user_agent@ == "nami-core/0.1.0"@,
            r.config_view().timeout_ms == 30_000,
            r.config_view().max_redirects == 10,
            !r.config_view().accept_cookies,
    {
        FetchClient { config: FetchConfig::default() }
    }

    /// The configuration.
    pub closed spec fn config_view(&self) -> FetchConfig {
        self.config
    }

    /// A client with `config`.
    pub fn with_config(config: FetchConfig) -> (r: Self)
        ensures
            r.config_view() == config,
    {
        FetchClient { config }
    }

    /// The configuration.
    pub fn config(&self) -> (r: &FetchConfig)
        ensures
            *r == self.config_view(),
    {
        &self.config
    }

    /// Fetches `url`. With no HTTP backend this always fails: an invalid URL for a scheme other
    /// than `http` or `https`, the missing backend otherwise.
    pub fn fetch(&self, url: &url::Url) -> (r: Result<Response, FetchError>)
        ensures
            match r {
                Err(FetchError::NetworkError(m)) => (url_scheme_name(*url) == "http"@ || url_scheme_name(*url)
                    == "https"@) && m@
                    == "no HTTP backend configured — enable the `network` feature or provide responses directly"@,
                Err(FetchError::InvalidUrl(m)) => !(url_scheme_name(*url) == "http"@ || url_scheme_name(*url)
                    == "https"@) && m@ == unsupported_scheme_message(url_scheme_name(*url)),
                _ => false,
            },
    {
        let scheme = url_scheme(url);
        Err(check_scheme(scheme.as_str()))
    }

    /// A response from its parts, for callers with their own HTTP client.
    pub fn response_from_parts(status: u16, headers: Vec<(String, String)>, body: Vec<u8>, url: url::Url) -> (r: Response)
        ensures
            r.status == status,
            r.headers == headers,
            r.body == body,
            r.url == url,
    {
        Response { status, headers, body, url }
    }

    /// `href` resolved against `base`; an unparseable reference is an invalid URL, with the URL
    /// parser's message.
    pub fn resolve_url(base: &url::Url, href: &str) -> (r: Result<url::Url, FetchError>)
        ensures
            match url_joined(*base, href@) {
                Ok(u) => r == Ok::<url::Url, FetchError>(u),
                Err(m) => r matches Err(FetchError::InvalidUrl(x)) && x@ == m && url_parse_error_text(m),
            },
    {
        match url_join(base, href) {
            Ok(u) => Ok(u),
            Err(m) => Err(FetchError::InvalidUrl(m)),
        }
    }
}

impl Default for FetchClient {
    fn default() -> (r: Self)
        ensures
            r.config_view().timeout_ms == 30_000,
            r.config_view().max_redirects == 10,
    {
        FetchClient::new()
    }
}

} // verus!
