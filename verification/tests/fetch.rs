use nami_core::net::fetch::{check_scheme, FetchConfig};
use nami_core::net::{FetchClient, FetchError, Response};
use url::Url;

#[test]
fn default_config() {
    let config = FetchConfig::default();
    assert!(config.user_agent.starts_with("nami-core/"));
    assert_eq!(config.timeout_ms, 30_000);
    assert_eq!(config.max_redirects, 10);
    assert!(!config.accept_cookies);
}

#[test]
fn response_text_and_content_type() {
    let resp = Response {
        status: 200,
        headers: vec![("content-type".to_string(), "text/html".to_string())],
        body: b"<html>Hello</html>".to_vec(),
        url: Url::parse("https://example.com").unwrap(),
    };
    assert_eq!(resp.text(), Some("<html>Hello</html>"));
    assert!(resp.is_success());
    assert!(resp.is_html());
    assert!(!resp.is_css());
    let css = FetchClient::response_from_parts(
        404,
        vec![("Content-Type".to_string(), "text/css; charset=utf-8".to_string())],
        vec![0xff, 0xfe],
        Url::parse("https://example.com/x.css").unwrap(),
    );
    assert!(!css.is_success());
    assert!(css.is_css());
    assert_eq!(css.content_type(), Some("text/css; charset=utf-8"));
    assert_eq!(css.text(), None);
}

#[test]
fn fetch_schemes_and_resolution() {
    let client = FetchClient::new();
    let ftp = client.fetch(&Url::parse("ftp://example.com").unwrap());
    assert!(matches!(ftp, Err(FetchError::InvalidUrl(ref m)) if m == "unsupported scheme: ftp"));
    let https = client.fetch(&Url::parse("https://example.com").unwrap());
    assert!(matches!(https, Err(FetchError::NetworkError(_))));
    assert!(matches!(check_scheme("http"), FetchError::NetworkError(_)));
    let base = Url::parse("https://example.com/page/1").unwrap();
    assert_eq!(FetchClient::resolve_url(&base, "/about").unwrap().as_str(), "https://example.com/about");
    assert_eq!(FetchClient::resolve_url(&base, "next").unwrap().as_str(), "https://example.com/page/next");
    let custom = FetchConfig { timeout_ms: 5, ..FetchConfig::default() };
    assert_eq!(FetchClient::with_config(custom).config().timeout_ms, 5);
    assert_eq!(FetchClient::default().config().max_redirects, 10);
}

#[test]
fn response_text_extraction() {
    let resp = Response {
        status: 200,
        headers: vec![("content-type".to_string(), "text/html".to_string())],
        body: b"<html>Hello</html>".to_vec(),
        url: Url::parse("https://example.com").unwrap(),
    };
    assert_eq!(resp.text(), Some("<html>Hello</html>"));
    assert!(resp.is_success());
    assert!(resp.is_html());
    assert!(!resp.is_css());
}

#[test]
fn response_status_checks() {
    let ok = Response {
        status: 200,
        headers: Vec::new(),
        body: Vec::new(),
        url: Url::parse("https://example.com").unwrap(),
    };
    assert!(ok.is_success());

    let not_found = Response {
        status: 404,
        headers: Vec::new(),
        body: Vec::new(),
        url: Url::parse("https://example.com/missing").unwrap(),
    };
    assert!(!not_found.is_success());
}

#[test]
fn fetch_unsupported_scheme() {
    let client = FetchClient::new();
    let url = Url::parse("ftp://example.com").unwrap();
    let result = client.fetch(&url);
    assert!(result.is_err());
    assert!(matches!(result.unwrap_err(), FetchError::InvalidUrl(_)));
}

#[test]
fn resolve_relative_url() {
    let base = Url::parse("https://example.com/page/1").unwrap();
    let resolved = FetchClient::resolve_url(&base, "/about").unwrap();
    assert_eq!(resolved.as_str(), "https://example.com/about");

    let resolved = FetchClient::resolve_url(&base, "next").unwrap();
    assert_eq!(resolved.as_str(), "https://example.com/page/next");
}

#[test]
fn response_from_parts_constructor() {
    let resp = FetchClient::response_from_parts(200, Vec::new(), b"body".to_vec(), Url::parse("https://example.com").unwrap());
    assert_eq!(resp.status, 200);
    assert_eq!(resp.text(), Some("body"));
}

#[test]
fn resolve_url_errors_carry_parser_message() {
    let base = Url::parse("mailto:someone@example.com").unwrap();
    assert_eq!(
        FetchClient::resolve_url(&base, "other"),
        Err(FetchError::InvalidUrl("relative URL with a cannot-be-a-base base".to_string()))
    );
    let web = Url::parse("https://example.com/").unwrap();
    assert_eq!(
        FetchClient::resolve_url(&web, "http://[::1"),
        Err(FetchError::InvalidUrl("invalid IPv6 address".to_string()))
    );
}
