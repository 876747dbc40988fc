use proxy::gateway::{
    gateway_base_url, is_html, parse_content_length, plan_proxy_request, upstream_error,
    FailureKind, GatewayError, ProxyPlan, DEFAULT_BODY_CAP,
};
use proxy::headers::{filter_headers, Header};
use proxy::resolve::{normalize_target, resolve_target};
use proxy::rewrite::rewrite_html_urls;

fn header(name: &str, value: &str) -> Header {
    Header { name: name.to_string(), value: value.as_bytes().to_vec() }
}

#[test]
fn resolve_plain_target() {
    assert_eq!(
        resolve_target("/proxy/https://example.com/x").as_deref(),
        Some("https://example.com/x")
    );
}

#[test]
fn resolve_doubled_separator() {
    assert_eq!(
        resolve_target("/proxy//https://example.com/x").as_deref(),
        Some("https://example.com/x")
    );
}

#[test]
fn resolve_collapses_leading_path_slashes() {
    assert_eq!(
        resolve_target("/proxy/https://example.com///about?a=1").as_deref(),
        Some("https://example.com/about?a=1")
    );
}

#[test]
fn resolve_target_without_path() {
    assert_eq!(
        resolve_target("/proxy/http://example.com").as_deref(),
        Some("http://example.com/")
    );
}

#[test]
fn resolve_keeps_remainder_without_scheme() {
    assert_eq!(resolve_target("/proxy/some/path").as_deref(), Some("some/path"));
    assert_eq!(resolve_target("/proxy//just/a/path").as_deref(), Some("/just/a/path"));
}

#[test]
fn resolve_rejects_missing_target() {
    assert_eq!(resolve_target("/proxy/"), None);
    assert_eq!(resolve_target("/proxy"), None);
    assert_eq!(resolve_target("/download/https://example.com/"), None);
    assert_eq!(resolve_target(""), None);
}

#[test]
fn normalize_from_given_parts() {
    let parts = Some(("https".to_string(), "a.b:8080".to_string(), "//x/y".to_string()));
    assert_eq!(normalize_target("ignored", parts), "https://a.b:8080/x/y");
    assert_eq!(normalize_target("kept/as/is", None), "kept/as/is");
}

#[test]
fn gate_redirects_without_marker() {
    match plan_proxy_request("/proxy/https://example.com/page?x=1", false, None) {
        ProxyPlan::Redirect { location } => {
            assert_eq!(location, "/?back=/proxy/https://example.com/page?x=1")
        }
        _ => panic!("expected a redirect"),
    }
}

#[test]
fn gate_redirects_before_checking_the_path() {
    match plan_proxy_request("/proxy/", false, Some("999999999999")) {
        ProxyPlan::Redirect { location } => assert_eq!(location, "/?back=/proxy/"),
        _ => panic!("expected a redirect"),
    }
}

#[test]
fn bad_path_is_a_client_error() {
    match plan_proxy_request("/proxy/", true, None) {
        ProxyPlan::Reject { error } => {
            assert!(matches!(error, GatewayError::BadRequest));
            assert_eq!(error.status(), 400);
            assert_eq!(error.message(), "invalid url");
        }
        _ => panic!("expected a rejection"),
    }
}

#[test]
fn declared_body_over_cap_is_rejected() {
    match plan_proxy_request("/proxy/https://example.com/", true, Some("100000001")) {
        ProxyPlan::Reject { error } => {
            assert!(matches!(error, GatewayError::BodyTooLarge));
            assert_eq!(error.status(), 500);
        }
        _ => panic!("expected a rejection"),
    }
}

#[test]
fn body_limit_follows_declared_length() {
    match plan_proxy_request("/proxy/https://example.com/", true, Some("100000000")) {
        ProxyPlan::Forward { target, body_limit } => {
            assert_eq!(target, "https://example.com/");
            assert_eq!(body_limit, DEFAULT_BODY_CAP);
        }
        _ => panic!("expected forwarding"),
    }
    match plan_proxy_request("/proxy/https://example.com/", true, Some("42")) {
        ProxyPlan::Forward { body_limit, .. } => assert_eq!(body_limit, 42),
        _ => panic!("expected forwarding"),
    }
    match plan_proxy_request("/proxy/https://example.com/", true, Some("not a number")) {
        ProxyPlan::Forward { body_limit, .. } => assert_eq!(body_limit, 100_000_000),
        _ => panic!("expected forwarding"),
    }
    match plan_proxy_request("/proxy/https://example.com/", true, None) {
        ProxyPlan::Forward { body_limit, .. } => assert_eq!(body_limit, 100_000_000),
        _ => panic!("expected forwarding"),
    }
}

#[test]
fn content_length_numerals() {
    assert_eq!(parse_content_length("0"), Some(0));
    assert_eq!(parse_content_length("+17"), Some(17));
    assert_eq!(parse_content_length("18446744073709551615"), Some(u64::MAX));
    assert_eq!(parse_content_length("18446744073709551616"), None);
    assert_eq!(parse_content_length(""), None);
    assert_eq!(parse_content_length("+"), None);
    assert_eq!(parse_content_length("-1"), None);
    assert_eq!(parse_content_length("12a"), None);
}

#[test]
fn transport_failure_is_internal_error_with_message() {
    let e = upstream_error(FailureKind::Other, "error sending request: connection refused".to_string());
    assert_eq!(e.status(), 500);
    assert!(e.message().contains("connection refused"));
}

#[test]
fn request_failure_surfaces_its_status() {
    let e = upstream_error(FailureKind::Request { status: Some(502) }, "bad gateway".to_string());
    assert_eq!(e.status(), 502);
    assert_eq!(e.message(), "bad gateway");
    let e = upstream_error(FailureKind::Request { status: None }, "builder error".to_string());
    assert_eq!(e.status(), 500);
}

#[test]
fn other_error_messages() {
    assert_eq!(GatewayError::UpstreamDecode.message(), "could not get the response text");
    assert_eq!(GatewayError::UpstreamDecode.status(), 500);
    assert_eq!(GatewayError::BodyTooLarge.message(), "request body is too large");
    let e = GatewayError::BodyRead { message: "length limit exceeded".to_string() };
    assert_eq!(e.status(), 500);
    assert_eq!(e.message(), "length limit exceeded");
}

#[test]
fn html_content_types() {
    assert!(is_html(Some("text/html")));
    assert!(is_html(Some("text/html; charset=utf-8")));
    assert!(!is_html(Some("application/json")));
    assert!(!is_html(Some("text/htm")));
    assert!(!is_html(None));
}

#[test]
fn base_url_from_hostname() {
    assert_eq!(gateway_base_url("gw.test"), "https://gw.test/proxy/");
}

#[test]
fn headers_outside_allowlist_are_dropped() {
    let hs = vec![
        header("Range", "bytes=0-1"),
        header("host", "gw.test"),
        header("user-agent", "ua"),
        header("x-secret", "s"),
        header("ACCEPT", "*/*"),
    ];
    let kept = filter_headers(hs, &["range", "user-agent", "authentication", "cookies", "accept"]);
    let names: Vec<&str> = kept.iter().map(|h| h.name.as_str()).collect();
    assert_eq!(names, vec!["Range", "user-agent", "ACCEPT"]);
    assert_eq!(kept[0].value, b"bytes=0-1".to_vec());
}

#[test]
fn download_allowlist_is_narrower() {
    let hs = vec![header("accept", "*/*"), header("authentication", "t")];
    let kept = filter_headers(hs, &["range", "user-agent", "authentication"]);
    assert_eq!(kept.len(), 1);
    assert_eq!(kept[0].name, "authentication");
}

#[test]
fn end_to_end_html_page() {
    let base = gateway_base_url("gw.test");
    let target = match plan_proxy_request("/proxy/https://example.com/", true, None) {
        ProxyPlan::Forward { target, .. } => target,
        _ => panic!("expected forwarding"),
    };
    assert_eq!(target, "https://example.com/");
    assert!(is_html(Some("text/html; charset=utf-8")));
    let page = r#"<a href="/about">About</a><img src="https://cdn.example.com/logo.png">"#;
    let out = rewrite_html_urls(page.to_string(), &target, &base);
    assert!(out.contains(r#"href="https://gw.test/proxy/https://example.com/about""#));
    assert!(out.contains(r#"src="https://gw.test/proxy/https://cdn.example.com/logo.png""#));
}
