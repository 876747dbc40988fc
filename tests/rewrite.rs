use proxy::rewrite::{init_regexes, rewrite_html_urls};

const BASE: &str = "https://gw.test/proxy/";

#[test]
fn rewriting_twice_prefixes_again() {
    let html = String::from(r#"<img src="https://cdn.example.com/a.png">"#);
    let once = rewrite_html_urls(html, "https://example.com/", BASE);
    assert_eq!(
        once,
        r#"<img src="https://gw.test/proxy/https://cdn.example.com/a.png">"#
    );
    let twice = rewrite_html_urls(once.clone(), "https://example.com/", BASE);
    assert_ne!(twice, once);
    assert_eq!(
        twice,
        r#"<img src="https://gw.test/proxy/https://gw.test/proxy/https://cdn.example.com/a.png">"#
    );
}

#[test]
fn every_absolute_url_gets_the_base_once() {
    let html = "<a href=\"http://a.com/x\">see https://b.org/y?z=1 and http://www.c.net</a>";
    let out = rewrite_html_urls(html.to_string(), "https://example.com/", BASE);
    assert_eq!(
        out,
        "<a href=\"https://gw.test/proxy/http://a.com/x\">see https://gw.test/proxy/https://b.org/y?z=1 and https://gw.test/proxy/http://www.c.net</a>"
    );
    assert_eq!(out.len(), html.len() + 3 * BASE.len());
}

#[test]
fn several_urls_on_one_line_keep_their_positions() {
    let html = "https://a.com https://b.com https://c.com";
    let out = rewrite_html_urls(html.to_string(), "https://example.com/", "P/");
    assert_eq!(out, "P/https://a.com P/https://b.com P/https://c.com");
}

#[test]
fn no_match_leaves_document_unchanged() {
    let html = "<p>plain text, http:// alone, src='/single'</p>";
    let out = rewrite_html_urls(html.to_string(), "https://example.com/", BASE);
    assert_eq!(out, html);
}

#[test]
fn empty_document_stays_empty() {
    assert_eq!(rewrite_html_urls(String::new(), "https://example.com/", BASE), "");
}

#[test]
fn root_relative_src_and_href_get_base_and_origin() {
    let html = r#"<img src="/a/b"><a href="/a/b">x</a><form action="/go"></form>"#;
    let out = rewrite_html_urls(html.to_string(), "https://example.com/some/page?q=1", BASE);
    assert_eq!(
        out,
        r#"<img src="https://gw.test/proxy/https://example.com/a/b"><a href="https://gw.test/proxy/https://example.com/a/b">x</a><form action="https://gw.test/proxy/https://example.com/go"></form>"#
    );
}

#[test]
fn base_without_trailing_slash_gets_one_separator() {
    let out = rewrite_html_urls(r#"<img src="/a/b">"#.to_string(), "http://example.com", "https://gw.test/proxy");
    assert_eq!(out, r#"<img src="https://gw.test/proxy/http://example.com/a/b">"#);
}

#[test]
fn scheme_relative_value_is_not_root_relative() {
    let html = r#"<script src="//cdn.example.com/x.js"></script>"#;
    let out = rewrite_html_urls(html.to_string(), "https://example.com/", BASE);
    assert_eq!(out, html);
}

#[test]
fn other_attributes_are_not_rewritten() {
    let html = r#"<div data="/a/b" xsrc="/c"></div>"#;
    let out = rewrite_html_urls(html.to_string(), "https://example.com/", BASE);
    assert_eq!(out, r#"<div data="/a/b" xsrc="https://gw.test/proxy/https://example.com/c"></div>"#);
}

#[test]
fn non_ascii_content_is_kept() {
    let html = "<p>héllo → https://example.org/ünï ok, https://ünï.example/ not</p>";
    let out = rewrite_html_urls(html.to_string(), "https://example.com/", "P/");
    assert_eq!(out, "<p>héllo → P/https://example.org/ünï ok, https://ünï.example/ not</p>");
}

#[test]
fn patterns_name_the_three_attributes() {
    let p = init_regexes();
    let names: Vec<String> = p.attributes.iter().map(|a| a.iter().collect()).collect();
    assert_eq!(names, vec!["src", "href", "action"]);
}
