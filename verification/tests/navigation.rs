//! Address-bar classification, response to document, and the error page.

use muskitty::navigation::{
    classify_url, document_from_response, document_from_text, error_page, escape_html,
    extract_inline_style, NavigationKind,
};
use muskitty::network::NetworkResponse;

// ---- classify_url ----

#[test]
fn classify_http_https_passthrough() {
    assert_eq!(
        classify_url("https://example.com/a?b=1"),
        NavigationKind::Http("https://example.com/a?b=1".to_string())
    );
    assert_eq!(
        classify_url("HTTP://Example.COM"),
        NavigationKind::Http("HTTP://Example.COM".to_string())
    );
}

#[test]
fn classify_bare_host_defaults_to_https() {
    assert_eq!(
        classify_url("example.com"),
        NavigationKind::Http("https://example.com".to_string())
    );
    assert_eq!(
        classify_url("  example.com/path  "),
        NavigationKind::Http("https://example.com/path".to_string())
    );
}

#[test]
fn classify_localhost_defaults_to_http() {
    assert_eq!(
        classify_url("localhost:8080/x"),
        NavigationKind::Http("http://localhost:8080/x".to_string())
    );
    assert_eq!(
        classify_url("127.0.0.1"),
        NavigationKind::Http("http://127.0.0.1".to_string())
    );
}

#[test]
fn classify_file_url_strips_drive_slash() {
    assert_eq!(
        classify_url("file:///D:/tmp/page.html"),
        NavigationKind::File("D:/tmp/page.html".to_string())
    );
}

#[test]
fn classify_file_url_keeps_absolute_path() {
    assert_eq!(
        classify_url("file:///etc/hosts"),
        NavigationKind::File("/etc/hosts".to_string())
    );
}

#[test]
fn classify_other_scheme_unsupported() {
    assert_eq!(
        classify_url("data:text/html,<b>hi</b>"),
        NavigationKind::Unsupported("data:text/html,<b>hi</b>".to_string())
    );
    assert_eq!(
        classify_url("about:blank"),
        NavigationKind::Unsupported("about:blank".to_string())
    );
    assert_eq!(
        classify_url("JAVASCRIPT:alert(1)"),
        NavigationKind::Unsupported("JAVASCRIPT:alert(1)".to_string())
    );
}

#[test]
fn classify_host_with_port_not_mistaken_for_scheme() {
    assert_eq!(
        classify_url("example.com:8080/x"),
        NavigationKind::Http("https://example.com:8080/x".to_string())
    );
}

#[test]
fn classify_bare_windows_path_is_file() {
    assert_eq!(
        classify_url(r"D:\tmp\page.html"),
        NavigationKind::File(r"D:\tmp\page.html".to_string())
    );
}

#[test]
fn classify_bare_unix_path_is_file() {
    assert_eq!(
        classify_url("/etc/hosts"),
        NavigationKind::File("/etc/hosts".to_string())
    );
}

#[test]
fn classify_empty_is_unsupported() {
    assert_eq!(
        classify_url("   "),
        NavigationKind::Unsupported(String::new())
    );
}

#[test]
fn classify_localhost_with_user_info_and_case() {
    assert_eq!(
        classify_url("user@LocalHost:3000"),
        NavigationKind::Http("http://user@LocalHost:3000".to_string())
    );
    assert_eq!(
        classify_url("localhost.example.com"),
        NavigationKind::Http("https://localhost.example.com".to_string())
    );
}

#[test]
fn classify_trims_unicode_white_space() {
    assert_eq!(
        classify_url("\u{3000}\u{a0}example.com\t\n"),
        NavigationKind::Http("https://example.com".to_string())
    );
}

#[test]
fn classify_http_result_is_a_fixed_point() {
    for input in ["example.com", "localhost:8080/x", "HTTPS://a.b", "  127.0.0.1  "] {
        match classify_url(input) {
            NavigationKind::Http(u) => {
                assert_eq!(classify_url(&u), NavigationKind::Http(u.clone()));
            }
            other => panic!("expected Http, got {:?}", other),
        }
    }
}

#[test]
fn classify_mailto_and_ws_unsupported_but_other_schemes_are_hosts() {
    assert_eq!(
        classify_url("mailto:a@b.c"),
        NavigationKind::Unsupported("mailto:a@b.c".to_string())
    );
    assert_eq!(
        classify_url("wss://x"),
        NavigationKind::Unsupported("wss://x".to_string())
    );
    assert_eq!(
        classify_url("gopher:70"),
        NavigationKind::Http("https://gopher:70".to_string())
    );
}

// ---- document_from_response ----

#[test]
fn document_html_extracts_style() {
    let resp = NetworkResponse::new(
        200,
        vec![(
            "content-type".to_string(),
            "text/html; charset=utf-8".to_string(),
        )],
        "https://example.com/".to_string(),
        b"<style>p{color:red}</style><p>hi</p>".to_vec(),
    );
    let doc = document_from_response(&resp);
    assert_eq!(doc.final_url, "https://example.com/");
    assert!(doc.html.contains("<p>hi</p>"));
    assert!(doc.css.contains("p{color:red}"));
}

#[test]
fn document_missing_content_type_treated_as_html() {
    let resp = NetworkResponse::new(
        200,
        vec![],
        "https://example.com/".to_string(),
        b"<p>implicit html</p>".to_vec(),
    );
    let doc = document_from_response(&resp);
    assert!(doc.html.contains("implicit html"));
}

#[test]
fn document_plain_text_wraps_in_escaped_pre() {
    let resp = NetworkResponse::new(
        200,
        vec![("content-type".to_string(), "text/plain".to_string())],
        "https://example.com/robots.txt".to_string(),
        b"<b>&raw</b>".to_vec(),
    );
    let doc = document_from_response(&resp);
    assert!(doc.html.contains("<pre"));
    assert!(!doc.html.contains("<b>"), "raw markup must be escaped");
    assert!(doc.html.contains("&lt;b&gt;&amp;raw&lt;/b&gt;"));
    assert!(doc.css.is_empty());
}

#[test]
fn document_binary_type_gets_notice_page() {
    let resp = NetworkResponse::new(
        200,
        vec![("content-type".to_string(), "image/png".to_string())],
        "https://example.com/logo.png".to_string(),
        vec![0x89, 0x50, 0x4e, 0x47],
    );
    let doc = document_from_response(&resp);
    assert!(doc.html.contains("Unsupported content"));
    assert!(doc.html.contains("image/png"));
}

#[test]
fn document_4xx_body_still_rendered() {
    let resp = NetworkResponse::new(
        404,
        vec![("content-type".to_string(), "text/html".to_string())],
        "https://example.com/missing".to_string(),
        b"<p>not found page</p>".to_vec(),
    );
    let doc = document_from_response(&resp);
    assert!(doc.html.contains("not found page"));
}

#[test]
fn error_page_escapes_url_and_message() {
    let page = error_page("https://a.b/<x>", "err & <msg>");
    assert!(!page.contains("<x>"));
    assert!(page.contains("&lt;x&gt;"));
    assert!(page.contains("err &amp; &lt;msg&gt;"));
}

#[test]
fn error_page_exact_text() {
    assert_eq!(
        error_page("u", "m"),
        "<!doctype html><html><body><h1 style=\"font-size:32px;color:#1a1a1a\">Navigation failed</h1><p style=\"font-size:16px\">u</p><p style=\"font-size:14px\">m</p></body></html>"
    );
}

#[test]
fn unsupported_notice_reports_type_and_byte_count() {
    let resp = NetworkResponse::new(
        200,
        vec![("Content-Type".to_string(), "Application/PDF".to_string())],
        "https://example.com/a.pdf".to_string(),
        vec![0u8; 1234],
    );
    let doc = document_from_response(&resp);
    assert!(doc.html.contains("Content-Type: application/pdf (1234 bytes)"));
    assert!(doc.css.is_empty());
    assert_eq!(doc.final_url, "https://example.com/a.pdf");
}

#[test]
fn document_from_text_uses_the_given_text() {
    let resp = NetworkResponse::new(
        200,
        vec![("content-type".to_string(), "TEXT/HTML".to_string())],
        "https://example.com/".to_string(),
        vec![0xff, 0xfe],
    );
    let doc = document_from_text(&resp, "<style>a{}</style>".to_string());
    assert_eq!(doc.html, "<style>a{}</style>");
    assert_eq!(doc.css, "a{}\n");
}

#[test]
fn invalid_utf8_body_is_decoded_with_replacement() {
    let resp = NetworkResponse::new(
        200,
        vec![("content-type".to_string(), "text/plain".to_string())],
        "https://example.com/".to_string(),
        vec![b'a', 0xff, b'b'],
    );
    let doc = document_from_response(&resp);
    assert!(doc.html.contains("a\u{fffd}b"));
}

// ---- escaping and style extraction ----

#[test]
fn escape_html_replaces_markup_characters() {
    assert_eq!(escape_html("a<b>&c"), "a&lt;b&gt;&amp;c");
    assert_eq!(escape_html("plain text"), "plain text");
    assert_eq!(escape_html(""), "");
}

#[test]
fn extract_inline_style_concatenates_blocks() {
    assert_eq!(
        extract_inline_style(
            "<!doctype html><html><head><style>p{color:blue}</style></head><body><p>nav-file</p></body></html>"
        ),
        "p{color:blue}\n"
    );
    assert_eq!(
        extract_inline_style("<STYLE type=text/css>a{}</Style><p></p><style>b{}</style>"),
        "a{}\nb{}\n"
    );
    assert_eq!(extract_inline_style("<styles>x</styles><p>no style</p>"), "");
    assert_eq!(extract_inline_style("<style>unclosed"), "unclosed\n");
}
