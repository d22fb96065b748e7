//! HTTP responses.

use muskitty::network::NetworkResponse;

fn response(status: u16, headers: &[(&str, &str)], body: &[u8]) -> NetworkResponse {
    NetworkResponse::new(
        status,
        headers
            .iter()
            .map(|(k, v)| (k.to_string(), v.to_string()))
            .collect(),
        "https://example.com/final".to_string(),
        body.to_vec(),
    )
}

#[test]
fn header_lookup_ignores_case_and_takes_the_first() {
    let r = response(
        200,
        &[("Set-Cookie", "a=1"), ("Content-Type", "text/html"), ("set-cookie", "b=2")],
        b"",
    );
    assert_eq!(r.header("content-type"), Some("text/html"));
    assert_eq!(r.header("SET-COOKIE"), Some("a=1"));
    assert_eq!(r.header("location"), None);
}

#[test]
fn success_is_2xx() {
    assert!(response(200, &[], b"").is_success());
    assert!(response(299, &[], b"").is_success());
    assert!(!response(199, &[], b"").is_success());
    assert!(!response(301, &[], b"").is_success());
    assert!(!response(404, &[], b"").is_success());
}

#[test]
fn text_and_body_bytes() {
    let r = response(200, &[], b"hello");
    assert_eq!(r.text(), "hello");
    assert_eq!(r.body_bytes(), b"hello");
    assert_eq!(r.final_url(), "https://example.com/final");
    let bad = response(200, &[], &[0xe2, 0x82]);
    assert_eq!(bad.text(), "\u{fffd}");
}
