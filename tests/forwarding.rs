use fanout::envelope::{Header, RequestEnvelope};
use fanout::forward::{filter_headers, forward, hop_by_hop};
use fanout::url::compose;

fn envelope(method: &str, headers: &[(&str, &str)], body: &[u8], suffix: &str) -> RequestEnvelope {
    RequestEnvelope::new(
        method.to_string(),
        headers.iter().map(|(n, v)| Header::new(n, v)).collect(),
        body.to_vec(),
        suffix.to_string(),
    )
}

#[test]
fn compose_trailing_slash_target() {
    assert_eq!(compose("http://a/b/", "c"), "http://a/b/c");
}

#[test]
fn compose_plain_target() {
    assert_eq!(compose("http://a/b", "c"), "http://a/b/c");
}

#[test]
fn compose_empty_suffix_keeps_target() {
    assert_eq!(compose("http://a/b/", ""), "http://a/b/");
    assert_eq!(compose("http://a/b", ""), "http://a/b");
}

#[test]
fn compose_never_doubles_slashes() {
    assert_eq!(compose("http://a/b//", "/c/d"), "http://a/b/c/d");
    assert_eq!(compose("http://a/b", "/"), "http://a/b/");
}

#[test]
fn hop_by_hop_names_ignore_case() {
    assert!(hop_by_hop("Host"));
    assert!(hop_by_hop("host"));
    assert!(hop_by_hop("CONTENT-LENGTH"));
    assert!(hop_by_hop("Connection"));
    assert!(hop_by_hop("Transfer-Encoding"));
    assert!(!hop_by_hop("Content-Type"));
    assert!(!hop_by_hop("hostname"));
    assert!(!hop_by_hop("X-Host"));
}

#[test]
fn filter_drops_host_and_length_and_keeps_the_rest() {
    let env = envelope(
        "POST",
        &[
            ("Host", "inbound.example"),
            ("Content-Type", "application/json"),
            ("Content-Length", "8"),
            ("X-Trace", "abc"),
            ("x-trace", "def"),
        ],
        b"{}",
        "",
    );
    let out = filter_headers(&env.headers);
    let pairs: Vec<(String, String)> = out.into_iter().map(|h| (h.name, h.value)).collect();
    assert_eq!(
        pairs,
        vec![
            ("Content-Type".to_string(), "application/json".to_string()),
            ("X-Trace".to_string(), "abc".to_string()),
            ("x-trace".to_string(), "def".to_string()),
        ]
    );
}

#[test]
fn forward_copies_method_body_and_composes_url() {
    let env = envelope("PUT", &[("host", "x"), ("Accept", "*/*")], b"payload", "items/7");
    let r = forward("http://t/base/", &env);
    assert_eq!(r.target, "http://t/base/");
    assert_eq!(r.url, "http://t/base/items/7");
    assert_eq!(r.method, "PUT");
    assert_eq!(r.body, b"payload".to_vec());
    assert_eq!(r.headers.len(), 1);
    assert_eq!(r.headers[0].name, "Accept");
    assert_eq!(r.headers[0].value, "*/*");
}

#[test]
fn envelope_keeps_headers_as_received() {
    let env = envelope("GET", &[("Host", "h"), ("Content-Length", "0")], b"", "s");
    assert_eq!(env.headers.len(), 2);
    assert_eq!(env.headers[0].name, "Host");
    assert_eq!(env.method, "GET");
    assert_eq!(env.suffix, "s");
    assert!(env.body.is_empty());
}
