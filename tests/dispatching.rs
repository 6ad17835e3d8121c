use fanout::dispatch::{classify, dispatch, DispatchAck, Outcome};
use fanout::envelope::{Header, RequestEnvelope};
use fanout::routing::RoutingTable;

fn post(body: &str, suffix: &str) -> RequestEnvelope {
    RequestEnvelope::new(
        "POST".to_string(),
        vec![
            Header::new("Host", "fanout.local"),
            Header::new("Content-Length", &body.len().to_string()),
            Header::new("Content-Type", "application/json"),
        ],
        body.as_bytes().to_vec(),
        suffix.to_string(),
    )
}

#[test]
fn orders_scenario_sends_two_posts() {
    let mut t = RoutingTable::new();
    t.add("orders", "http://h1/x");
    t.add("orders", "http://h2/y");
    let d = dispatch(&t, "orders", &post("{\"id\":1}", ""));
    assert_eq!(d.ack, DispatchAck::Accepted);
    assert_eq!(d.requests.len(), 2);
    let urls: Vec<&str> = d.requests.iter().map(|r| r.url.as_str()).collect();
    assert_eq!(urls, vec!["http://h1/x", "http://h2/y"]);
    for r in &d.requests {
        assert_eq!(r.method, "POST");
        assert_eq!(r.body, b"{\"id\":1}".to_vec());
    }
}

#[test]
fn unknown_route_is_not_found_and_sends_nothing() {
    let t = RoutingTable::new();
    let d = dispatch(&t, "nope", &post("x", ""));
    assert_eq!(d.ack, DispatchAck::NotFound);
    assert!(d.requests.is_empty());
}

#[test]
fn emptied_route_is_not_found_and_sends_nothing() {
    let mut t = RoutingTable::new();
    t.add("r", "http://a");
    t.remove("r", "http://a");
    let d = dispatch(&t, "r", &post("x", ""));
    assert_eq!(d.ack, DispatchAck::NotFound);
    assert!(d.requests.is_empty());
}

#[test]
fn accepted_with_fast_and_unreachable_targets() {
    let mut t = RoutingTable::new();
    t.add("r", "http://127.0.0.1:1/unreachable");
    t.add("r", "http://fast.example/");
    let d = dispatch(&t, "r", &post("x", "p"));
    assert_eq!(d.ack, DispatchAck::Accepted);
    assert_eq!(d.requests.len(), 2);
    assert_eq!(d.requests[0].url, "http://127.0.0.1:1/unreachable/p");
    assert_eq!(d.requests[1].url, "http://fast.example/p");
}

#[test]
fn same_target_twice_gives_two_attempts() {
    let mut t = RoutingTable::new();
    t.add("r", "http://dup/");
    t.add("r", "http://dup/");
    let d = dispatch(&t, "r", &post("b", ""));
    assert_eq!(d.requests.iter().filter(|r| r.target == "http://dup/").count(), 2);
}

#[test]
fn outbound_copies_drop_host_and_length() {
    let mut t = RoutingTable::new();
    t.add("r", "http://a/b");
    let d = dispatch(&t, "r", &post("abc", "c"));
    let r = &d.requests[0];
    assert_eq!(r.url, "http://a/b/c");
    assert!(r.headers.iter().all(|h| !h.name.eq_ignore_ascii_case("host")));
    assert!(r.headers.iter().all(|h| !h.name.eq_ignore_ascii_case("content-length")));
    assert_eq!(r.headers.len(), 1);
    assert_eq!(r.headers[0].name, "Content-Type");
    assert_eq!(r.headers[0].value, "application/json");
}

#[test]
fn classify_outcomes() {
    let ok = classify("http://a", Ok(204));
    assert_eq!(ok.target, "http://a");
    assert!(matches!(ok.outcome, Outcome::Delivered { status: 204 }));
    assert!(!ok.is_failure());
    let bad = classify("http://a", Ok(503));
    assert!(matches!(bad.outcome, Outcome::Rejected { status: 503 }));
    assert!(!bad.is_failure());
    let low = classify("http://a", Ok(199));
    assert!(matches!(low.outcome, Outcome::Rejected { status: 199 }));
    let gone = classify("http://a", Err("connection refused".to_string()));
    assert!(gone.is_failure());
    match gone.outcome {
        Outcome::Failed { detail } => assert_eq!(detail, "connection refused"),
        _ => panic!("expected a failure"),
    }
}
