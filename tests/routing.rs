use flare::config::{Config, Route};
use flare::proxy::{
    copy_headers, fallback_response, relay_response, target_uri, Body, Fallback, Header,
    Resolution, Step, Upstream,
};

fn route(name: &str, forward: &str) -> Route {
    Route { route: name.to_string(), forward: forward.to_string() }
}

fn config(routes: Vec<Route>) -> Config {
    Config {
        addr: "127.0.0.1:8080".to_string(),
        disable_domain_not_configured_warns: false,
        disable_failed_to_reach_warns: false,
        routes,
    }
}

fn header(name: &str, value: &[u8]) -> Header {
    Header { name: name.to_string(), value: value.to_vec() }
}

fn same_headers(a: &[Header], b: &[Header]) -> bool {
    a.len() == b.len() && a.iter().zip(b.iter()).all(|(x, y)| x.name == y.name && x.value == y.value)
}

fn text_of(body: &Body) -> Option<&str> {
    match body {
        Body::Text(t) => Some(t.as_str()),
        Body::Upstream => None,
    }
}

#[test]
fn find_route_takes_first_of_duplicates() {
    let c = config(vec![
        route("a.example.com", "http://127.0.0.1:9001"),
        route("b.example.com", "http://127.0.0.1:9002"),
        route("a.example.com", "http://127.0.0.1:9003"),
    ]);
    let r = c.find_route("a.example.com").unwrap();
    assert_eq!(r.forward, "http://127.0.0.1:9001");
    assert_eq!(c.find_route("b.example.com").unwrap().forward, "http://127.0.0.1:9002");
}

#[test]
fn find_route_is_exact_and_case_sensitive() {
    let c = config(vec![route("a.example.com", "http://127.0.0.1:9001")]);
    assert!(c.find_route("A.example.com").is_none());
    assert!(c.find_route("a.example.com:80").is_none());
    assert!(c.find_route("").is_none());
}

#[test]
fn resolve_outcomes() {
    let c = config(vec![route("a.example.com", "http://127.0.0.1:9001")]);
    assert!(matches!(c.resolve(None), Resolution::NoHostHeader));
    match c.resolve(Some("x.example.com")) {
        Resolution::NoMatch(h) => assert_eq!(h, "x.example.com"),
        _ => panic!("expected no match"),
    }
    match c.resolve(Some("a.example.com")) {
        Resolution::Matched(r) => assert_eq!(r.forward, "http://127.0.0.1:9001"),
        _ => panic!("expected a match"),
    }
}

#[test]
fn resolve_is_repeatable() {
    let c = config(vec![
        route("a.example.com", "http://127.0.0.1:9001"),
        route("b.example.com", "http://127.0.0.1:9002"),
    ]);
    for host in ["a.example.com", "b.example.com", "c.example.com"] {
        let first = match c.resolve(Some(host)) {
            Resolution::Matched(r) => Some(r.forward.clone()),
            _ => None,
        };
        let second = match c.resolve(Some(host)) {
            Resolution::Matched(r) => Some(r.forward.clone()),
            _ => None,
        };
        assert_eq!(first, second);
    }
}

#[test]
fn missing_host_gives_404() {
    let c = config(vec![route("a.example.com", "http://127.0.0.1:9001")]);
    match c.handle_request(None, Some("/"), &vec![header("accept", b"*/*")]) {
        Step::Reply(reason, resp) => {
            assert_eq!(reason, Fallback::HostMissing);
            assert_eq!(resp.status, 404);
            assert_eq!(text_of(&resp.body), Some("Host header missing"));
            assert!(resp.headers.is_empty());
        }
        Step::Forward(_) => panic!("expected a reply"),
    }
}

#[test]
fn unknown_domain_gives_404() {
    let c = config(vec![route("a.example.com", "http://127.0.0.1:9001")]);
    match c.handle_request(Some("b.example.com"), Some("/"), &Vec::new()) {
        Step::Reply(reason, resp) => {
            assert_eq!(reason, Fallback::DomainNotConfigured);
            assert_eq!(resp.status, 404);
            assert_eq!(text_of(&resp.body), Some("Domain not configured"));
        }
        Step::Forward(_) => panic!("expected a reply"),
    }
}

#[test]
fn empty_table_gives_404() {
    let c = config(Vec::new());
    for host in ["a.example.com", "localhost", ""] {
        match c.handle_request(Some(host), None, &Vec::new()) {
            Step::Reply(reason, resp) => {
                assert_eq!(reason, Fallback::DomainNotConfigured);
                assert_eq!(resp.status, 404);
                assert_eq!(text_of(&resp.body), Some("Domain not configured"));
            }
            Step::Forward(_) => panic!("expected a reply"),
        }
    }
}

#[test]
fn matched_route_forwards_with_path_and_headers() {
    let c = config(vec![route("a.example.com", "http://127.0.0.1:9001")]);
    let headers = vec![
        header("host", b"a.example.com"),
        header("x-tag", b"one"),
        header("x-tag", b"two"),
        header("x-raw", &[0xff, 0x00, 0x7f]),
    ];
    match c.handle_request(Some("a.example.com"), Some("/x?y=1"), &headers) {
        Step::Forward(out) => {
            assert_eq!(out.uri, "http://127.0.0.1:9001/x?y=1");
            assert_eq!(out.route.route, "a.example.com");
            assert!(same_headers(&out.headers, &headers));
        }
        Step::Reply(..) => panic!("expected a forward"),
    }
}

#[test]
fn target_uri_defaults_to_root() {
    assert_eq!(target_uri("http://127.0.0.1:9001", None), "http://127.0.0.1:9001/");
    assert_eq!(target_uri("http://127.0.0.1:9001", Some("/a/b")), "http://127.0.0.1:9001/a/b");
    assert_eq!(target_uri("", Some("/q")), "/q");
}

#[test]
fn relay_keeps_status_and_headers() {
    let headers = vec![
        header("set-cookie", b"a=1"),
        header("set-cookie", b"b=2"),
        header("content-type", b"text/plain"),
    ];
    let resp = relay_response(&Upstream::Responded { status: 418, headers: copy_headers(&headers) });
    assert_eq!(resp.status, 418);
    assert!(same_headers(&resp.headers, &headers));
    assert!(matches!(resp.body, Body::Upstream));
}

#[test]
fn unreachable_upstream_gives_500() {
    let resp = relay_response(&Upstream::Unreachable);
    assert_eq!(resp.status, 500);
    assert_eq!(text_of(&resp.body), Some("Failed to proxy request"));
    assert!(resp.headers.is_empty());
}

#[test]
fn fallback_texts() {
    assert_eq!(Fallback::HostMissing.status(), 404);
    assert_eq!(Fallback::DomainNotConfigured.status(), 404);
    assert_eq!(Fallback::FailedToProxy.status(), 500);
    assert_eq!(Fallback::HostMissing.body(), "Host header missing");
    assert_eq!(Fallback::DomainNotConfigured.body(), "Domain not configured");
    assert_eq!(Fallback::FailedToProxy.body(), "Failed to proxy request");
    let r = fallback_response(Fallback::DomainNotConfigured);
    assert_eq!(r.status, 404);
}

#[test]
fn warning_switches() {
    let mut c = config(Vec::new());
    assert!(!c.warns_on(Fallback::HostMissing));
    assert!(c.warns_on(Fallback::DomainNotConfigured));
    assert!(c.warns_on(Fallback::FailedToProxy));
    c.disable_domain_not_configured_warns = true;
    assert!(!c.warns_on(Fallback::DomainNotConfigured));
    assert!(c.warns_on(Fallback::FailedToProxy));
    c.disable_failed_to_reach_warns = true;
    assert!(!c.warns_on(Fallback::FailedToProxy));
}
