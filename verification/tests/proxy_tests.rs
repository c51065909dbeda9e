use useproxy::config::{Config, ProxyRule};
use useproxy::logger::{RequestLog, Timestamp};
use useproxy::proxy::{
    find_rule, forwarded_headers, proxy_error_body, rewrite_uri, route_path, target_uri,
    target_origin, ProxyError, ProxyTarget, BAD_GATEWAY, USER_AGENT,
};

fn rule(path: &str, target: &str) -> ProxyRule {
    ProxyRule { path: path.to_string(), target: target.to_string(), change_origin: true }
}

#[test]
fn route_of_rule() {
    assert_eq!(route_path("/api/github"), "/api/github/*rest");
    assert_eq!(route_path(""), "/*rest");
}

#[test]
fn first_matching_rule_wins() {
    let rules = vec![rule("/api/github", "https://a"), rule("/api", "https://b"), rule("/api", "https://c")];
    assert_eq!(find_rule(&rules, "/api/github/users"), Some(0));
    assert_eq!(find_rule(&rules, "/api/other"), Some(1));
    assert_eq!(find_rule(&rules, "/static"), None);
    assert_eq!(find_rule(&rules, "/ap"), None);
}

#[test]
fn rewrite_joins_target_and_rest() {
    assert_eq!(
        rewrite_uri(&rule("/api/github", "https://api.github.com"), "/api/github/users/octocat"),
        "https://api.github.com/users/octocat"
    );
    assert_eq!(rewrite_uri(&rule("/api", "https://x.com///"), "/api/v1"), "https://x.com/v1");
    assert_eq!(rewrite_uri(&rule("/api", "https://x.com"), "/api"), "https://x.com/");
    assert_eq!(rewrite_uri(&rule("/api", "https://x.com/"), "/apiv2/z"), "https://x.com/v2/z");
    assert_eq!(rewrite_uri(&rule("", "http://h"), "/p"), "http://h/p");
}

#[test]
fn target_uri_from_config() {
    let c = Config::default();
    assert_eq!(
        target_uri(&c, "/api/github/repos"),
        Ok(ProxyTarget { rule: 0, uri: "https://api.github.com/repos".to_string() })
    );
    assert_eq!(target_uri(&c, "/other"), Err(ProxyError::NoMatchingRule));
    assert_eq!(ProxyError::NoMatchingRule.message(), "No matching proxy rule found");
}

fn headers(pairs: &[(&str, &str)]) -> Vec<(String, Vec<u8>)> {
    pairs.iter().map(|(n, v)| (n.to_string(), v.as_bytes().to_vec())).collect()
}

#[test]
fn host_header_is_not_forwarded() {
    let r = ProxyRule { path: "/api".to_string(), target: "https://x.com".to_string(), change_origin: false };
    let h = headers(&[
        ("host", "localhost:3000"),
        ("accept", "*/*"),
        ("origin", "http://localhost:5173"),
        ("host", "again"),
        ("x-token", "t"),
    ]);
    assert_eq!(
        forwarded_headers(h, &r),
        headers(&[("accept", "*/*"), ("origin", "http://localhost:5173"), ("x-token", "t")])
    );
    assert_eq!(USER_AGENT, "useproxy/1.0");
}

#[test]
fn change_origin_rewrites_origin_header() {
    let r = rule("/api/github", "https://api.github.com/v3");
    let h = headers(&[("origin", "http://localhost:5173"), ("host", "localhost:3000"), ("accept", "*/*")]);
    assert_eq!(
        forwarded_headers(h, &r),
        headers(&[("origin", "https://api.github.com"), ("accept", "*/*")])
    );
    let h = headers(&[("accept", "*/*")]);
    assert_eq!(forwarded_headers(h, &r), headers(&[("accept", "*/*")]));
}

#[test]
fn origins_of_targets() {
    assert_eq!(target_origin("https://api.github.com"), "https://api.github.com");
    assert_eq!(target_origin("http://localhost:8080/api/v1"), "http://localhost:8080");
    assert_eq!(target_origin("https://x.com/"), "https://x.com");
    assert_eq!(target_origin("example.com/path"), "example.com");
    assert_eq!(target_origin(""), "");
}

#[test]
fn failure_answer_and_entry() {
    assert_eq!(proxy_error_body("timed out"), "Proxy error: timed out");
    let t = Timestamp { secs: 10, nanos: 0 };
    let l = RequestLog::for_failure(t, "GET".to_string(), "/api/x".to_string(), 12, vec![]);
    assert_eq!(l.status, BAD_GATEWAY);
    assert_eq!(l.status, 502);
    assert_eq!(l.target_url, "");
    assert!(l.response_headers.is_empty());
    assert_eq!(l.duration_ms, 12);
}

#[test]
fn response_entry_target() {
    let t = Timestamp { secs: 10, nanos: 0 };
    let l = RequestLog::for_response(
        t,
        "GET".to_string(),
        "/api/x".to_string(),
        Some("https://h/x".to_string()),
        200,
        3,
        vec![],
        vec![("content-type".to_string(), "text/plain".to_string())],
    );
    assert_eq!(l.target_url, "https://h/x");
    assert_eq!(l.status, 200);
    let l = RequestLog::for_response(t, "GET".to_string(), "/p".to_string(), None, 204, 3, vec![], vec![]);
    assert_eq!(l.target_url, "");
}
