use useproxy::config::{
    Config, CorsConfig, HttpsConfig, ProxyConfig, ProxyRule, RuleFormatError, StaticFilesConfig,
};

fn rule(path: &str, target: &str, change_origin: bool) -> ProxyRule {
    ProxyRule { path: path.to_string(), target: target.to_string(), change_origin }
}

#[test]
fn https_defaults() {
    let h = HttpsConfig::default();
    assert!(!h.enabled);
    assert_eq!(h.cert_file, "cert.pem");
    assert_eq!(h.key_file, "key.pem");
}

#[test]
fn static_files_defaults() {
    let s = StaticFilesConfig::default();
    assert!(s.enabled);
    assert_eq!(s.directory, "./public");
}

#[test]
fn proxy_defaults() {
    let p = ProxyConfig::default();
    assert_eq!(p.rules, vec![rule("/api/github", "https://api.github.com", true)]);
}

#[test]
fn cors_defaults() {
    let c = CorsConfig::default();
    assert_eq!(c.allowed_origins, vec!["*".to_string()]);
    assert_eq!(c.allowed_methods, vec!["GET", "POST", "PUT", "DELETE", "OPTIONS"]);
    assert_eq!(c.allowed_headers, vec!["Content-Type", "Authorization"]);
}

#[test]
fn config_defaults() {
    let c = Config::default();
    assert_eq!(c.port, 3000);
    assert_eq!(c.host, "127.0.0.1");
    assert_eq!(c.https, HttpsConfig::default());
    assert_eq!(c.static_files, StaticFilesConfig::default());
    assert_eq!(c.proxy, ProxyConfig::default());
    assert_eq!(c.cors, CorsConfig::default());
}

#[test]
fn server_addr_of_defaults() {
    assert_eq!(Config::default().server_addr(), "127.0.0.1:3000");
}

#[test]
fn server_addr_edges() {
    let mut c = Config::default();
    c.host = "0.0.0.0".to_string();
    c.port = 0;
    assert_eq!(c.server_addr(), "0.0.0.0:0");
    c.port = 65535;
    assert_eq!(c.server_addr(), "0.0.0.0:65535");
    c.port = 8080;
    assert_eq!(c.server_addr(), "0.0.0.0:8080");
}

#[test]
fn logs_url_follows_tls() {
    let mut c = Config::default();
    assert_eq!(c.logs_url(), "http://localhost:3000/logs");
    c.https.enabled = true;
    c.port = 8443;
    assert_eq!(c.logs_url(), "https://localhost:8443/logs");
}

#[test]
fn load_without_file_gives_defaults() {
    assert_eq!(Config::load(None), Config::default());
}

#[test]
fn load_with_file_gives_its_contents() {
    let mut c = Config::default();
    c.port = 9000;
    c.proxy.rules.clear();
    assert_eq!(Config::load(Some(c.clone())), c);
}

#[test]
fn save_writes_config_json() {
    let c = Config::default();
    let w = c.save();
    assert_eq!(w.path, "config.json");
    assert_eq!(*w.config, c);
}

#[test]
fn tls_files_only_when_enabled() {
    let mut c = Config::default();
    assert_eq!(c.tls_files(), None);
    c.https.enabled = true;
    assert_eq!(c.tls_files(), Some(("cert.pem".to_string(), "key.pem".to_string())));
}

#[test]
fn certificates_needed_only_with_tls_and_a_missing_file() {
    let mut c = Config::default();
    assert!(!c.needs_certificates(false, false));
    c.https.enabled = true;
    assert!(c.needs_certificates(false, true));
    assert!(c.needs_certificates(true, false));
    assert!(!c.needs_certificates(true, true));
}

#[test]
fn run_options_override() {
    let mut c = Config::default();
    c.https.enabled = true;
    c.apply_run_options(Some(8080), Some("0.0.0.0".to_string()), false);
    assert_eq!(c.port, 8080);
    assert_eq!(c.host, "0.0.0.0");
    assert!(!c.https.enabled);
    c.apply_run_options(None, None, true);
    assert_eq!(c.port, 8080);
    assert_eq!(c.host, "0.0.0.0");
    assert!(c.https.enabled);
}

#[test]
fn add_remove_clear_rules() {
    let mut p = ProxyConfig::default();
    p.add_rule(rule("/a", "http://a", false));
    p.add_rule(rule("/b", "http://b", true));
    p.add_rule(rule("/a", "http://a2", true));
    assert_eq!(p.rules.len(), 4);
    p.remove_rules("/a");
    assert_eq!(
        p.rules,
        vec![rule("/api/github", "https://api.github.com", true), rule("/b", "http://b", true)]
    );
    p.remove_rules("/missing");
    assert_eq!(p.rules.len(), 2);
    p.clear_rules();
    assert!(p.rules.is_empty());
}

#[test]
fn add_then_remove_same_path() {
    let mut with = ProxyConfig::default();
    with.add_rule(rule("/x", "http://x", false));
    with.remove_rules("/x");
    let mut without = ProxyConfig::default();
    without.remove_rules("/x");
    assert_eq!(with, without);
}

#[test]
fn parse_rule_with_spaces() {
    let r = ProxyRule::parse("/api/chat -> https://api.example.com/chat", false).unwrap();
    assert_eq!(r, rule("/api/chat", "https://api.example.com/chat", false));
    let r = ProxyRule::parse("  /api/github->https://api.github.com\t", true).unwrap();
    assert_eq!(r, rule("/api/github", "https://api.github.com", true));
}

#[test]
fn parse_rule_needs_exactly_one_arrow() {
    assert_eq!(ProxyRule::parse("/api https://x", false), Err(RuleFormatError::NotOneArrow));
    assert_eq!(ProxyRule::parse("/a -> /b -> /c", false), Err(RuleFormatError::NotOneArrow));
    assert_eq!(ProxyRule::parse("", false), Err(RuleFormatError::NotOneArrow));
    assert_eq!(ProxyRule::parse("->->", false), Err(RuleFormatError::NotOneArrow));
}

#[test]
fn parse_rule_edge_sides() {
    assert_eq!(ProxyRule::parse("->", true).unwrap(), rule("", "", true));
    assert_eq!(ProxyRule::parse("a-->b", false).unwrap(), rule("a-", "b", false));
    assert_eq!(ProxyRule::parse("a->>b", false).unwrap(), rule("a", ">b", false));
    assert_eq!(ProxyRule::parse("\u{3000}/p -> /t\u{a0}", false).unwrap(), rule("/p", "/t", false));
}

#[test]
fn written_rule_reads_back() {
    for (p, t) in [("/api/github", "https://api.github.com"), ("", "x"), ("/a b", "c d")] {
        let text = format!("{} -> {}", p, t);
        assert_eq!(ProxyRule::parse(&text, true).unwrap(), rule(p, t, true));
    }
}

#[test]
fn describe_rule() {
    assert_eq!(
        rule("/api", "https://x", true).describe(),
        "/api -> https://x (change_origin: true)"
    );
    assert_eq!(rule("/b", "http://b", false).describe(), "/b -> http://b (change_origin: false)");
}
