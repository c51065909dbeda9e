use useproxy::config::CorsConfig;
use useproxy::cors::{cors_config_is_valid, create_cors_layer, Allowed};

fn strings(v: &[&str]) -> Vec<String> {
    v.iter().map(|s| s.to_string()).collect()
}

#[test]
fn default_config_allows_any_origin_without_credentials() {
    let r = create_cors_layer(&CorsConfig::default());
    assert_eq!(r.allow_origin, Allowed::Any);
    assert!(!r.allow_credentials);
    assert_eq!(r.allow_methods, strings(&["GET", "POST", "PUT", "DELETE", "OPTIONS"]));
    assert_eq!(r.allow_headers, Allowed::List(strings(&["Content-Type", "Authorization"])));
    assert_eq!(r.expose_headers, Allowed::Any);
}

#[test]
fn listed_origins_allow_credentials() {
    let c = CorsConfig {
        allowed_origins: strings(&["http://localhost:5173", "https://app.example"]),
        allowed_methods: strings(&["GET"]),
        allowed_headers: strings(&["*"]),
    };
    assert!(cors_config_is_valid(&c));
    let r = create_cors_layer(&c);
    assert_eq!(r.allow_origin, Allowed::List(strings(&["http://localhost:5173", "https://app.example"])));
    assert!(r.allow_credentials);
    assert_eq!(r.allow_headers, Allowed::Any);
}

#[test]
fn star_among_origins_ignores_the_others() {
    let c = CorsConfig {
        allowed_origins: strings(&["bad\norigin", "*"]),
        allowed_methods: strings(&["GET"]),
        allowed_headers: strings(&[]),
    };
    assert!(cors_config_is_valid(&c));
    let r = create_cors_layer(&c);
    assert_eq!(r.allow_origin, Allowed::Any);
    assert_eq!(r.allow_headers, Allowed::List(vec![]));
}

#[test]
fn invalid_values_are_detected() {
    let mut c = CorsConfig {
        allowed_origins: strings(&["http://ok", "bad\norigin"]),
        allowed_methods: strings(&["GET"]),
        allowed_headers: strings(&["X-Custom"]),
    };
    assert!(!cors_config_is_valid(&c));
    c.allowed_origins = strings(&["http://ok\tspaced é"]);
    assert!(cors_config_is_valid(&c));
    c.allowed_origins = strings(&["also\u{7f}bad"]);
    assert!(!cors_config_is_valid(&c));
    c.allowed_origins = strings(&["*", "also\u{7f}bad"]);
    assert!(cors_config_is_valid(&c));
    c.allowed_methods = strings(&["GE T"]);
    assert!(!cors_config_is_valid(&c));
    c.allowed_methods = strings(&["PATCH", "PURGE"]);
    c.allowed_headers = strings(&["Bad Header"]);
    assert!(!cors_config_is_valid(&c));
    c.allowed_headers = strings(&["Bad Header", "*"]);
    assert!(cors_config_is_valid(&c));
    c.allowed_headers = strings(&["X-Custom", "x-other"]);
    assert!(cors_config_is_valid(&c));
}

#[test]
fn empty_method_and_header_are_refused() {
    let c = CorsConfig { allowed_origins: strings(&["*"]), allowed_methods: strings(&[""]), allowed_headers: strings(&[]) };
    assert!(!cors_config_is_valid(&c));
    let c = CorsConfig { allowed_origins: strings(&["*"]), allowed_methods: strings(&[]), allowed_headers: strings(&[""]) };
    assert!(!cors_config_is_valid(&c));
}
