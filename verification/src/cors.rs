//! The cross-origin rules that the server applies, decided from the
//! configuration and checked against what the HTTP types accept.

use vstd::prelude::*;
use crate::config::{texts, CorsConfig};
use crate::text::same_text;

verus! {

/// A character that may stand in an HTTP token (RFC 9110 `tchar`).
pub open spec fn is_tchar(c: char) -> bool {
    ||| 'a' <= c <= 'z'
    ||| 'A' <= c <= 'Z'
    ||| '0' <= c <= '9'
    ||| c == '!' || c == '#' || c == '$' || c == '%' || c == '&' || c == '\''
    ||| c == '*' || c == '+' || c == '-' || c == '.' || c == '^' || c == '_'
    ||| c == '`' || c == '|' || c == '~'
}

/// Text that `http::Method` parses: a non-empty token.
pub open spec fn valid_method(s: Seq<char>) -> bool {
    &&& s.len() >= 1
    &&& forall|i: int| 0 <= i < s.len() ==> is_tchar(#[trigger] s[i])
}

/// Text that `http::HeaderName` parses: a token of at most 65535 characters.
pub open spec fn valid_header_name(s: Seq<char>) -> bool {
    &&& valid_method(s)
    &&& s.len() <= 65535
}

/// Text that `http::HeaderValue` parses: no control character but tab, and
/// no DEL.
pub open spec fn valid_header_value(s: Seq<char>) -> bool {
    forall|i: int| 0 <= i < s.len() ==> (' ' <= #[trigger] s[i] && s[i] != '\u{7f}') || s[i] == '\t'
}

/// Whether `http::HeaderValue::from_str` accepts `s`. Its source accepts
/// exactly the texts whose every byte is at least 32 and not 127, or a tab;
/// the bytes of a non-ASCII character are all at least 128, so over
/// characters this is `valid_header_value`.
#[verifier::external_body]
fn header_value_accepts(s: &str) -> (r: bool)
    ensures
        r == valid_header_value(s@),
{
    s.parse::<axum::http::HeaderValue>().is_ok()
}

/// Whether `http::Method::from_str` accepts `s`. Its source accepts exactly
/// the non-empty texts whose every byte is a token character.
#[verifier::external_body]
fn method_accepts(s: &str) -> (r: bool)
    ensures
        r == valid_method(s@),
{
    s.parse::<axum::http::Method>().is_ok()
}

/// Whether `http::HeaderName::from_str` accepts `s`. Its source accepts
/// exactly the texts of 1 to 65535 bytes whose every byte is a token
/// character (token characters are ASCII, one byte each).
#[verifier::external_body]
fn header_name_accepts(s: &str) -> (r: bool)
    ensures
        r == valid_header_name(s@),
{
    s.parse::<axum::http::HeaderName>().is_ok()
}

/// A list of allowed values, or every value (`*`).
#[derive(Debug, Clone, PartialEq, Eq)]
pub enum Allowed {
    Any,
    List(Vec<String>),
}

/// The rules of the CORS layer: allowed origins, whether credentials are
/// allowed, allowed methods and request headers, and exposed response headers.
#[derive(Debug, Clone, PartialEq, Eq)]
pub struct CorsRules {
    pub allow_origin: Allowed,
    pub allow_credentials: bool,
    pub allow_methods: Vec<String>,
    pub allow_headers: Allowed,
    pub expose_headers: Allowed,
}

/// Every element of `s` is valid as `valid` says.
pub open spec fn all_valid(s: Seq<Seq<char>>, valid: spec_fn(Seq<char>) -> bool) -> bool {
    forall|i: int| 0 <= i < s.len() ==> valid(#[trigger] s[i])
}

/// The configured origins allow every origin.
pub open spec fn any_origin(c: CorsConfig) -> bool {
    texts(c.allowed_origins@).contains("*"@)
}

/// The configured headers allow every request header.
pub open spec fn any_header(c: CorsConfig) -> bool {
    texts(c.allowed_headers@).contains("*"@)
}

/// Whether `"*"` is one of `v`.
fn has_star(v: &Vec<String>) -> (r: bool)
    ensures
        r == texts(v@).contains("*"@),
{
    let mut i: usize = 0;
    while i < v.len()
        invariant
            0 <= i <= v@.len(),
            forall|j: int| 0 <= j < i ==> texts(v@)[j] != "*"@,
        decreases v@.len() - i,
    {
        if same_text(v[i].as_str(), "*") {
            assert(texts(v@)[i as int] == "*"@);
            return true;
        }
        i += 1;
    }
    false
}

/// Which kind of value a list holds, for checking it.
enum ValueKind {
    Origin,
    Method,
    Header,
}

/// The check on an allowed origin.
pub open spec fn origin_check() -> spec_fn(Seq<char>) -> bool {
    |s: Seq<char>| valid_header_value(s)
}

/// The check on an allowed method.
pub open spec fn method_check() -> spec_fn(Seq<char>) -> bool {
    |s: Seq<char>| valid_method(s)
}

/// The check on an allowed request header.
pub open spec fn header_check() -> spec_fn(Seq<char>) -> bool {
    |s: Seq<char>| valid_header_name(s)
}

spec fn kind_valid(k: ValueKind) -> spec_fn(Seq<char>) -> bool {
    match k {
        ValueKind::Origin => origin_check(),
        ValueKind::Method => method_check(),
        ValueKind::Header => header_check(),
    }
}

/// Whether every value of `v` passes the check of its kind.
fn all_accepted(v: &Vec<String>, kind: ValueKind) -> (r: bool)
    ensures
        r == all_valid(texts(v@), kind_valid(kind)),
{
    let mut i: usize = 0;
    while i < v.len()
        invariant
            0 <= i <= v@.len(),
            forall|j: int| 0 <= j < i ==> (kind_valid(kind))(#[trigger] texts(v@)[j]),
        decreases v@.len() - i,
    {
        let s = v[i].as_str();
        let ok = match kind {
            ValueKind::Origin => header_value_accepts(s),
            ValueKind::Method => method_accepts(s),
            ValueKind::Header => header_name_accepts(s),
        };
        if !ok {
            assert(texts(v@)[i as int] == v@[i as int]@);
            return false;
        }
        i += 1;
    }
    true
}

/// A copy of `v`.
fn copy_texts(v: &Vec<String>) -> (r: Vec<String>)
    ensures
        texts(r@) == texts(v@),
{
    let mut out: Vec<String> = Vec::new();
    let mut i: usize = 0;
    while i < v.len()
        invariant
            0 <= i <= v@.len(),
            texts(out@) == texts(v@).take(i as int),
        decreases v@.len() - i,
    {
        let c = v[i].clone();
        let ghost prev = out@;
        out.push(c);
        assert(texts(out@) =~= texts(prev).push(c@));
        assert(texts(v@).take(i + 1) =~= texts(v@).take(i as int).push(v@[i as int]@));
        i += 1;
    }
    assert(texts(v@).take(i as int) =~= texts(v@));
    out
}

/// Credentials are never allowed together with a wildcard origin, header
/// list or exposed header list (the combination that tower-http refuses when
/// the layer is applied).
pub open spec fn credentials_consistent(r: CorsRules) -> bool {
    r.allow_credentials ==> {
        &&& !(r.allow_origin is Any)
        &&& !(r.allow_headers is Any)
        &&& !(r.expose_headers is Any)
    }
}

/// The configuration's origins pass their check, unless every origin is allowed.
pub open spec fn origins_ok(c: CorsConfig) -> bool {
    any_origin(c) || all_valid(texts(c.allowed_origins@), origin_check())
}

/// The configuration's request headers pass their check, unless every header is allowed.
pub open spec fn headers_ok(c: CorsConfig) -> bool {
    any_header(c) || all_valid(texts(c.allowed_headers@), header_check())
}

/// Every configured value that the CORS layer parses is accepted by the
/// HTTP types: the origins (unless one of them is `*`), the methods, and the
/// request headers (unless one of them is `*`).
pub open spec fn cors_config_valid(c: CorsConfig) -> bool {
    &&& origins_ok(c)
    &&& all_valid(texts(c.allowed_methods@), method_check())
    &&& headers_ok(c)
}

/// Whether the CORS layer can be built from `config` (see
/// [`cors_config_valid`]); where it cannot, building it panics.
pub fn cors_config_is_valid(config: &CorsConfig) -> (r: bool)
    ensures
        r == cors_config_valid(*config),
{
    let origins = has_star(&config.allowed_origins) || all_accepted(&config.allowed_origins, ValueKind::Origin);
    let methods = all_accepted(&config.allowed_methods, ValueKind::Method);
    let headers = has_star(&config.allowed_headers) || all_accepted(&config.allowed_headers, ValueKind::Header);
    origins && methods && headers
}

/// The CORS rules for `config`. When the origins hold `*`, every origin is
/// allowed and credentials are not; otherwise the listed origins are allowed,
/// with credentials. The listed methods are allowed. When the headers hold
/// `*`, every request header is allowed; otherwise the listed ones. Every
/// response header is exposed. The configured values must parse as HTTP
/// values ([`cors_config_is_valid`] tells).
pub fn create_cors_layer(config: &CorsConfig) -> (rules: CorsRules)
    requires
        cors_config_valid(*config),
    ensures
        any_origin(*config) ==> rules.allow_origin is Any && !rules.allow_credentials,
        !any_origin(*config) ==> rules.allow_credentials && (rules.allow_origin matches Allowed::List(o)
            && texts(o@) == texts(config.allowed_origins@)),
        texts(rules.allow_methods@) == texts(config.allowed_methods@),
        any_header(*config) ==> rules.allow_headers is Any,
        !any_header(*config) ==> (rules.allow_headers matches Allowed::List(h) && texts(h@) == texts(
            config.allowed_headers@,
        )),
        rules.expose_headers is Any,
        credentials_consistent(rules) <==> any_origin(*config),
{
    let (allow_origin, allow_credentials) = if has_star(&config.allowed_origins) {
        (Allowed::Any, false)
    } else {
        (Allowed::List(copy_texts(&config.allowed_origins)), true)
    };
    let allow_methods = copy_texts(&config.allowed_methods);
    let allow_headers = if has_star(&config.allowed_headers) {
        Allowed::Any
    } else {
        Allowed::List(copy_texts(&config.allowed_headers))
    };
    CorsRules { allow_origin, allow_credentials, allow_methods, allow_headers, expose_headers: Allowed::Any }
}

} // verus!
