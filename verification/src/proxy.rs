//! Forwarding decisions: which rule a request falls under, where it is sent,
//! which headers go with it, and what the log records of it.

use vstd::prelude::*;
use crate::config::{Config, ProxyRule};
use crate::logger::{RequestLog, Timestamp};
use crate::text::{
    append_str, has_prefix, occurs_at, same_text, starts_with, trim_end_char, trim_end_char_text,
};
use vstd::utf8::encode_utf8;

verus! {

/// The `User-Agent` that forwarded requests carry.
pub const USER_AGENT: &'static str = "useproxy/1.0";

/// The status that a request which could not be forwarded is answered with
/// (502 Bad Gateway).
pub const BAD_GATEWAY: u16 = 502;

/// The route under which a rule's requests arrive: the rule's path followed
/// by `/*rest`.
pub fn route_path(rule_path: &str) -> (r: String)
    ensures
        r@ == rule_path@ + "/*rest"@,
{
    let mut r = String::new();
    append_str(&mut r, rule_path);
    append_str(&mut r, "/*rest");
    proof {
        assert(r@ =~= rule_path@ + "/*rest"@);
    }
    r
}

/// Rule `i` is the first of `rules` whose path begins `path`.
pub open spec fn first_match(rules: Seq<ProxyRule>, path: Seq<char>, i: int) -> bool {
    &&& 0 <= i < rules.len()
    &&& has_prefix(path, rules[i].path@)
    &&& forall|j: int| 0 <= j < i ==> !has_prefix(path, #[trigger] rules[j].path@)
}

/// The first rule whose path is a prefix of `path`, if any.
pub fn find_rule(rules: &Vec<ProxyRule>, path: &str) -> (r: Option<usize>)
    ensures
        r matches Some(i) ==> first_match(rules@, path@, i as int),
        r is None ==> forall|j: int| 0 <= j < rules@.len() ==> !has_prefix(path@, #[trigger] rules@[j].path@),
{
    let mut i: usize = 0;
    while i < rules.len()
        invariant
            0 <= i <= rules@.len(),
            forall|j: int| 0 <= j < i ==> !has_prefix(path@, #[trigger] rules@[j].path@),
        decreases rules@.len() - i,
    {
        if starts_with(path, rules[i].path.as_str()) {
            return Some(i);
        }
        i += 1;
    }
    None
}

/// The address a request is forwarded to: the target without its trailing
/// slashes, then the rest of the request path, joined by one `/` unless the
/// rest already begins with one.
pub open spec fn forwarded_uri(target: Seq<char>, rest: Seq<char>) -> Seq<char> {
    let base = trim_end_char(target, '/');
    if rest.len() > 0 && rest[0] == '/' {
        base + rest
    } else {
        base + seq!['/'] + rest
    }
}

/// The address that a request for `path`, which falls under `rule`, is
/// forwarded to: the rule's path is cut from the front of the request path
/// and the rest is joined to the rule's target.
pub fn rewrite_uri(rule: &ProxyRule, path: &str) -> (r: String)
    requires
        has_prefix(path@, rule.path@),
    ensures
        r@ == forwarded_uri(rule.target@, path@.skip(rule.path@.len() as int)),
{
    let cs = crate::text::chars_of(path);
    let plen = crate::text::chars_of(rule.path.as_str()).len();
    let rest = crate::text::string_of(&cs, plen, cs.len());
    assert(rest@ =~= path@.skip(rule.path@.len() as int));
    let mut r = trim_end_char_text(rule.target.as_str(), '/');
    let rest_chars = crate::text::chars_of(rest.as_str());
    if !(rest_chars.len() > 0 && rest_chars[0] == '/') {
        append_str(&mut r, "/");
        proof {
            reveal_strlit("/");
        }
    }
    append_str(&mut r, rest.as_str());
    r
}

/// Why a request could not be forwarded.
#[derive(Debug, Clone, PartialEq, Eq)]
pub enum ProxyError {
    /// No rule's path begins the request path.
    NoMatchingRule,
}

impl ProxyError {
    /// The text that the error is reported with.
    pub fn message(&self) -> (r: String)
        ensures
            r@ == "No matching proxy rule found"@,
    {
        "No matching proxy rule found".to_string()
    }
}

/// Where a request goes: the index of the rule that decided, and the
/// rewritten address.
#[derive(Debug, Clone, PartialEq, Eq)]
pub struct ProxyTarget {
    pub rule: usize,
    pub uri: String,
}

/// Where a request for `path` goes: the first rule whose path begins `path`
/// decides, and the address is rewritten as [`rewrite_uri`] says.
pub fn target_uri(config: &Config, path: &str) -> (r: Result<ProxyTarget, ProxyError>)
    ensures
        r matches Ok(t) ==> first_match(config.proxy.rules@, path@, t.rule as int) && t.uri@
            == forwarded_uri(
            config.proxy.rules@[t.rule as int].target@,
            path@.skip(config.proxy.rules@[t.rule as int].path@.len() as int),
        ),
        r is Err <==> forall|j: int|
            0 <= j < config.proxy.rules@.len() ==> !has_prefix(path@, #[trigger] config.proxy.rules@[j].path@),
{
    match find_rule(&config.proxy.rules, path) {
        Some(i) => {
            let uri = rewrite_uri(&config.proxy.rules[i], path);
            Ok(ProxyTarget { rule: i, uri })
        },
        None => Err(ProxyError::NoMatchingRule),
    }
}

/// The first index `k >= from` at which `p` occurs in `t`, or -1 when there is none.
pub open spec fn find_from(t: Seq<char>, p: Seq<char>, from: int) -> int
    decreases t.len() - from,
{
    if from < 0 || from >= t.len() || from + p.len() > t.len() {
        -1
    } else if occurs_at(t, p, from) {
        from
    } else {
        find_from(t, p, from + 1)
    }
}

/// The first index `k >= from` holding `/` in `t`, or the length of `t`.
pub open spec fn slash_from(t: Seq<char>, from: int) -> int
    decreases t.len() - from,
{
    if from < 0 || from >= t.len() {
        t.len() as int
    } else if t[from] == '/' {
        from
    } else {
        slash_from(t, from + 1)
    }
}

/// The origin of an address: its scheme, `://` and authority (host and
/// port), without the path; `https://api.github.com/v3` has the origin
/// `https://api.github.com`. Without `://` it is the text before the first `/`.
pub open spec fn origin_of(target: Seq<char>) -> Seq<char> {
    let sep = find_from(target, seq![':', '/', '/'], 0);
    let start = if sep >= 0 { sep + 3 } else { 0 };
    target.take(slash_from(target, start))
}

/// The origin of `target`, as [`origin_of`] says.
pub fn target_origin(target: &str) -> (r: String)
    ensures
        r@ == origin_of(target@),
{
    let cs = crate::text::chars_of(target);
    let sep: Vec<char> = vec![':', '/', '/'];
    let ghost sep_s = seq![':', '/', '/'];
    assert(sep@ =~= sep_s);
    let mut i: usize = 0;
    let mut found = false;
    while !found && i < cs.len() && cs.len() - i >= 3
        invariant
            cs@ == target@,
            sep@ == sep_s,
            0 <= i <= cs.len(),
            !found ==> find_from(target@, sep_s, 0) == find_from(target@, sep_s, i as int),
            found ==> find_from(target@, sep_s, 0) == i,
            found ==> cs.len() - i >= 3 && occurs_at(target@, sep_s, i as int),
        decreases cs.len() - i + (if found { 0int } else { 1int }),
    {
        if crate::text::occurs_at_text(&cs, &sep, i) {
            found = true;
        } else {
            i += 1;
        }
    }
    let start: usize = if found { i + 3 } else { 0 };
    proof {
        if !found {
            assert(find_from(target@, sep_s, i as int) == -1);
        } else {
            assert(occurs_at(target@, sep_s, i as int));
        }
    }
    let mut end: usize = start;
    while end < cs.len() && cs[end] != '/'
        invariant
            cs@ == target@,
            start <= end <= cs.len(),
            slash_from(target@, start as int) == slash_from(target@, end as int),
        decreases cs.len() - end,
    {
        end += 1;
    }
    assert(target@.take(end as int) =~= cs@.subrange(0, end as int));
    crate::text::string_of(&cs, 0, end)
}

/// The text views of header name and value pairs.
pub open spec fn header_views(h: Seq<(String, Vec<u8>)>) -> Seq<(Seq<char>, Seq<u8>)> {
    h.map_values(|p: (String, Vec<u8>)| (p.0@, p.1@))
}

/// The headers that are passed on: `host` is left out; when the rule
/// changes the origin, every `origin` header carries `origin` instead of its
/// own value; the others pass unchanged, in their order.
pub open spec fn forwarded(h: Seq<(Seq<char>, Seq<u8>)>, change_origin: bool, origin: Seq<u8>) -> Seq<
    (Seq<char>, Seq<u8>),
>
    decreases h.len(),
{
    if h.len() == 0 {
        h
    } else {
        let rest = forwarded(h.drop_last(), change_origin, origin);
        let (name, value) = h.last();
        if name == "host"@ {
            rest
        } else if change_origin && name == "origin"@ {
            rest.push((name, origin))
        } else {
            rest.push((name, value))
        }
    }
}

/// The request headers that are passed on for a request under `rule`
/// (header names are lower case): all but `host`, with each `origin` header
/// set to the origin of the rule's target (UTF-8) when the rule changes the
/// origin. The caller adds [`USER_AGENT`] after them.
pub fn forwarded_headers(headers: Vec<(String, Vec<u8>)>, rule: &ProxyRule) -> (r: Vec<(String, Vec<u8>)>)
    ensures
        header_views(r@) == forwarded(
            header_views(headers@),
            rule.change_origin,
            encode_utf8(origin_of(rule.target@)),
        ),
{
    let ghost all = header_views(headers@);
    let ghost origin = encode_utf8(origin_of(rule.target@));
    let origin_text = target_origin(rule.target.as_str());
    let mut kept: Vec<(String, Vec<u8>)> = Vec::new();
    for h in it: headers.into_iter()
        invariant
            it.seq() == headers@,
            all == header_views(headers@),
            origin_text@ == origin_of(rule.target@),
            origin == encode_utf8(origin_of(rule.target@)),
            header_views(kept@) == forwarded(all.take(it.index() as int), rule.change_origin, origin),
    {
        let ghost idx = it.index();
        assert(all.take(idx + 1).drop_last() =~= all.take(idx as int));
        assert(all.take(idx + 1).last() == (h.0@, h.1@));
        let (name, value) = h;
        let ghost prev = kept@;
        if same_text(name.as_str(), "host") {
        } else if rule.change_origin && same_text(name.as_str(), "origin") {
            let bytes = vstd::slice::slice_to_vec(origin_text.as_str().as_bytes());
            kept.push((name, bytes));
            assert(header_views(kept@) =~= header_views(prev).push((name@, origin)));
        } else {
            kept.push((name, value));
            assert(header_views(kept@) =~= header_views(prev).push((name@, value@)));
        }
    }
    assert(all.take(all.len() as int) =~= all);
    kept
}

/// The body that answers a request which could not be forwarded:
/// `Proxy error: ` and the error's text.
pub fn proxy_error_body(message: &str) -> (r: String)
    ensures
        r@ == "Proxy error: "@ + message@,
{
    let mut r = "Proxy error: ".to_string();
    append_str(&mut r, message);
    r
}

impl RequestLog {
    /// The entry for a request that was forwarded and answered: the target
    /// is the one the answer names, or empty when it names none.
    pub fn for_response(
        timestamp: Timestamp,
        method: String,
        path: String,
        target: Option<String>,
        status: u16,
        duration_ms: u64,
        request_headers: Vec<(String, String)>,
        response_headers: Vec<(String, String)>,
    ) -> (r: RequestLog)
        ensures
            r.timestamp == timestamp,
            r.method == method,
            r.path == path,
            target matches Some(t) ==> r.target_url == t,
            target is None ==> r.target_url@ == Seq::<char>::empty(),
            r.status == status,
            r.duration_ms == duration_ms,
            r.request_headers == request_headers,
            r.response_headers == response_headers,
    {
        let target_url = match target {
            Some(t) => t,
            None => String::new(),
        };
        RequestLog {
            timestamp,
            method,
            path,
            target_url,
            status,
            duration_ms,
            request_headers,
            response_headers,
        }
    }

    /// The entry for a request that could not be forwarded: no target, status
    /// [`BAD_GATEWAY`], no response headers.
    pub fn for_failure(
        timestamp: Timestamp,
        method: String,
        path: String,
        duration_ms: u64,
        request_headers: Vec<(String, String)>,
    ) -> (r: RequestLog)
        ensures
            r.timestamp == timestamp,
            r.method == method,
            r.path == path,
            r.target_url@ == Seq::<char>::empty(),
            r.status == BAD_GATEWAY,
            r.duration_ms == duration_ms,
            r.request_headers == request_headers,
            r.response_headers@ == Seq::<(String, String)>::empty(),
    {
        RequestLog {
            timestamp,
            method,
            path,
            target_url: String::new(),
            status: BAD_GATEWAY,
            duration_ms,
            request_headers,
            response_headers: Vec::new(),
        }
    }
}

proof fn lemma_trim_end_slash_shape(t: Seq<char>) -> (k: int)
    ensures
        0 <= k <= t.len(),
        trim_end_char(t, '/') == t.take(k),
        forall|j: int| k <= j < t.len() ==> #[trigger] t[j] == '/',
        k > 0 ==> t[k - 1] != '/',
    decreases t.len(),
{
    if t.len() > 0 && t.last() == '/' {
        let r = lemma_trim_end_slash_shape(t.drop_last());
        assert(t.drop_last().take(r) =~= t.take(r));
        assert forall|j: int| r <= j < t.len() implies #[trigger] t[j] == '/' by {
            if j < t.len() - 1 {
                assert(t[j] == t.drop_last()[j]);
            }
        }
        if r > 0 {
            assert(t[r - 1] == t.drop_last()[r - 1]);
        }
        r
    } else {
        assert(t.take(t.len() as int) =~= t);
        t.len() as int
    }
}

/// The forwarded address keeps the whole target but its trailing `/`
/// characters, then the rest of the request path: for the cut point `k`
/// (the target beyond `k` is all `/`, and the character before `k` is not),
/// the address is `target[..k]` followed by the rest when the rest begins
/// with `/`, or by `/` and the rest otherwise.
pub proof fn lemma_forwarded_uri_keeps_target(target: Seq<char>, rest: Seq<char>)
    ensures
        exists|k: int|
            #![trigger target.take(k)]
            0 <= k <= target.len() && (forall|j: int| k <= j < target.len() ==> #[trigger] target[j] == '/')
                && (k > 0 ==> target[k - 1] != '/') && (rest.len() > 0 && rest[0] == '/' ==> forwarded_uri(
                target,
                rest,
            ) == target.take(k) + rest) && (!(rest.len() > 0 && rest[0] == '/') ==> forwarded_uri(
                target,
                rest,
            ) == target.take(k) + seq!['/'] + rest),
{
    let k = lemma_trim_end_slash_shape(target);
    assert(target.take(k) == trim_end_char(target, '/'));
}

/// Number of headers of `h` whose name is not `host`.
pub open spec fn non_host_count(h: Seq<(Seq<char>, Seq<u8>)>) -> nat
    decreases h.len(),
{
    if h.len() == 0 {
        0
    } else if h.last().0 == "host"@ {
        non_host_count(h.drop_last())
    } else {
        non_host_count(h.drop_last()) + 1
    }
}

/// Forwarding passes every header on except `host`: there are exactly as
/// many forwarded headers as headers not named `host`, none of them is named
/// `host`, every header other than `host` (and, when the origin changes,
/// other than `origin`) is forwarded unchanged, and each forwarded header is
/// one of the request's or an `origin` header carrying the new origin.
pub proof fn lemma_forwarded_headers_complete(
    h: Seq<(Seq<char>, Seq<u8>)>,
    change_origin: bool,
    origin: Seq<u8>,
)
    ensures
        forwarded(h, change_origin, origin).len() == non_host_count(h),
        forall|i: int|
            0 <= i < forwarded(h, change_origin, origin).len() ==> (#[trigger] forwarded(
                h,
                change_origin,
                origin,
            )[i]).0 != "host"@,
        forall|i: int|
            0 <= i < h.len() && (#[trigger] h[i]).0 != "host"@ && !(change_origin && h[i].0 == "origin"@)
                ==> forwarded(h, change_origin, origin).contains(h[i]),
        forall|i: int|
            0 <= i < forwarded(h, change_origin, origin).len() ==> h.contains(
                #[trigger] forwarded(h, change_origin, origin)[i],
            ) || (change_origin && forwarded(h, change_origin, origin)[i] == ("origin"@, origin)),
    decreases h.len(),
{
    if h.len() > 0 {
        let prev = h.drop_last();
        lemma_forwarded_headers_complete(prev, change_origin, origin);
        let f = forwarded(h, change_origin, origin);
        let fp = forwarded(prev, change_origin, origin);
        let (name, value) = h.last();
        assert forall|i: int| 0 <= i < f.len() implies (#[trigger] f[i]).0 != "host"@ by {
            if i < fp.len() {
                assert(f[i] == fp[i]);
            }
        }
        assert forall|i: int|
            0 <= i < h.len() && (#[trigger] h[i]).0 != "host"@ && !(change_origin && h[i].0 == "origin"@)
            implies f.contains(h[i]) by {
            if i < h.len() - 1 {
                assert(h[i] == prev[i]);
                let j = choose|j: int| 0 <= j < fp.len() && fp[j] == prev[i];
                assert(f[j] == fp[j]);
            } else {
                assert(f[f.len() - 1] == h[i]);
            }
        }
        assert forall|i: int| 0 <= i < f.len() implies h.contains(#[trigger] f[i]) || (change_origin
            && f[i] == ("origin"@, origin)) by {
            if i < fp.len() {
                assert(f[i] == fp[i]);
                if prev.contains(fp[i]) {
                    let j = choose|j: int| 0 <= j < prev.len() && prev[j] == fp[i];
                    assert(h[j] == prev[j]);
                }
            } else {
                assert(h[h.len() - 1] == h.last());
            }
        }
    }
}

} // verus!
