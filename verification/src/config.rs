//! The proxy's configuration: its parts, their defaults, and the edits that
//! the command line makes to it.

use vstd::prelude::*;
use crate::text::{
    append_str, bool_text, chars_of, decimal, has_substring, is_white_space, occurs_at, push_decimal,
    string_of, trim, trim_end, trim_start, trim_text,
};

verus! {

/// The character views of a sequence of strings.
pub open spec fn texts(v: Seq<String>) -> Seq<Seq<char>> {
    v.map_values(|s: String| s@)
}

/// HTTPS settings: whether the server speaks TLS, and where its certificate
/// and private key are kept.
#[derive(Debug, Clone, PartialEq, Eq)]
pub struct HttpsConfig {
    pub enabled: bool,
    pub cert_file: String,
    pub key_file: String,
}

impl HttpsConfig {
    /// TLS off, certificate in `cert.pem`, key in `key.pem`.
    pub open spec fn is_default(self) -> bool {
        &&& !self.enabled
        &&& self.cert_file@ == "cert.pem"@
        &&& self.key_file@ == "key.pem"@
    }
}

impl Default for HttpsConfig {
    fn default() -> (r: Self)
        ensures
            r.is_default(),
    {
        HttpsConfig { enabled: false, cert_file: "cert.pem".to_string(), key_file: "key.pem".to_string() }
    }
}

/// Whether static files are served, and from which directory.
#[derive(Debug, Clone, PartialEq, Eq)]
pub struct StaticFilesConfig {
    pub enabled: bool,
    pub directory: String,
}

impl StaticFilesConfig {
    /// Serving on, from `./public`.
    pub open spec fn is_default(self) -> bool {
        &&& self.enabled
        &&& self.directory@ == "./public"@
    }
}

impl Default for StaticFilesConfig {
    fn default() -> (r: Self)
        ensures
            r.is_default(),
    {
        StaticFilesConfig { enabled: true, directory: "./public".to_string() }
    }
}

/// One forwarding rule: requests under `path` go to `target`.
#[derive(Debug, Clone, PartialEq, Eq)]
pub struct ProxyRule {
    pub path: String,
    pub target: String,
    pub change_origin: bool,
}

/// The forwarding rules, in the order in which they are tried.
#[derive(Debug, Clone, PartialEq, Eq)]
pub struct ProxyConfig {
    pub rules: Vec<ProxyRule>,
}

impl ProxyConfig {
    /// The single rule `/api/github -> https://api.github.com`, changing the origin.
    pub open spec fn is_default(self) -> bool {
        &&& self.rules@.len() == 1
        &&& self.rules@[0].path@ == "/api/github"@
        &&& self.rules@[0].target@ == "https://api.github.com"@
        &&& self.rules@[0].change_origin
    }
}

impl Default for ProxyConfig {
    fn default() -> (r: Self)
        ensures
            r.is_default(),
    {
        let rule = ProxyRule {
            path: "/api/github".to_string(),
            target: "https://api.github.com".to_string(),
            change_origin: true,
        };
        ProxyConfig { rules: vec![rule] }
    }
}

/// Cross-origin settings: allowed origins, methods and request headers.
#[derive(Debug, Clone, PartialEq, Eq)]
pub struct CorsConfig {
    pub allowed_origins: Vec<String>,
    pub allowed_methods: Vec<String>,
    pub allowed_headers: Vec<String>,
}

impl CorsConfig {
    /// Any origin; GET, POST, PUT, DELETE, OPTIONS; Content-Type and Authorization.
    pub open spec fn is_default(self) -> bool {
        &&& texts(self.allowed_origins@) == seq!["*"@]
        &&& texts(self.allowed_methods@) == seq!["GET"@, "POST"@, "PUT"@, "DELETE"@, "OPTIONS"@]
        &&& texts(self.allowed_headers@) == seq!["Content-Type"@, "Authorization"@]
    }
}

impl Default for CorsConfig {
    fn default() -> (r: Self)
        ensures
            r.is_default(),
    {
        let r = CorsConfig {
            allowed_origins: vec!["*".to_string()],
            allowed_methods: vec![
                "GET".to_string(),
                "POST".to_string(),
                "PUT".to_string(),
                "DELETE".to_string(),
                "OPTIONS".to_string(),
            ],
            allowed_headers: vec!["Content-Type".to_string(), "Authorization".to_string()],
        };
        assert(texts(r.allowed_origins@) =~= seq!["*"@]);
        assert(texts(r.allowed_methods@) =~= seq!["GET"@, "POST"@, "PUT"@, "DELETE"@, "OPTIONS"@]);
        assert(texts(r.allowed_headers@) =~= seq!["Content-Type"@, "Authorization"@]);
        r
    }
}

/// The whole configuration of the proxy.
#[derive(Debug, Clone, PartialEq, Eq)]
pub struct Config {
    pub port: u16,
    pub host: String,
    pub https: HttpsConfig,
    pub static_files: StaticFilesConfig,
    pub proxy: ProxyConfig,
    pub cors: CorsConfig,
}

impl Config {
    /// Port 3000 on 127.0.0.1, every part at its own default.
    pub open spec fn is_default(self) -> bool {
        &&& self.port == 3000
        &&& self.host@ == "127.0.0.1"@
        &&& self.https.is_default()
        &&& self.static_files.is_default()
        &&& self.proxy.is_default()
        &&& self.cors.is_default()
    }
}

impl Default for Config {
    fn default() -> (r: Self)
        ensures
            r.is_default(),
    {
        Config {
            port: 3000,
            host: "127.0.0.1".to_string(),
            https: HttpsConfig::default(),
            static_files: StaticFilesConfig::default(),
            proxy: ProxyConfig::default(),
            cors: CorsConfig::default(),
        }
    }
}

/// Where a configuration is to be written: the file, and the configuration.
pub struct ConfigWrite<'a> {
    pub path: String,
    pub config: &'a Config,
}

impl Config {
    /// The file that holds the configuration when no other is named.
    pub open spec fn default_file() -> Seq<char> {
        "config.json"@
    }

    /// The name of the file that holds the configuration when no other is named.
    pub fn config_file() -> (r: String)
        ensures
            r@ == Config::default_file(),
    {
        "config.json".to_string()
    }

    /// The configuration that loading `config.json` yields once the file has
    /// been looked for: the parsed contents where the file exists (`found`),
    /// the defaults where it does not.
    pub fn load(found: Option<Config>) -> (r: Config)
        ensures
            found matches Some(c) ==> r == c,
            found is None ==> r.is_default(),
    {
        match found {
            Some(c) => c,
            None => Config::default(),
        }
    }

    /// Saving writes this configuration to `config.json`.
    pub fn save(&self) -> (w: ConfigWrite<'_>)
        ensures
            w.path@ == Config::default_file(),
            w.config == self,
    {
        ConfigWrite { path: Config::config_file(), config: self }
    }

    /// The address the server binds: `host:port`.
    pub fn server_addr(&self) -> (r: String)
        ensures
            r@ == self.host@ + ":"@ + decimal(self.port as nat),
    {
        let mut r = self.host.clone();
        append_str(&mut r, ":");
        push_decimal(&mut r, self.port as u64);
        r
    }

    /// The page that shows the request log:
    /// `http://localhost:PORT/logs`, or `https://...` when TLS is on.
    pub fn logs_url(&self) -> (r: String)
        ensures
            r@ == (if self.https.enabled { "https://localhost:"@ } else { "http://localhost:"@ })
                + decimal(self.port as nat) + "/logs"@,
    {
        let mut r = if self.https.enabled {
            "https://localhost:".to_string()
        } else {
            "http://localhost:".to_string()
        };
        push_decimal(&mut r, self.port as u64);
        append_str(&mut r, "/logs");
        r
    }

    /// The certificate and key files to read when TLS is on; none when it is off.
    pub fn tls_files(&self) -> (r: Option<(String, String)>)
        ensures
            self.https.enabled ==> (r matches Some((c, k)) && c@ == self.https.cert_file@ && k@
                == self.https.key_file@),
            !self.https.enabled ==> r is None,
    {
        if !self.https.enabled {
            None
        } else {
            Some((self.https.cert_file.clone(), self.https.key_file.clone()))
        }
    }

    /// Whether a self-signed certificate has to be generated before the server
    /// starts: TLS is on and the certificate or the key file is missing.
    pub fn needs_certificates(&self, cert_exists: bool, key_exists: bool) -> (r: bool)
        ensures
            r == (self.https.enabled && (!cert_exists || !key_exists)),
    {
        self.https.enabled && (!cert_exists || !key_exists)
    }

    /// Applies the options of `run`: a given port and host replace the
    /// configured ones, and TLS is switched on or off as `https` says.
    pub fn apply_run_options(&mut self, port: Option<u16>, host: Option<String>, https: bool)
        ensures
            final(self).port == (if let Some(p) = port { p } else { old(self).port }),
            final(self).host == (if let Some(h) = host { h } else { old(self).host }),
            final(self).https.enabled == https,
            final(self).https.cert_file == old(self).https.cert_file,
            final(self).https.key_file == old(self).https.key_file,
            final(self).static_files == old(self).static_files,
            final(self).proxy == old(self).proxy,
            final(self).cors == old(self).cors,
    {
        if let Some(p) = port {
            self.port = p;
        }
        if let Some(h) = host {
            self.host = h;
        }
        self.https.enabled = https;
    }
}

/// The rules of `rules` whose path differs from `path`, in their order.
pub open spec fn rules_without(rules: Seq<ProxyRule>, path: Seq<char>) -> Seq<ProxyRule>
    decreases rules.len(),
{
    if rules.len() == 0 {
        rules
    } else {
        let rest = rules_without(rules.drop_last(), path);
        if rules.last().path@ == path {
            rest
        } else {
            rest.push(rules.last())
        }
    }
}

impl ProxyConfig {
    /// Appends `rule` after the existing rules.
    pub fn add_rule(&mut self, rule: ProxyRule)
        ensures
            final(self).rules@ == old(self).rules@.push(rule),
    {
        self.rules.push(rule);
    }

    /// Removes every rule whose path is `path`, keeping the others in order.
    pub fn remove_rules(&mut self, path: &str)
        ensures
            final(self).rules@ == rules_without(old(self).rules@, path@),
    {
        let mut old_rules: Vec<ProxyRule> = Vec::new();
        std::mem::swap(&mut old_rules, &mut self.rules);
        let ghost all = old_rules@;
        let mut kept: Vec<ProxyRule> = Vec::new();
        for rule in it: old_rules.into_iter()
            invariant
                it.seq() == all,
                kept@ == rules_without(all.take(it.index() as int), path@),
        {
            assert(all.take(it.index() + 1).drop_last() =~= all.take(it.index() as int));
            if !crate::text::same_text(rule.path.as_str(), path) {
                kept.push(rule);
            }
        }
        assert(all.take(all.len() as int) =~= all);
        self.rules = kept;
    }

    /// Removes every rule.
    pub fn clear_rules(&mut self)
        ensures
            final(self).rules@.len() == 0,
    {
        self.rules.clear();
    }
}

/// The separator of a rule's path and target on the command line.
pub open spec fn arrow() -> Seq<char> {
    seq!['-', '>']
}

/// `->` occurs in `s` at `i` and nowhere else.
pub open spec fn only_arrow_at(s: Seq<char>, i: int) -> bool {
    &&& occurs_at(s, arrow(), i)
    &&& forall|j: int| occurs_at(s, arrow(), j) ==> j == i
}

/// Why a rule given on the command line was refused.
#[derive(Debug, Clone, PartialEq, Eq)]
pub enum RuleFormatError {
    /// The text does not hold exactly one `->`.
    NotOneArrow,
}

impl ProxyRule {
    /// The line that lists this rule: `PATH -> TARGET (change_origin: BOOL)`.
    pub fn describe(&self) -> (r: String)
        ensures
            r@ == self.path@ + " -> "@ + self.target@ + " (change_origin: "@ + bool_text(
                self.change_origin,
            ) + ")"@,
    {
        let mut r = self.path.clone();
        append_str(&mut r, " -> ");
        append_str(&mut r, self.target.as_str());
        append_str(&mut r, " (change_origin: ");
        if self.change_origin {
            append_str(&mut r, "true");
        } else {
            append_str(&mut r, "false");
        }
        append_str(&mut r, ")");
        proof {
            reveal_strlit("true");
            reveal_strlit("false");
        }
        r
    }

    /// Reads a rule written as `PATH -> TARGET`: the text must hold exactly
    /// one `->`; the two sides, with white space trimmed, are the path and
    /// the target.
    pub fn parse(rule: &str, change_origin: bool) -> (r: Result<ProxyRule, RuleFormatError>)
        ensures
            r matches Ok(p) ==> exists|i: int|
                only_arrow_at(rule@, i) && p.path@ == trim(rule@.take(i)) && p.target@ == trim(
                    rule@.skip(i + 2),
                ) && p.change_origin == change_origin,
            r is Err <==> !exists|i: int| only_arrow_at(rule@, i),
    {
        let cs = chars_of(rule);
        let mut i: usize = 0;
        while cs.len() - i >= 2 && !(cs[i] == '-' && cs[i + 1] == '>')
            invariant
                cs@ == rule@,
                0 <= i <= cs.len(),
                forall|j: int| 0 <= j < i ==> !occurs_at(rule@, arrow(), j),
            decreases cs.len() - i,
        {
            proof {
                if occurs_at(rule@, arrow(), i as int) {
                    assert(rule@.subrange(i as int, i + 2)[0] == cs@[i as int]);
                    assert(rule@.subrange(i as int, i + 2)[1] == cs@[i + 1]);
                }
            }
            i += 1;
        }
        if cs.len() - i < 2 {
            assert forall|j: int| !occurs_at(rule@, arrow(), j) by {
                if 0 <= j && j + 2 <= rule@.len() {
                    assert(j < i);
                }
            }
            return Err(RuleFormatError::NotOneArrow);
        }
        assert(rule@.subrange(i as int, i + 2) =~= arrow());
        assert(occurs_at(rule@, arrow(), i as int));
        let mut j: usize = i + 2;
        assert(j <= cs.len());
        while cs.len() - j >= 2 && !(cs[j] == '-' && cs[j + 1] == '>')
            invariant
                cs@ == rule@,
                i + 2 <= j <= cs.len(),
                forall|k: int| i + 2 <= k < j ==> !occurs_at(rule@, arrow(), k),
            decreases cs.len() - j,
        {
            proof {
                if occurs_at(rule@, arrow(), j as int) {
                    assert(rule@.subrange(j as int, j + 2)[0] == cs@[j as int]);
                    assert(rule@.subrange(j as int, j + 2)[1] == cs@[j + 1]);
                }
            }
            j += 1;
        }
        if cs.len() - j >= 2 {
            assert(rule@.subrange(j as int, j + 2) =~= arrow());
            assert(occurs_at(rule@, arrow(), j as int));
            assert forall|k: int| !only_arrow_at(rule@, k) by {
                if only_arrow_at(rule@, k) {
                    assert(k == i);
                    assert(j == k);
                }
            }
            return Err(RuleFormatError::NotOneArrow);
        }
        assert(only_arrow_at(rule@, i as int)) by {
            assert forall|k: int| occurs_at(rule@, arrow(), k) implies k == i by {
                if k == i + 1 {
                    assert(rule@.subrange(k, k + 2)[0] == cs@[i + 1]);
                }
                if k > i + 1 && k < j {
                    assert(k >= i + 2);
                }
                if k >= j {
                    assert(k + 2 > rule@.len());
                }
            }
        }
        let left = string_of(&cs, 0, i);
        let right = string_of(&cs, i + 2, cs.len());
        assert(left@ =~= rule@.take(i as int));
        assert(right@ =~= rule@.skip(i + 2));
        let path = trim_text(left.as_str());
        let target = trim_text(right.as_str());
        Ok(ProxyRule { path, target, change_origin })
    }
}

proof fn lemma_trim_start_len(s: Seq<char>)
    ensures
        trim_start(s).len() <= s.len(),
        trim_start(s).len() == s.len() ==> trim_start(s) == s,
        s.len() > 0 && is_white_space(s[0]) ==> trim_start(s).len() < s.len(),
    decreases s.len(),
{
    if s.len() > 0 && is_white_space(s[0]) {
        lemma_trim_start_len(s.drop_first());
    }
}

proof fn lemma_trim_end_len(s: Seq<char>)
    ensures
        trim_end(s).len() <= s.len(),
        trim_end(s).len() == s.len() ==> trim_end(s) == s,
        s.len() > 0 && is_white_space(s.last()) ==> trim_end(s).len() < s.len(),
    decreases s.len(),
{
    if s.len() > 0 && is_white_space(s.last()) {
        lemma_trim_end_len(s.drop_last());
    }
}

proof fn lemma_trimmed(p: Seq<char>)
    requires
        trim(p) == p,
    ensures
        trim_start(p) == p,
        trim_end(p) == p,
        p.len() > 0 ==> !is_white_space(p[0]) && !is_white_space(p.last()),
{
    lemma_trim_start_len(p);
    lemma_trim_end_len(trim_start(p));
    lemma_trim_end_len(p);
}

/// A trimmed text followed by one space trims back to itself.
proof fn lemma_trim_space_after(p: Seq<char>)
    requires
        trim(p) == p,
    ensures
        trim(p + seq![' ']) == p,
{
    lemma_trimmed(p);
    let q = p + seq![' '];
    assert(q.drop_last() =~= p);
    if p.len() == 0 {
        assert(q.drop_first() =~= Seq::<char>::empty());
        assert(is_white_space(q[0]));
        assert(trim_start(q.drop_first()) == q.drop_first());
        assert(trim_start(q) == Seq::<char>::empty());
    } else {
        assert(q[0] == p[0]);
        assert(trim_start(q) == q);
    }
    assert(trim_end(q) == trim_end(p));
}

/// One space followed by a trimmed text trims back to the text.
proof fn lemma_trim_space_before(t: Seq<char>)
    requires
        trim(t) == t,
    ensures
        trim(seq![' '] + t) == t,
{
    lemma_trimmed(t);
    let q = seq![' '] + t;
    assert(q.drop_first() =~= t);
}

/// The way a rule is written on the command line: `PATH -> TARGET`.
pub open spec fn rule_text(path: Seq<char>, target: Seq<char>) -> Seq<char> {
    path + seq![' ', '-', '>', ' '] + target
}

/// A rule written as `PATH -> TARGET` reads back as that path and target,
/// when both are free of surrounding white space and of `->`: the text holds
/// `->` exactly once, and the sides around it trim to the path and the target.
pub proof fn lemma_rule_text_round_trip(path: Seq<char>, target: Seq<char>)
    requires
        trim(path) == path,
        trim(target) == target,
        !has_substring(path, arrow()),
        !has_substring(target, arrow()),
    ensures
        only_arrow_at(rule_text(path, target), path.len() as int + 1),
        trim(rule_text(path, target).take(path.len() as int + 1)) == path,
        trim(rule_text(path, target).skip(path.len() as int + 3)) == target,
{
    let s = rule_text(path, target);
    let n = path.len() as int;
    assert(s.subrange(n + 1, n + 3) =~= arrow());
    assert forall|j: int| occurs_at(s, arrow(), j) implies j == n + 1 by {
        let w = s.subrange(j, j + 2);
        assert(w[0] == '-' && w[1] == '>');
        if j + 2 <= n {
            assert(path.subrange(j, j + 2) =~= w);
            assert(occurs_at(path, arrow(), j));
        } else if j == n - 1 {
            assert(s[j + 1] == ' ');
        } else if j == n {
            assert(s[j] == ' ');
        } else if j == n + 2 {
            assert(s[j] == '>');
        } else if j == n + 3 {
            assert(s[j] == ' ');
        } else if j >= n + 4 {
            assert(target.subrange(j - n - 4, j - n - 2) =~= w);
            assert(occurs_at(target, arrow(), j - n - 4));
        }
    }
    assert(s.take(n + 1) =~= path + seq![' ']);
    assert(s.skip(n + 3) =~= seq![' '] + target);
    lemma_trim_space_after(path);
    lemma_trim_space_before(target);
}

/// After the rules with a path are removed, no rule has that path, the other
/// rules all remain, and nothing else was added.
pub proof fn lemma_remove_rules_exact(rules: Seq<ProxyRule>, path: Seq<char>)
    ensures
        forall|k: int|
            0 <= k < rules_without(rules, path).len() ==> (#[trigger] rules_without(rules, path)[k]).path@
                != path && rules.contains(rules_without(rules, path)[k]),
        forall|k: int|
            0 <= k < rules.len() && (#[trigger] rules[k]).path@ != path ==> rules_without(
                rules,
                path,
            ).contains(rules[k]),
    decreases rules.len(),
{
    if rules.len() > 0 {
        let prev = rules.drop_last();
        lemma_remove_rules_exact(prev, path);
        let m = rules_without(rules, path);
        let mp = rules_without(prev, path);
        assert forall|k: int| 0 <= k < m.len() implies (#[trigger] m[k]).path@ != path && rules.contains(m[k]) by {
            if k < mp.len() {
                assert(m[k] == mp[k]);
                let j = choose|j: int| 0 <= j < prev.len() && prev[j] == mp[k];
                assert(rules[j] == prev[j]);
            } else {
                assert(rules[rules.len() - 1] == rules.last());
            }
        }
        assert forall|k: int| 0 <= k < rules.len() && (#[trigger] rules[k]).path@ != path implies m.contains(rules[k]) by {
            if k < rules.len() - 1 {
                assert(prev[k] == rules[k]);
                let j = choose|j: int| 0 <= j < mp.len() && mp[j] == prev[k];
                assert(m[j] == mp[j]);
            } else {
                assert(m[m.len() - 1] == rules.last());
            }
        }
    }
}

/// Removing a path right after a rule with that path was added leaves what
/// removing it before the addition leaves.
pub proof fn lemma_add_then_remove(rules: Seq<ProxyRule>, rule: ProxyRule)
    ensures
        rules_without(rules.push(rule), rule.path@) == rules_without(rules, rule.path@),
{
    assert(rules.push(rule).drop_last() =~= rules);
}

} // verus!
