//! The request log: a bounded record of proxied requests, newest last.

use std::collections::VecDeque;
use vstd::prelude::*;
use crate::text::{contains_text, has_substring, occurs_at};

verus! {

/// A point in time in UTC: whole seconds since the Unix epoch, and the
/// nanoseconds within that second.
#[derive(Debug, Clone, Copy, PartialEq, Eq)]
pub struct Timestamp {
    pub secs: i64,
    pub nanos: u32,
}

/// One proxied request: when it started, what was asked, where it went,
/// how it ended, and the headers both ways.
pub struct RequestLog {
    pub timestamp: Timestamp,
    pub method: String,
    pub path: String,
    pub target_url: String,
    pub status: u16,
    pub duration_ms: u64,
    pub request_headers: Vec<(String, String)>,
    pub response_headers: Vec<(String, String)>,
}

/// What a [`RequestLog`] holds, with its texts as character sequences.
pub struct RequestLogView {
    pub timestamp: Timestamp,
    pub method: Seq<char>,
    pub path: Seq<char>,
    pub target_url: Seq<char>,
    pub status: u16,
    pub duration_ms: u64,
    pub request_headers: Seq<(Seq<char>, Seq<char>)>,
    pub response_headers: Seq<(Seq<char>, Seq<char>)>,
}

/// The character views of a list of header name and value pairs.
pub open spec fn header_texts(h: Seq<(String, String)>) -> Seq<(Seq<char>, Seq<char>)> {
    h.map_values(|p: (String, String)| (p.0@, p.1@))
}

impl View for RequestLog {
    type V = RequestLogView;

    open spec fn view(&self) -> RequestLogView {
        RequestLogView {
            timestamp: self.timestamp,
            method: self.method@,
            path: self.path@,
            target_url: self.target_url@,
            status: self.status,
            duration_ms: self.duration_ms,
            request_headers: header_texts(self.request_headers@),
            response_headers: header_texts(self.response_headers@),
        }
    }
}

fn copy_headers(h: &Vec<(String, String)>) -> (r: Vec<(String, String)>)
    ensures
        header_texts(r@) == header_texts(h@),
{
    let mut r: Vec<(String, String)> = Vec::new();
    let mut i: usize = 0;
    while i < h.len()
        invariant
            0 <= i <= h.len(),
            r@.len() == i,
            forall|k: int| 0 <= k < i ==> (#[trigger] r@[k]).0@ == h@[k].0@ && r@[k].1@ == h@[k].1@,
        decreases h.len() - i,
    {
        let (name, value) = &h[i];
        r.push((name.clone(), value.clone()));
        i += 1;
    }
    assert(header_texts(r@) =~= header_texts(h@));
    r
}

impl RequestLog {
    /// A copy of this entry.
    pub fn duplicate(&self) -> (r: RequestLog)
        ensures
            r@ == self@,
    {
        RequestLog {
            timestamp: self.timestamp,
            method: self.method.clone(),
            path: self.path.clone(),
            target_url: self.target_url.clone(),
            status: self.status,
            duration_ms: self.duration_ms,
            request_headers: copy_headers(&self.request_headers),
            response_headers: copy_headers(&self.response_headers),
        }
    }
}

/// The most entries the log keeps; adding to a full log drops the oldest.
pub const MAX_LOG_ENTRIES: usize = 1000;

/// The views of a sequence of entries.
pub open spec fn views(s: Seq<RequestLog>) -> Seq<RequestLogView> {
    s.map_values(|l: RequestLog| l@)
}

/// The log after `e` is added to `s`: the oldest entry goes first when the
/// log is full.
pub open spec fn after_add(s: Seq<RequestLogView>, e: RequestLogView) -> Seq<RequestLogView> {
    if s.len() >= MAX_LOG_ENTRIES {
        s.drop_first().push(e)
    } else {
        s.push(e)
    }
}

/// The last `n` elements of `s` (all of them when there are fewer).
pub open spec fn keep_last<A>(s: Seq<A>, n: nat) -> Seq<A> {
    if s.len() <= n {
        s
    } else {
        s.skip(s.len() - n)
    }
}

/// The log after each of `es` is added in turn to `s`.
pub open spec fn after_adds(s: Seq<RequestLogView>, es: Seq<RequestLogView>) -> Seq<RequestLogView>
    decreases es.len(),
{
    if es.len() == 0 {
        s
    } else {
        after_add(after_adds(s, es.drop_last()), es.last())
    }
}

/// The entry passes a filter: the method equals the one asked for, the status
/// equals the one asked for, and the path holds the text asked for; a filter
/// part that is absent passes every entry.
pub open spec fn log_matches(
    e: RequestLogView,
    method: Option<String>,
    status: Option<u16>,
    path: Option<String>,
) -> bool {
    &&& (method matches Some(m) ==> e.method == m@)
    &&& (status matches Some(c) ==> e.status == c)
    &&& (path matches Some(p) ==> has_substring(e.path, p@))
}

/// The entries of `s` that pass the filter, in their order.
pub open spec fn matching(
    s: Seq<RequestLogView>,
    method: Option<String>,
    status: Option<u16>,
    path: Option<String>,
) -> Seq<RequestLogView>
    decreases s.len(),
{
    if s.len() == 0 {
        s
    } else {
        let rest = matching(s.drop_last(), method, status, path);
        if log_matches(s.last(), method, status, path) {
            rest.push(s.last())
        } else {
            rest
        }
    }
}

/// The request log, oldest entry first, holding at most [`MAX_LOG_ENTRIES`].
pub struct Logger {
    logs: VecDeque<RequestLog>,
}

impl View for Logger {
    type V = Seq<RequestLogView>;

    closed spec fn view(&self) -> Seq<RequestLogView> {
        views(self.logs@)
    }
}

impl Logger {
    #[verifier::type_invariant]
    spec fn bounded(self) -> bool {
        self.logs@.len() <= MAX_LOG_ENTRIES
    }

    /// An empty log.
    pub fn new() -> (r: Logger)
        ensures
            r@ == Seq::<RequestLogView>::empty(),
    {
        let r = Logger { logs: VecDeque::with_capacity(MAX_LOG_ENTRIES) };
        assert(r@ =~= Seq::<RequestLogView>::empty());
        r
    }

    /// Adds `log` as the newest entry, dropping the oldest when the log is full.
    pub fn add_log(&mut self, log: RequestLog)
        ensures
            final(self)@ == after_add(old(self)@, log@),
            final(self)@.len() <= MAX_LOG_ENTRIES,
    {
        proof {
            use_type_invariant(&*self);
        }
        let ghost before = self.logs@;
        let mut logs: VecDeque<RequestLog> = VecDeque::new();
        std::mem::swap(&mut logs, &mut self.logs);
        if logs.len() >= MAX_LOG_ENTRIES {
            logs.pop_front();
        }
        logs.push_back(log);
        proof {
            if before.len() >= MAX_LOG_ENTRIES {
                assert(views(logs@) =~= views(before).drop_first().push(log@));
            } else {
                assert(views(logs@) =~= views(before).push(log@));
            }
        }
        self.logs = logs;
    }

    /// Copies of all entries, oldest first.
    pub fn get_logs(&self) -> (r: Vec<RequestLog>)
        ensures
            views(r@) == self@,
    {
        let mut r: Vec<RequestLog> = Vec::new();
        let mut i: usize = 0;
        while i < self.logs.len()
            invariant
                0 <= i <= self.logs@.len(),
                views(r@) == views(self.logs@).take(i as int),
            decreases self.logs@.len() - i,
        {
            let e = &self.logs[i];
            let d = e.duplicate();
            assert(d@ == views(self.logs@)[i as int]);
            let ghost prev = r@;
            r.push(d);
            assert(views(r@) =~= views(prev).push(d@));
            assert(views(self.logs@).take(i + 1) =~= views(self.logs@).take(i as int).push(d@));
            i += 1;
        }
        assert(views(self.logs@).take(i as int) =~= views(self.logs@));
        r
    }

    /// Removes every entry.
    pub fn clear_logs(&mut self)
        ensures
            final(self)@ == Seq::<RequestLogView>::empty(),
    {
        self.logs = VecDeque::new();
        assert(views(self.logs@) =~= Seq::<RequestLogView>::empty());
    }

    /// Copies of the entries that pass the filter, oldest first: the method
    /// equals `method`, the status equals `status_code`, the path contains
    /// `path_contains`; an absent part passes every entry.
    pub fn filter_logs(
        &self,
        method: Option<String>,
        status_code: Option<u16>,
        path_contains: Option<String>,
    ) -> (r: Vec<RequestLog>)
        ensures
            views(r@) == matching(self@, method, status_code, path_contains),
    {
        let mut r: Vec<RequestLog> = Vec::new();
        let mut i: usize = 0;
        while i < self.logs.len()
            invariant
                0 <= i <= self.logs@.len(),
                views(r@) == matching(views(self.logs@).take(i as int), method, status_code, path_contains),
            decreases self.logs@.len() - i,
        {
            let log = &self.logs[i];
            let method_ok = match &method {
                Some(m) => log.method == *m,
                None => true,
            };
            let status_ok = match status_code {
                Some(c) => log.status == c,
                None => true,
            };
            let path_ok = match &path_contains {
                Some(p) => contains_text(log.path.as_str(), p.as_str()),
                None => true,
            };
            let ghost prefix = views(self.logs@).take(i + 1);
            assert(prefix.drop_last() =~= views(self.logs@).take(i as int));
            assert(prefix.last() == log@);
            if method_ok && status_ok && path_ok {
                r.push(log.duplicate());
                assert(views(r@) =~= matching(prefix, method, status_code, path_contains));
            }
            i += 1;
        }
        assert(views(self.logs@).take(i as int) =~= views(self.logs@));
        r
    }
}

proof fn lemma_keep_last_push<A>(s: Seq<A>, x: A, n: nat)
    requires
        n >= 1,
    ensures
        keep_last(keep_last(s, n).push(x), n) == keep_last(s.push(x), n),
{
    if s.len() >= n {
        assert(keep_last(s, n).push(x).skip(1) =~= s.push(x).skip(s.len() + 1 - n));
    }
}

/// Adding an entry to a log of at most [`MAX_LOG_ENTRIES`] entries leaves the
/// last [`MAX_LOG_ENTRIES`] of the old entries followed by the new one.
pub proof fn lemma_add_keeps_latest(s: Seq<RequestLogView>, e: RequestLogView)
    requires
        s.len() <= MAX_LOG_ENTRIES,
    ensures
        after_add(s, e) == keep_last(s.push(e), MAX_LOG_ENTRIES as nat),
{
    if s.len() >= MAX_LOG_ENTRIES {
        assert(s.drop_first().push(e) =~= s.push(e).skip(1));
    }
}

/// A log that starts empty and receives the entries `es` one after another
/// holds the last [`MAX_LOG_ENTRIES`] of them, oldest first.
pub proof fn lemma_log_holds_latest(es: Seq<RequestLogView>)
    ensures
        after_adds(Seq::empty(), es) == keep_last(es, MAX_LOG_ENTRIES as nat),
    decreases es.len(),
{
    if es.len() > 0 {
        let prev = es.drop_last();
        lemma_log_holds_latest(prev);
        lemma_add_keeps_latest(keep_last(prev, MAX_LOG_ENTRIES as nat), es.last());
        lemma_keep_last_push(prev, es.last(), MAX_LOG_ENTRIES as nat);
        assert(prev.push(es.last()) =~= es);
    }
}

/// A filter with no part passes every entry: the result is the whole log.
pub proof fn lemma_empty_filter_keeps_all(s: Seq<RequestLogView>)
    ensures
        matching(s, None, None, None) == s,
    decreases s.len(),
{
    if s.len() > 0 {
        lemma_empty_filter_keeps_all(s.drop_last());
        assert(s.drop_last().push(s.last()) =~= s);
    }
}

/// Every entry that a filter returns passes it, and every entry of the log
/// that passes it is returned.
pub proof fn lemma_filter_exact(
    s: Seq<RequestLogView>,
    method: Option<String>,
    status: Option<u16>,
    path: Option<String>,
)
    ensures
        forall|k: int|
            0 <= k < matching(s, method, status, path).len() ==> log_matches(
                #[trigger] matching(s, method, status, path)[k],
                method,
                status,
                path,
            ) && s.contains(matching(s, method, status, path)[k]),
        forall|k: int|
            0 <= k < s.len() && log_matches(#[trigger] s[k], method, status, path) ==> matching(
                s,
                method,
                status,
                path,
            ).contains(s[k]),
    decreases s.len(),
{
    if s.len() > 0 {
        let prev = s.drop_last();
        lemma_filter_exact(prev, method, status, path);
        let m = matching(s, method, status, path);
        let mp = matching(prev, method, status, path);
        assert forall|k: int| 0 <= k < m.len() implies log_matches(#[trigger] m[k], method, status, path)
            && s.contains(m[k]) by {
            if k < mp.len() {
                assert(m[k] == mp[k]);
                let j = choose|j: int| 0 <= j < prev.len() && prev[j] == mp[k];
                assert(s[j] == prev[j]);
            } else {
                assert(m[k] == s.last());
                assert(s[s.len() - 1] == s.last());
            }
        }
        assert forall|k: int| 0 <= k < s.len() && log_matches(#[trigger] s[k], method, status, path)
            implies m.contains(s[k]) by {
            if k < s.len() - 1 {
                assert(prev[k] == s[k]);
                let j = choose|j: int| 0 <= j < mp.len() && mp[j] == prev[k];
                assert(m[j] == mp[j]);
            } else {
                assert(m[m.len() - 1] == s.last());
            }
        }
    }
}

/// The query of the log's filter endpoint: method, status and path fragment,
/// each optional.
#[derive(Debug, Clone, PartialEq, Eq)]
pub struct LogFilter {
    pub method: Option<String>,
    pub status: Option<u16>,
    pub path: Option<String>,
}

/// Filtering the entries that pass one filter by a second filter gives the
/// entries that pass a third, when passing the third is passing both.
proof fn lemma_matching_then(
    s: Seq<RequestLogView>,
    m1: Option<String>,
    s1: Option<u16>,
    p1: Option<String>,
    m2: Option<String>,
    s2: Option<u16>,
    p2: Option<String>,
    m: Option<String>,
    st: Option<u16>,
    p: Option<String>,
)
    requires
        forall|e: RequestLogView|
            log_matches(e, m, st, p) == (log_matches(e, m1, s1, p1) && log_matches(e, m2, s2, p2)),
    ensures
        matching(matching(s, m1, s1, p1), m2, s2, p2) == matching(s, m, st, p),
    decreases s.len(),
{
    if s.len() > 0 {
        let prev = s.drop_last();
        lemma_matching_then(prev, m1, s1, p1, m2, s2, p2, m, st, p);
        let first = matching(prev, m1, s1, p1);
        if log_matches(s.last(), m1, s1, p1) {
            assert(first.push(s.last()).drop_last() =~= first);
        }
    }
}

/// A filter that asks more never returns more: when each part of the weaker
/// filter is absent or equal to the stronger one's, the stronger filter's
/// result is the weaker one's result filtered again by the stronger filter,
/// so it is a subsequence of it and no longer.
pub proof fn lemma_filter_narrows(
    s: Seq<RequestLogView>,
    method: Option<String>,
    status: Option<u16>,
    path: Option<String>,
    weak_method: Option<String>,
    weak_status: Option<u16>,
    weak_path: Option<String>,
)
    requires
        weak_method is None || weak_method == method,
        weak_status is None || weak_status == status,
        weak_path is None || weak_path == path,
    ensures
        matching(matching(s, weak_method, weak_status, weak_path), method, status, path) == matching(
            s,
            method,
            status,
            path,
        ),
        matching(s, method, status, path).len() <= matching(s, weak_method, weak_status, weak_path).len(),
{
    lemma_matching_then(s, weak_method, weak_status, weak_path, method, status, path, method, status, path);
    lemma_matching_len(matching(s, weak_method, weak_status, weak_path), method, status, path);
}

proof fn lemma_matching_len(s: Seq<RequestLogView>, m: Option<String>, st: Option<u16>, p: Option<String>)
    ensures
        matching(s, m, st, p).len() <= s.len(),
    decreases s.len(),
{
    if s.len() > 0 {
        lemma_matching_len(s.drop_last(), m, st, p);
    }
}

/// A filter of several parts returns the entries that each part alone
/// returns, in log order: filtering by the method, then by the status, then
/// by the path gives the combined filter's result.
pub proof fn lemma_filter_is_intersection(
    s: Seq<RequestLogView>,
    method: Option<String>,
    status: Option<u16>,
    path: Option<String>,
)
    ensures
        matching(matching(matching(s, method, None, None), None, status, None), None, None, path)
            == matching(s, method, status, path),
{
    lemma_matching_then(s, method, None, None, None, status, None, method, status, None);
    lemma_matching_then(
        matching(s, method, None, None),
        None,
        status,
        None,
        None,
        None,
        path,
        None,
        status,
        path,
    );
    lemma_matching_then(s, method, None, None, None, status, path, method, status, path);
}

/// What each filter part asks of an entry, and that the filter returns
/// exactly the entries of the log that satisfy every part given: the method
/// equal to the one asked for, the status equal to the one asked for, and
/// the path holding the asked-for text at some position.
pub proof fn lemma_filter_parts_meaning(
    s: Seq<RequestLogView>,
    method: Option<String>,
    status: Option<u16>,
    path: Option<String>,
)
    ensures
        forall|k: int|
            #![trigger matching(s, method, status, path)[k]]
            0 <= k < matching(s, method, status, path).len() ==> {
                let e = matching(s, method, status, path)[k];
                &&& s.contains(e)
                &&& (method matches Some(m) ==> e.method == m@)
                &&& (status matches Some(c) ==> e.status == c)
                &&& (path matches Some(p) ==> exists|i: int|
                    0 <= i && i + p@.len() <= e.path.len() && #[trigger] e.path.subrange(i, i + p@.len())
                        == p@)
            },
        forall|k: int|
            #![trigger s[k]]
            0 <= k < s.len() && (method matches Some(m) ==> s[k].method == m@) && (status matches Some(c)
                ==> s[k].status == c) && (path matches Some(p) ==> exists|i: int|
                0 <= i && i + p@.len() <= s[k].path.len() && #[trigger] s[k].path.subrange(i, i + p@.len())
                    == p@) ==> matching(s, method, status, path).contains(s[k]),
{
    lemma_filter_exact(s, method, status, path);
    let m = matching(s, method, status, path);
    assert forall|k: int| #![trigger m[k]] 0 <= k < m.len() implies {
        let e = m[k];
        &&& s.contains(e)
        &&& (method matches Some(mm) ==> e.method == mm@)
        &&& (status matches Some(c) ==> e.status == c)
        &&& (path matches Some(p) ==> exists|i: int|
            0 <= i && i + p@.len() <= e.path.len() && #[trigger] e.path.subrange(i, i + p@.len()) == p@)
    } by {
        assert(log_matches(m[k], method, status, path));
        if let Some(p) = path {
            let i = choose|i: int| occurs_at(m[k].path, p@, i);
            assert(m[k].path.subrange(i, i + p@.len()) == p@);
        }
    }
    assert forall|k: int|
        #![trigger s[k]]
        0 <= k < s.len() && (method matches Some(mm) ==> s[k].method == mm@) && (status matches Some(c)
            ==> s[k].status == c) && (path matches Some(p) ==> exists|i: int|
            0 <= i && i + p@.len() <= s[k].path.len() && #[trigger] s[k].path.subrange(i, i + p@.len())
                == p@) implies m.contains(s[k]) by {
        if let Some(p) = path {
            let i = choose|i: int|
                0 <= i && i + p@.len() <= s[k].path.len() && #[trigger] s[k].path.subrange(i, i + p@.len())
                    == p@;
            assert(occurs_at(s[k].path, p@, i));
        }
        assert(log_matches(s[k], method, status, path));
    }
}

} // verus!
