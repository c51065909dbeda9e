use useproxy::logger::{Logger, RequestLog, Timestamp, MAX_LOG_ENTRIES};

fn entry(n: i64, method: &str, path: &str, status: u16) -> RequestLog {
    RequestLog {
        timestamp: Timestamp { secs: n, nanos: 7 },
        method: method.to_string(),
        path: path.to_string(),
        target_url: format!("http://t{}", path),
        status,
        duration_ms: n as u64,
        request_headers: vec![("accept".to_string(), "*/*".to_string())],
        response_headers: vec![],
    }
}

fn secs(v: &[RequestLog]) -> Vec<i64> {
    v.iter().map(|l| l.timestamp.secs).collect()
}

#[test]
fn new_log_is_empty() {
    assert!(Logger::new().get_logs().is_empty());
}

#[test]
fn add_and_get_keep_order_and_contents() {
    let mut l = Logger::new();
    l.add_log(entry(1, "GET", "/a", 200));
    l.add_log(entry(2, "POST", "/b", 404));
    let got = l.get_logs();
    assert_eq!(secs(&got), vec![1, 2]);
    assert_eq!(got[1].method, "POST");
    assert_eq!(got[1].path, "/b");
    assert_eq!(got[1].target_url, "http://t/b");
    assert_eq!(got[1].status, 404);
    assert_eq!(got[1].duration_ms, 2);
    assert_eq!(got[1].timestamp, Timestamp { secs: 2, nanos: 7 });
    assert_eq!(got[1].request_headers, vec![("accept".to_string(), "*/*".to_string())]);
}

#[test]
fn full_log_drops_oldest() {
    let mut l = Logger::new();
    for n in 0..(MAX_LOG_ENTRIES as i64 + 5) {
        l.add_log(entry(n, "GET", "/", 200));
    }
    let got = l.get_logs();
    assert_eq!(got.len(), MAX_LOG_ENTRIES);
    assert_eq!(got[0].timestamp.secs, 5);
    assert_eq!(got[MAX_LOG_ENTRIES - 1].timestamp.secs, MAX_LOG_ENTRIES as i64 + 4);
}

#[test]
fn log_holds_exactly_the_bound() {
    let mut l = Logger::new();
    for n in 0..(MAX_LOG_ENTRIES as i64) {
        l.add_log(entry(n, "GET", "/", 200));
    }
    assert_eq!(l.get_logs().len(), 1000);
    assert_eq!(l.get_logs()[0].timestamp.secs, 0);
}

#[test]
fn clear_empties() {
    let mut l = Logger::new();
    l.add_log(entry(1, "GET", "/a", 200));
    l.clear_logs();
    assert!(l.get_logs().is_empty());
    l.add_log(entry(2, "GET", "/a", 200));
    assert_eq!(secs(&l.get_logs()), vec![2]);
}

#[test]
fn filter_by_each_part() {
    let mut l = Logger::new();
    l.add_log(entry(1, "GET", "/api/users", 200));
    l.add_log(entry(2, "POST", "/api/users", 201));
    l.add_log(entry(3, "GET", "/static/app.js", 404));
    l.add_log(entry(4, "GET", "/api/items", 404));
    assert_eq!(secs(&l.filter_logs(None, None, None)), vec![1, 2, 3, 4]);
    assert_eq!(secs(&l.filter_logs(Some("GET".to_string()), None, None)), vec![1, 3, 4]);
    assert_eq!(secs(&l.filter_logs(None, Some(404), None)), vec![3, 4]);
    assert_eq!(secs(&l.filter_logs(None, None, Some("/api".to_string()))), vec![1, 2, 4]);
    assert_eq!(
        secs(&l.filter_logs(Some("GET".to_string()), Some(404), Some("/api".to_string()))),
        vec![4]
    );
    assert_eq!(secs(&l.filter_logs(Some("get".to_string()), None, None)), Vec::<i64>::new());
    assert_eq!(secs(&l.filter_logs(None, None, Some(String::new()))), vec![1, 2, 3, 4]);
    assert_eq!(secs(&l.filter_logs(None, None, Some("i/u".to_string()))), vec![1, 2]);
}

#[test]
fn more_filter_parts_never_add_entries() {
    let mut l = Logger::new();
    l.add_log(entry(1, "GET", "/api/users", 200));
    l.add_log(entry(2, "POST", "/api/users", 404));
    l.add_log(entry(3, "GET", "/static", 404));
    l.add_log(entry(4, "GET", "/api/items", 404));
    let by_method = secs(&l.filter_logs(Some("GET".to_string()), None, None));
    let by_status = secs(&l.filter_logs(None, Some(404), None));
    let by_path = secs(&l.filter_logs(None, None, Some("/api".to_string())));
    let all = secs(&l.filter_logs(Some("GET".to_string()), Some(404), Some("/api".to_string())));
    let both = secs(&l.filter_logs(Some("GET".to_string()), Some(404), None));
    assert_eq!(both, vec![3, 4]);
    assert_eq!(all, vec![4]);
    let common: Vec<i64> =
        by_method.iter().copied().filter(|x| by_status.contains(x) && by_path.contains(x)).collect();
    assert_eq!(all, common);
}
