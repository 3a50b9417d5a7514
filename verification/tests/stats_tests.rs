use log_exporter::Method;
use log_exporter::RequestRecord;
use log_exporter::Stats;

fn rec(method: Method, status: u64, micros: u64) -> RequestRecord {
    RequestRecord {
        method,
        status,
        resp_body_size: 10,
        request_length: 5,
        resp_time_micros: micros,
    }
}

#[test]
fn labels_materialize_lazily() {
    let mut stats = Stats::new();
    assert_eq!(stats.requests_for(Method::POST, 201), 0);
    stats.record(&rec(Method::POST, 201, 1));
    assert_eq!(stats.requests_for(Method::POST, 201), 1);
    assert_eq!(stats.requests_for(Method::POST, 200), 0);
    assert_eq!(stats.requests_for(Method::GET, 201), 0);
    stats.record(&rec(Method::POST, 201, 1));
    assert_eq!(stats.requests_for(Method::POST, 201), 2);
    assert_eq!(stats.bytes_sent_for(Method::POST, 201), 20);
    assert_eq!(stats.request_bytes_for(Method::POST, 201), 10);
}

#[test]
fn time_bucket_edges_are_strict() {
    let mut stats = Stats::new();
    stats.record(&rec(Method::GET, 200, 4_999));
    stats.record(&rec(Method::GET, 200, 5_000));
    stats.record(&rec(Method::GET, 200, 10_000_000));
    assert_eq!(stats.time_bucket_for(Method::GET, 200, 0), 1);
    assert_eq!(stats.time_bucket_for(Method::GET, 200, 1), 1);
    // 10 s is not strictly below the last bound: the overflow bucket.
    assert_eq!(stats.time_bucket_for(Method::GET, 200, 11), 1);
    assert_eq!(stats.time_sum_for(Method::GET, 200), 10_009_999);
}

#[test]
fn status_bucket_edges_are_strict() {
    let mut stats = Stats::new();
    stats.record(&rec(Method::GET, 199, 1));
    stats.record(&rec(Method::GET, 200, 1));
    stats.record(&rec(Method::GET, 499, 1));
    stats.record(&rec(Method::GET, 500, 1));
    assert_eq!(stats.status_bucket(0), 1);
    assert_eq!(stats.status_bucket(1), 1);
    assert_eq!(stats.status_bucket(3), 1);
    assert_eq!(stats.status_bucket(4), 1);
    assert_eq!(stats.status_observed_sum(), 199 + 200 + 499 + 500);
}

#[test]
fn counters_saturate_instead_of_wrapping() {
    let mut stats = Stats::new();
    let big = RequestRecord {
        method: Method::GET,
        status: 200,
        resp_body_size: u64::MAX - 1,
        request_length: u64::MAX - 1,
        resp_time_micros: u64::MAX - 1,
    };
    stats.record(&big);
    stats.record(&big);
    assert_eq!(stats.bytes_sent_for(Method::GET, 200), u64::MAX);
    assert_eq!(stats.request_bytes_for(Method::GET, 200), u64::MAX);
    assert_eq!(stats.time_sum_for(Method::GET, 200), u64::MAX);
}

#[test]
fn snapshot_is_a_faithful_copy() {
    let mut stats = Stats::new();
    stats.record(&rec(Method::GET, 200, 7_000));
    stats.record(&rec(Method::DELETE, 404, 40_000));
    stats.record_parse_error();
    let snap = stats.snapshot();
    // The copy agrees with the original.
    assert_eq!(snap.requests_for(Method::GET, 200), 1);
    assert_eq!(snap.requests_for(Method::DELETE, 404), 1);
    assert_eq!(snap.parse_error_count(), 1);
    assert_eq!(snap.time_bucket_for(Method::GET, 200, 1), 1);
    // Recording into the original leaves the snapshot alone.
    stats.record(&rec(Method::GET, 200, 7_000));
    assert_eq!(stats.requests_for(Method::GET, 200), 2);
    assert_eq!(snap.requests_for(Method::GET, 200), 1);
}

#[test]
fn parse_errors_touch_nothing_else() {
    let mut stats = Stats::new();
    stats.record(&rec(Method::GET, 200, 1));
    stats.record_parse_error();
    stats.record_parse_error();
    assert_eq!(stats.parse_error_count(), 2);
    assert_eq!(stats.requests_for(Method::GET, 200), 1);
    assert_eq!(stats.bytes_sent_for(Method::GET, 200), 10);
    assert_eq!(stats.status_observed_sum(), 200);
}
