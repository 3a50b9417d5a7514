use log_exporter::ingest_lines;
use log_exporter::LineInput;
use log_exporter::Method;
use log_exporter::Stats;
use log_exporter::TailState;

const SAMPLE: &str = "{\"source\":\"nginx\",\"time\":1,\"resp_body_size\":100,\"host\":\"h\",\"address\":\"a\",\"request_length\":50,\"method\":\"GET\",\"uri\":\"/x\",\"status\":200,\"user_agent\":\"ua\",\"resp_time\":0.01,\"upstream_addr\":\"u:80\"}";

fn poll(stats: &mut Stats, tail: &mut TailState, size: u64, lines: Vec<&str>) {
    if tail.check_size(size) {
        let lines: Vec<LineInput> = lines
            .into_iter()
            .map(|l| LineInput::Text(l.to_string()))
            .collect();
        ingest_lines(stats, tail, &lines);
    }
}

#[test]
fn end_to_end_single_line() {
    let mut stats = Stats::new();
    let mut tail = TailState::new();
    poll(&mut stats, &mut tail, SAMPLE.len() as u64, vec![SAMPLE]);
    assert_eq!(stats.requests_for(Method::GET, 200), 1);
    assert_eq!(stats.bytes_sent_for(Method::GET, 200), 100);
    assert_eq!(stats.request_bytes_for(Method::GET, 200), 50);
    // 0.01 s = 10000 us lands in the 0.025 s bucket: not strictly below
    // 0.005 s or 0.01 s, strictly below 0.025 s.
    assert_eq!(stats.time_bucket_for(Method::GET, 200, 0), 0);
    assert_eq!(stats.time_bucket_for(Method::GET, 200, 1), 0);
    assert_eq!(stats.time_bucket_for(Method::GET, 200, 2), 1);
    assert_eq!(stats.time_sum_for(Method::GET, 200), 10_000);
    // Status 200 is not strictly below 200, so it lands in the 300 bucket.
    assert_eq!(stats.status_bucket(0), 0);
    assert_eq!(stats.status_bucket(1), 1);
    assert_eq!(stats.status_observed_sum(), 200);
    assert_eq!(stats.parse_error_count(), 0);
}

#[test]
fn malformed_line_only_counts_a_parse_error() {
    let mut stats = Stats::new();
    let mut tail = TailState::new();
    poll(&mut stats, &mut tail, 100, vec![SAMPLE]);
    assert_eq!(stats.requests_for(Method::GET, 200), 1);
    // The file grows by one malformed line.
    poll(&mut stats, &mut tail, 110, vec![SAMPLE, "not json"]);
    assert_eq!(stats.parse_error_count(), 1);
    assert_eq!(stats.requests_for(Method::GET, 200), 1);
    assert_eq!(stats.bytes_sent_for(Method::GET, 200), 100);
    assert_eq!(stats.request_bytes_for(Method::GET, 200), 50);
    assert_eq!(stats.status_bucket(1), 1);
    assert_eq!(stats.status_observed_sum(), 200);
}

#[test]
fn unreadable_line_counts_a_parse_error() {
    let mut stats = Stats::new();
    let mut tail = TailState::new();
    tail.check_size(10);
    ingest_lines(&mut stats, &mut tail, &vec![LineInput::Unreadable]);
    assert_eq!(stats.parse_error_count(), 1);
    assert_eq!(stats.requests_for(Method::GET, 200), 0);
}

#[test]
fn truncated_file_is_reread_in_full() {
    let mut stats = Stats::new();
    let mut tail = TailState::new();
    // Ten lines, fully ingested.
    poll(&mut stats, &mut tail, 1000, vec![SAMPLE; 10]);
    assert_eq!(stats.requests_for(Method::GET, 200), 10);
    assert_eq!(tail.next_unread, 10);
    // The file is replaced by a two-line file: both lines are delivered.
    poll(&mut stats, &mut tail, 80, vec![SAMPLE, SAMPLE]);
    assert_eq!(stats.requests_for(Method::GET, 200), 12);
    assert_eq!(tail.next_unread, 2);
}

#[test]
fn growth_ingests_only_the_appended_lines() {
    let mut stats = Stats::new();
    let mut tail = TailState::new();
    poll(&mut stats, &mut tail, 100, vec![SAMPLE]);
    assert_eq!(stats.requests_for(Method::GET, 200), 1);
    // A grown file re-reads in full but ingests only the new tail: the
    // request counter grows by the one appended line.
    poll(&mut stats, &mut tail, 200, vec![SAMPLE, SAMPLE]);
    assert_eq!(stats.requests_for(Method::GET, 200), 2);
    // No growth: nothing changes.
    poll(&mut stats, &mut tail, 200, vec![SAMPLE, SAMPLE]);
    assert_eq!(stats.requests_for(Method::GET, 200), 2);
}

#[test]
fn counters_never_decrease_across_passes() {
    let mut stats = Stats::new();
    let mut tail = TailState::new();
    let mut last_requests = 0;
    let mut last_errors = 0;
    let mut last_sum = 0;
    let passes: Vec<(u64, Vec<&str>)> = vec![
        (100, vec![SAMPLE]),
        (150, vec![SAMPLE, "broken"]),
        (40, vec![SAMPLE]),
        (40, vec![SAMPLE]),
        (90, vec![SAMPLE, "broken"]),
    ];
    for (size, lines) in passes {
        poll(&mut stats, &mut tail, size, lines);
        assert!(stats.requests_for(Method::GET, 200) >= last_requests);
        assert!(stats.parse_error_count() >= last_errors);
        assert!(stats.status_observed_sum() >= last_sum);
        last_requests = stats.requests_for(Method::GET, 200);
        last_errors = stats.parse_error_count();
        last_sum = stats.status_observed_sum();
    }
}
