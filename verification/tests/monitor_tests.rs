use gateway_core::monitor::{
    ErrorKind, LatencyEstimates, PendingLogs, ProxyMonitor, RequestLog, StatusCounts,
};

fn log(id: &str, account: Option<&str>, status: u16, error: Option<ErrorKind>) -> RequestLog {
    RequestLog {
        id: id.to_string(),
        started_at: 10,
        ended_at: 12,
        account_id: account.map(|a| a.to_string()),
        upstream_url: "https://upstream.example/v1/messages".to_string(),
        request_model: "asked".to_string(),
        resolved_model: "served".to_string(),
        status_code: status,
        bytes_in: 100,
        bytes_out: 2000,
        error_kind: error,
        session_id: Some("s1".to_string()),
        headers: Some(vec![("accept".to_string(), "application/json".to_string())]),
    }
}

fn ids(logs: &[RequestLog]) -> Vec<&str> {
    logs.iter().map(|l| l.id.as_str()).collect()
}

#[test]
fn ring_never_exceeds_its_capacity() {
    let mut m = ProxyMonitor::new(3);
    for i in 0..10 {
        assert!(m.record(log(&format!("r{}", i), None, 200, None)));
        assert!(m.len() <= 3);
        assert_eq!(m.len(), std::cmp::min(i + 1, 3));
    }
}

#[test]
fn oldest_entries_are_evicted_first() {
    let mut m = ProxyMonitor::new(3);
    for i in 0..5 {
        m.record(log(&format!("r{}", i), None, 200, None));
    }
    assert_eq!(ids(&m.get_logs(10)), vec!["r4", "r3", "r2"]);
    m.record(log("r5", None, 200, None));
    assert_eq!(ids(&m.get_logs(10)), vec!["r5", "r4", "r3"]);
}

#[test]
fn get_logs_returns_the_newest_first() {
    let mut m = ProxyMonitor::new(1000);
    for i in 0..5 {
        m.record(log(&format!("r{}", i), None, 200, None));
    }
    assert_eq!(ids(&m.get_logs(2)), vec!["r4", "r3"]);
    assert_eq!(ids(&m.get_logs(5)), vec!["r4", "r3", "r2", "r1", "r0"]);
    assert_eq!(ids(&m.get_logs(usize::MAX)).len(), 5);
    assert!(m.get_logs(0).is_empty());
}

#[test]
fn summaries_hold_no_headers() {
    let mut m = ProxyMonitor::new(4);
    m.record(log("r0", Some("a"), 200, None));
    let logs = m.get_logs(1);
    assert!(logs[0].headers.is_none());
    assert_eq!(logs[0].account_id.as_deref(), Some("a"));
    assert_eq!(logs[0].resolved_model, "served");
    assert_eq!(logs[0].bytes_out, 2000);
    let detail = m.get_log_detail("r0").unwrap();
    assert_eq!(detail.headers, Some(vec![("accept".to_string(), "application/json".to_string())]));
    assert_eq!(detail.session_id.as_deref(), Some("s1"));
    assert!(m.get_log_detail("r1").is_none());
}

#[test]
fn detail_is_the_newest_of_an_id() {
    let mut m = ProxyMonitor::new(4);
    m.record(log("same", None, 200, None));
    m.record(log("same", None, 500, None));
    m.record(log("other", None, 200, None));
    assert_eq!(m.get_log_detail("same").unwrap().status_code, 500);
}

#[test]
fn disabled_monitor_records_nothing() {
    let mut m = ProxyMonitor::new(4);
    assert!(m.is_enabled());
    m.set_enabled(false);
    assert!(!m.is_enabled());
    assert!(!m.record(log("r0", Some("a"), 200, None)));
    assert_eq!(m.len(), 0);
    assert_eq!(m.get_counts(), StatusCounts::new());
    assert_eq!(m.served_by("a"), 0);
    m.set_enabled(true);
    assert!(m.record(log("r1", Some("a"), 200, None)));
    assert_eq!(m.len(), 1);
}

#[test]
fn counts_follow_the_requests() {
    let mut m = ProxyMonitor::new(2);
    m.record(log("a", Some("acc1"), 200, None));
    m.record(log("b", Some("acc1"), 204, None));
    m.record(log("c", Some("acc2"), 429, Some(ErrorKind::RateLimited)));
    m.record(log("d", None, 502, Some(ErrorKind::UpstreamTransient)));
    m.record(log("e", Some("acc2"), 200, Some(ErrorKind::ClientDisconnected)));
    m.record(log("f", None, 302, None));
    m.record(log("g", None, 101, None));
    m.record(log("h", None, 0, Some(ErrorKind::InternalBug)));
    let c = m.get_counts();
    assert_eq!(c.total, 8);
    assert_eq!(c.success, 2);
    assert_eq!(c.failure, 6);
    assert_eq!(c.informational, 1);
    assert_eq!(c.successful, 3);
    assert_eq!(c.redirection, 1);
    assert_eq!(c.client_error, 1);
    assert_eq!(c.server_error, 1);
    assert_eq!(c.other, 1);
    assert_eq!(m.served_by("acc1"), 2);
    assert_eq!(m.served_by("acc2"), 2);
    assert_eq!(m.served_by("acc3"), 0);
    let stats = m.get_stats();
    assert_eq!(stats.counts, c);
    assert_eq!(stats.by_account, vec![("acc1".to_string(), 2), ("acc2".to_string(), 2)]);
    // the counts outlive the ring
    assert_eq!(m.len(), 2);
}

#[test]
fn clear_forgets_logs_and_counts() {
    let mut m = ProxyMonitor::new(4);
    m.record(log("a", Some("acc1"), 200, None));
    m.set_enabled(false);
    m.clear();
    assert_eq!(m.len(), 0);
    assert_eq!(m.get_counts(), StatusCounts::new());
    assert!(m.get_stats().by_account.is_empty());
    assert!(!m.is_enabled());
}

#[test]
fn monitor_without_capacity_still_counts() {
    let mut m = ProxyMonitor::new(0);
    assert!(m.record(log("a", None, 200, None)));
    assert_eq!(m.len(), 0);
    assert_eq!(m.get_counts().total, 1);
}

#[test]
fn success_needs_a_good_status_and_no_error() {
    assert!(log("a", None, 200, None).is_success());
    assert!(log("a", None, 299, None).is_success());
    assert!(!log("a", None, 300, None).is_success());
    assert!(!log("a", None, 199, None).is_success());
    assert!(!log("a", None, 200, Some(ErrorKind::ClientDisconnected)).is_success());
}

#[test]
fn pending_queue_drops_the_oldest() {
    let mut q = PendingLogs::new(2);
    q.offer(log("a", None, 200, None));
    q.offer(log("b", None, 200, None));
    assert_eq!(q.dropped(), 0);
    q.offer(log("c", None, 200, None));
    q.offer(log("d", None, 200, None));
    assert_eq!(q.len(), 2);
    assert_eq!(q.dropped(), 2);
    assert_eq!(q.take().unwrap().id, "c");
    assert_eq!(q.take().unwrap().id, "d");
    assert!(q.take().is_none());
    assert_eq!(q.dropped(), 2);
}

#[test]
fn pending_queue_without_capacity_drops_everything() {
    let mut q = PendingLogs::new(0);
    q.offer(log("a", None, 200, None));
    q.offer(log("b", None, 200, None));
    assert_eq!(q.len(), 0);
    assert_eq!(q.dropped(), 2);
    assert!(q.take().is_none());
}

#[test]
fn pending_logs_reach_the_monitor_in_order() {
    let mut q = PendingLogs::new(8);
    let mut m = ProxyMonitor::new(8);
    for i in 0..4 {
        q.offer(log(&format!("r{}", i), None, 200, None));
    }
    while let Some(l) = q.take() {
        m.record(l);
    }
    assert_eq!(ids(&m.get_logs(8)), vec!["r3", "r2", "r1", "r0"]);
}

fn timed(started_at: u64, ended_at: u64) -> RequestLog {
    let mut l = log("t", None, 200, None);
    l.started_at = started_at;
    l.ended_at = ended_at;
    l
}

#[test]
fn first_sample_is_both_estimates() {
    let e = LatencyEstimates::new().observe(250);
    assert_eq!(e, LatencyEstimates { p50: 250, p95: 250, samples: 1 });
}

#[test]
fn estimates_move_toward_the_samples() {
    let e = LatencyEstimates { p50: 160, p95: 160, samples: 5 };
    // a larger sample: one step of ten for the median, nineteen for the tail
    assert_eq!(e.observe(1000), LatencyEstimates { p50: 170, p95: 350, samples: 6 });
    // a smaller sample: one step of ten for both
    assert_eq!(e.observe(0), LatencyEstimates { p50: 150, p95: 150, samples: 6 });
    // an equal sample: nothing moves
    assert_eq!(e.observe(160), LatencyEstimates { p50: 160, p95: 160, samples: 6 });
}

#[test]
fn estimates_never_pass_the_sample() {
    let e = LatencyEstimates { p50: 160, p95: 160, samples: 5 };
    assert_eq!(e.observe(165), LatencyEstimates { p50: 165, p95: 165, samples: 6 });
    assert_eq!(e.observe(155), LatencyEstimates { p50: 155, p95: 155, samples: 6 });
    let small = LatencyEstimates { p50: 3, p95: 3, samples: 1 };
    assert_eq!(small.observe(100), LatencyEstimates { p50: 4, p95: 22, samples: 2 });
    assert_eq!(small.observe(0), LatencyEstimates { p50: 2, p95: 2, samples: 2 });
    let zero = LatencyEstimates { p50: 0, p95: 0, samples: 1 };
    assert_eq!(zero.observe(0), LatencyEstimates { p50: 0, p95: 0, samples: 2 });
    let top = LatencyEstimates { p50: u64::MAX - 1, p95: u64::MAX - 1, samples: u64::MAX };
    assert_eq!(top.observe(u64::MAX), LatencyEstimates { p50: u64::MAX, p95: u64::MAX, samples: u64::MAX });
}

#[test]
fn tail_estimate_settles_high() {
    // nineteen fast requests for each slow one
    let mut e = LatencyEstimates::new();
    for i in 0..4000u64 {
        e = e.observe(if i % 20 == 19 { 2000 } else { 100 });
    }
    assert!(e.p50 >= 100 && e.p50 <= 120, "{:?}", e);
    assert!(e.p95 > e.p50, "{:?}", e);
}

#[test]
fn monitor_estimates_the_latency() {
    let mut m = ProxyMonitor::new(4);
    assert_eq!(m.get_latency(), LatencyEstimates::new());
    m.record(timed(1000, 1250));
    assert_eq!(m.get_latency(), LatencyEstimates { p50: 250, p95: 250, samples: 1 });
    // a log that ends before it starts took no time
    m.record(timed(1000, 900));
    assert_eq!(m.get_latency(), LatencyEstimates { p50: 235, p95: 235, samples: 2 });
    assert_eq!(m.get_stats().latency, m.get_latency());
    m.clear();
    assert_eq!(m.get_latency(), LatencyEstimates::new());
}
