use mcplex::observe::agentlens::{agent_name_for, call_status, routing_decision_text, security_event_text};
use mcplex::observe::export::{prometheus_metrics, render_prometheus};
use mcplex::observe::metrics::{EventDetails, EventType, GlobalCounters, MetricsCollector, ToolStats};
use mcplex::observe::percentile::percentile;
use mcplex::time::{days_to_ymd, format_duration_secs, format_iso8601, is_leap_year, now_iso8601};

fn tool_call(name: &str, ms: u64, ok: bool) -> EventType {
    EventType::ToolCall {
        tool_name: name.to_string(),
        server_name: "srv".to_string(),
        duration_ms: ms,
        success: ok,
    }
}

#[test]
fn percentile_nearest_rank() {
    assert_eq!(percentile(&[], 50), 0);
    assert_eq!(percentile(&[7], 99), 7);
    let v: Vec<u64> = (1..=10).rev().collect();
    assert_eq!(percentile(&v, 50), 5);
    assert_eq!(percentile(&v, 95), 10);
    assert_eq!(percentile(&v, 99), 10);
    assert_eq!(percentile(&v, 0), 1);
    let w: Vec<u64> = (1..=100).collect();
    assert_eq!(percentile(&w, 95), 95);
    assert_eq!(percentile(&w, 99), 99);
    let mixed = [40, 3, 17, 3, 99, 250, 8];
    assert!(percentile(&mixed, 50) <= percentile(&mixed, 95));
    assert!(percentile(&mixed, 95) <= percentile(&mixed, 99));
}

#[test]
fn tokens_saved_by_showing_fewer_tools() {
    let mut m = MetricsCollector::new();
    m.record_event(EventType::ToolsList { total: 50, visible: 5 });
    assert_eq!(m.get_counters().total_tokens_saved, 9000);
    assert_eq!(m.get_recent_events(1)[0].tokens_saved, Some(9000));
    m.record_event(EventType::ToolsList { total: 7, visible: 7 });
    assert_eq!(m.get_counters().total_tokens_saved, 9000);
}

#[test]
fn tool_stats_record_and_window() {
    let mut s = ToolStats::new("t");
    assert_eq!(s.min_duration_ms, u64::MAX);
    s.record(30, true);
    s.record(10, false);
    s.record(20, true);
    assert_eq!(s.invocation_count, 3);
    assert_eq!(s.success_count, 2);
    assert_eq!(s.error_count, 1);
    assert_eq!(s.total_duration_ms, 60);
    assert_eq!(s.min_duration_ms, 10);
    assert_eq!(s.max_duration_ms, 30);
    assert_eq!(s.p50(), 20);
    assert_eq!(s.p95(), 30);
    assert_eq!(s.p99(), 30);
    for i in 0..150u64 {
        s.record(i, true);
    }
    assert_eq!(s.durations.len(), 100);
    assert_eq!(s.durations[0], 50);
    assert_eq!(s.durations[99], 149);
}

#[test]
fn collector_counts_events() {
    let mut m = MetricsCollector::new();
    m.record_event(EventType::Request { method: "tools/list".to_string(), duration_ms: 3, success: true });
    m.record_event(EventType::Request { method: "bogus".to_string(), duration_ms: 1, success: false });
    m.record_event(tool_call("a", 10, true));
    m.record_event(tool_call("a", 20, false));
    m.record_event(tool_call("b", 5, true));
    m.record_event(EventType::ToolsList { total: 10, visible: 3 });
    m.record_event(EventType::Routing { query: "q".to_string(), total_tools: 10, selected_tools: 4 });
    m.record_event(EventType::ServerDisconnect { server_name: "srv".to_string(), tools_removed: 2 });
    m.record_event(EventType::ServerReconnect { server_name: "srv".to_string(), tools_restored: 2 });
    let c: GlobalCounters = m.get_counters();
    assert_eq!(c.total_requests, 2);
    assert_eq!(c.total_tool_calls, 3);
    assert_eq!(c.total_errors, 3);
    assert_eq!(c.total_tokens_saved, 7 * 200 + 6 * 200);
    assert_eq!(c.total_routing_queries, 1);

    let stats = m.get_tool_stats();
    assert_eq!(stats.len(), 2);
    assert_eq!(stats[0].name, "a");
    assert_eq!(stats[0].invocation_count, 2);
    assert_eq!(stats[0].error_count, 1);
    assert_eq!(stats[1].name, "b");

    let recent = m.get_recent_events(3);
    assert_eq!(recent.len(), 3);
    assert_eq!(recent[0].event_type, "server_reconnect");
    assert_eq!(recent[0].success, Some(true));
    assert_eq!(recent[1].event_type, "server_disconnect");
    assert_eq!(recent[1].success, Some(false));
    assert_eq!(recent[2].event_type, "routing");
    assert_eq!(recent[2].tokens_saved, Some(1200));
    match &recent[2].details {
        Some(EventDetails::Routing { query, total_tools, selected_tools }) => {
            assert_eq!(query, "q");
            assert_eq!(*total_tools, 10);
            assert_eq!(*selected_tools, 4);
        }
        _ => panic!("routing details expected"),
    }
    assert_eq!(m.get_recent_events(100).len(), 9);
}

#[test]
fn collector_feed_keeps_last_thousand() {
    let mut m = MetricsCollector::new();
    for i in 0..1005u64 {
        m.record_event_at(
            EventType::Request { method: format!("m{}", i), duration_ms: i, success: true },
            "2026-01-01T00:00:00Z".to_string(),
        );
    }
    let all = m.get_recent_events(5000);
    assert_eq!(all.len(), 1000);
    assert_eq!(all[0].tool_name.as_deref(), Some("m1004"));
    assert_eq!(all[999].tool_name.as_deref(), Some("m5"));
    assert_eq!(all[0].timestamp, "2026-01-01T00:00:00Z");
}

#[test]
fn record_event_stamps_current_time() {
    let mut m = MetricsCollector::new();
    m.record_event(tool_call("a", 1, true));
    let e = &m.get_recent_events(1)[0];
    assert_eq!(e.timestamp.len(), 20);
    assert_eq!(e.event_type, "tool_call");
    assert_eq!(e.server_name.as_deref(), Some("srv"));
}

#[test]
fn prometheus_exposition() {
    let mut m = MetricsCollector::new();
    m.record_event(EventType::Request { method: "ping".to_string(), duration_ms: 1, success: true });
    m.record_event(tool_call("create_issue", 142, true));
    let text = prometheus_metrics(&m);
    assert!(text.starts_with(
        "# HELP mcplex_requests_total Total number of MCP requests handled\n# TYPE mcplex_requests_total counter\nmcplex_requests_total 1\n"
    ));
    assert!(text.contains("mcplex_tool_calls_total 1\n"));
    assert!(text.contains("mcplex_errors_total 0\n"));
    assert!(text.contains("mcplex_tool_invocations_total{tool=\"create_issue\"} 1\n"));
    assert!(text.contains("mcplex_tool_errors_total{tool=\"create_issue\"} 0\n"));
    assert!(text.contains("mcplex_tool_duration_ms{tool=\"create_issue\",quantile=\"0.95\"} 142\n"));
    assert!(text.contains("\n# HELP mcplex_tool_duration_ms Tool call duration in milliseconds\n# TYPE mcplex_tool_duration_ms summary\n"));
}

#[test]
fn prometheus_without_tools() {
    let c = GlobalCounters {
        total_requests: 0,
        total_tool_calls: 0,
        total_errors: 0,
        total_tokens_saved: 0,
        total_routing_queries: 0,
        started_at_epoch: 0,
    };
    let text = render_prometheus(&c, &vec![]);
    assert!(text.ends_with("# TYPE mcplex_tool_duration_ms summary\n"));
    assert_eq!(text.matches("# HELP").count(), 8);
}

#[test]
fn calendar_and_timestamps() {
    assert!(is_leap_year(2000));
    assert!(!is_leap_year(1900));
    assert!(is_leap_year(2024));
    assert!(!is_leap_year(2023));
    assert_eq!(days_to_ymd(0), (1970, 1, 1));
    assert_eq!(days_to_ymd(59), (1970, 3, 1));
    assert_eq!(days_to_ymd(11016), (2000, 2, 29));
    assert_eq!(format_iso8601(0), "1970-01-01T00:00:00Z");
    assert_eq!(format_iso8601(951782400 + 3661), "2000-02-29T01:01:01Z");
    assert_eq!(format_iso8601(1775815201), "2026-04-10T10:00:01Z");
    let now = now_iso8601();
    assert_eq!(now.len(), 20);
}

#[test]
fn durations_for_display() {
    assert_eq!(format_duration_secs(0), "0s");
    assert_eq!(format_duration_secs(59), "59s");
    assert_eq!(format_duration_secs(61), "1m 1s");
    assert_eq!(format_duration_secs(3600), "1h 0m 0s");
    assert_eq!(format_duration_secs(3723), "1h 2m 3s");
}

#[test]
fn agentlens_texts() {
    assert_eq!(agent_name_for("github"), "MCPlex/github");
    assert_eq!(call_status(true), "success");
    assert_eq!(call_status(false), "error");
    assert_eq!(security_event_text("tool_blocked", "db/drop", "policy"), "tool_blocked: db/drop (policy)");
    assert_eq!(
        routing_decision_text("find issues", 50, 5),
        "Routing query 'find issues': 50 → 5 tools (saved 45 tool definitions)"
    );
}

#[test]
fn tool_stats_after_a_long_history() {
    let mut s = ToolStats::new("search");
    for d in 1..=150u64 {
        s.record(d, d % 3 != 0);
    }
    assert_eq!(s.invocation_count, 150);
    assert_eq!(s.success_count, 100);
    assert_eq!(s.error_count, 50);
    assert_eq!(s.total_duration_ms, 150 * 151 / 2);
    assert_eq!(s.min_duration_ms, 1);
    assert_eq!(s.max_duration_ms, 150);
    assert_eq!(s.durations, (51..=150u64).collect::<Vec<u64>>());
    assert!(s.p50() <= s.p95() && s.p95() <= s.p99());
    assert!(s.durations.contains(&s.p99()));
    assert_eq!(s.p99(), 149);
}

#[test]
fn percentiles_are_samples() {
    let values = [40u64, 7, 19, 7, 88];
    for pct in [1usize, 10, 50, 95, 99, 100] {
        assert!(values.contains(&percentile(&values, pct)));
    }
    assert_eq!(percentile(&[], 99), 0);
}

#[test]
fn consecutive_day_counts_are_consecutive_dates() {
    assert_eq!(days_to_ymd(364), (1970, 12, 31));
    assert_eq!(days_to_ymd(365), (1971, 1, 1));
    assert_eq!(days_to_ymd(11015), (2000, 2, 28));
    assert_eq!(days_to_ymd(11016), (2000, 2, 29));
    assert_eq!(days_to_ymd(11017), (2000, 3, 1));
    assert_eq!(days_to_ymd(47540), (2100, 2, 28));
    assert_eq!(days_to_ymd(47541), (2100, 3, 1));
}

#[test]
fn events_that_fit_may_be_recorded() {
    let m = MetricsCollector::new();
    assert!(m.can_record_event(&EventType::ToolsList { total: 10, visible: 3 }));
    assert!(!m.can_record_event(&EventType::ToolsList { total: 3, visible: 10 }));
    assert!(!m.can_record_event(&EventType::Routing { query: "q".to_string(), total_tools: 1, selected_tools: 2 }));
    assert!(!m.can_record_event(&EventType::ToolsList { total: usize::MAX, visible: 0 }));
    assert!(m.can_record_event(&EventType::ToolCall {
        tool_name: "t".to_string(),
        server_name: "s".to_string(),
        duration_ms: u64::MAX,
        success: true,
    }));
    assert!(m.can_record_event(&EventType::ServerReconnect { server_name: "s".to_string(), tools_restored: 1 }));
}

#[test]
fn summary_percentiles_of_one_to_a_hundred() {
    let mut s = ToolStats::new("t");
    for d in 1..=100u64 {
        s.record(d, true);
    }
    assert_eq!((s.p50(), s.p95(), s.p99()), (50, 95, 99));
    let empty = ToolStats::new("e");
    assert_eq!((empty.p50(), empty.p95(), empty.p99()), (0, 0, 0));
}
