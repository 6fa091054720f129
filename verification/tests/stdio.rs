use mcplex::protocol::pages::{
    answer_capabilities, declared_capabilities, offered_lists, PageCollector, PageStep,
};
use mcplex::protocol::answers::{http_answer, listed_items};
use mcplex::text::trim;
use mcplex::protocol::stdio::{
    classify_line, classify_message, connection_lost_message, format_upstream_error, notification_line,
    request_line,
    may_hold_message, server_exited_message, LineOutcome, PendingTable, RequestIds,
    FIRST_REQUEST_ID,
};

#[test]
fn request_ids_count_up_from_ten() {
    let mut ids = RequestIds::new();
    assert_eq!(ids.take(), FIRST_REQUEST_ID);
    assert_eq!(ids.take(), 11);
    assert_eq!(ids.take(), 12);
}

#[test]
fn pending_requests_are_matched_by_id() {
    let mut table: PendingTable<&str> = PendingTable::new();
    table.insert(10, "first");
    table.insert(11, "second");
    table.insert(10, "replaced");
    assert_eq!(table.len(), 2);
    assert_eq!(table.take(10), Some("replaced"));
    assert_eq!(table.take(10), None);
    assert_eq!(table.take(99), None);
    table.insert(12, "third");
    let drained = table.drain();
    assert_eq!(drained, vec![(11, "second"), (12, "third")]);
    assert_eq!(table.len(), 0);
}

#[test]
fn upstream_error_texts() {
    assert_eq!(format_upstream_error(Some("bad input"), Some(-32602)), "bad input (code: -32602)");
    assert_eq!(format_upstream_error(None, None), "Unknown error (code: -1)");
    assert_eq!(format_upstream_error(Some("x"), Some(0)), "x (code: 0)");
    assert_eq!(format_upstream_error(Some("x"), Some(i64::MIN)), "x (code: -9223372036854775808)");
    assert_eq!(server_exited_message("fs", 12), "Server 'fs' exited while request id=12 was pending");
    assert_eq!(connection_lost_message("fs", 13), "Connection to 'fs' lost while request id=13 was pending");
}

#[test]
fn only_json_looking_lines_are_read() {
    assert!(may_hold_message("{\"jsonrpc\":\"2.0\"}"));
    assert!(may_hold_message("   {\"id\":1}  \n"));
    assert!(!may_hold_message(""));
    assert!(!may_hold_message("   "));
    assert!(!may_hold_message("Server starting..."));
    assert!(!may_hold_message("[1,2]"));
}

fn answer(line: &str) -> (i64, Result<serde_json::Value, String>) {
    match classify_line(line) {
        LineOutcome::Answer { id, outcome } => (id, outcome),
        _ => panic!("an answer was expected"),
    }
}

#[test]
fn answers_carry_their_result() {
    let (id, outcome) = answer("  {\"jsonrpc\":\"2.0\",\"id\":12,\"result\":{\"tools\":[]}}  ");
    assert_eq!(id, 12);
    let value = outcome.unwrap();
    assert_eq!(value.get("tools").and_then(|t| t.as_array()).map(|a| a.len()), Some(0));
    let (id, outcome) = answer("{\"id\":3,\"result\":null}");
    assert_eq!(id, 3);
    assert!(outcome.unwrap().is_null());
}

#[test]
fn failed_answers_carry_their_error_text() {
    let (id, outcome) = answer("{\"id\":7,\"error\":{\"code\":-32601,\"message\":\"Method not found\"}}");
    assert_eq!(id, 7);
    assert_eq!(outcome, Err("Method not found (code: -32601)".to_string()));
    let (_, outcome) = answer("{\"id\":8,\"error\":{}}");
    assert_eq!(outcome, Err("Unknown error (code: -1)".to_string()));
    let (_, outcome) = answer("{\"id\":9}");
    assert_eq!(outcome, Err("Response has neither 'result' nor 'error'".to_string()));
}

#[test]
fn lines_without_an_integer_id_are_notifications() {
    match classify_line("{\"jsonrpc\":\"2.0\",\"method\":\"notifications/tools/list_changed\"}") {
        LineOutcome::Notification { method } => {
            assert_eq!(method.as_deref(), Some("notifications/tools/list_changed"))
        }
        _ => panic!("a notification was expected"),
    }
    match classify_line("{\"id\":\"abc\",\"result\":1}") {
        LineOutcome::Notification { method } => assert_eq!(method, None),
        _ => panic!("a notification was expected"),
    }
}

#[test]
fn lines_that_are_not_messages_are_skipped() {
    assert!(matches!(classify_line("Server starting..."), LineOutcome::Skip));
    assert!(matches!(classify_line("{not json"), LineOutcome::Skip));
    assert!(matches!(classify_line(""), LineOutcome::Skip));
    assert!(matches!(classify_line("[1,2]"), LineOutcome::Skip));
}

#[test]
fn messages_are_sorted_by_their_id() {
    let v = serde_json::from_str::<serde_json::Value>("{\"id\":5,\"result\":\"ok\"}").unwrap();
    match classify_message(&v) {
        LineOutcome::Answer { id, outcome } => {
            assert_eq!(id, 5);
            assert_eq!(outcome.unwrap().as_str(), Some("ok"));
        }
        _ => panic!("an answer was expected"),
    }
}

fn page(body: &str) -> serde_json::Value {
    serde_json::from_str(body).unwrap()
}

#[test]
fn pages_are_gathered_until_no_cursor() {
    let mut pages = PageCollector::new();
    match pages.take_page(&page("{\"result\":{\"tools\":[1,2],\"nextCursor\":\"p2\"}}"), "tools") {
        PageStep::Next { cursor } => assert_eq!(cursor, "p2"),
        PageStep::Done => panic!("a next page was expected"),
    }
    assert!(matches!(pages.take_page(&page("{\"result\":{\"tools\":[3]}}"), "tools"), PageStep::Done));
    let items = pages.finish().unwrap();
    assert_eq!(items, vec![serde_json::Value::from(1), serde_json::Value::from(2), serde_json::Value::from(3)]);
}

#[test]
fn a_page_without_result_ends_the_walk() {
    let mut pages = PageCollector::new();
    assert!(matches!(pages.take_page(&page("{\"error\":{}}"), "tools"), PageStep::Done));
    match pages.take_page(&page("{\"result\":{\"tools\":\"x\",\"nextCursor\":\"c\"}}"), "tools") {
        PageStep::Next { cursor } => assert_eq!(cursor, "c"),
        PageStep::Done => panic!("a next page was expected"),
    }
    assert!(pages.finish().is_none());
}

#[test]
fn trim_strips_unicode_white_space_as_std_does() {
    let samples = [
        "  \t{\"id\":1}\u{3000}\n",
        "\u{a0}a b\u{2009}",
        "   ",
        "",
        "\u{85}x\u{1680}",
        "no-space",
        "\u{200b}zero width is kept\u{200b}",
    ];
    for s in samples {
        assert_eq!(trim(s), s.trim());
    }
    assert_eq!(trim("  \t{x}\r\n"), "{x}");
}

#[test]
fn offered_lists_follow_the_declared_capabilities() {
    let answer = page("{\"result\":{\"capabilities\":{\"tools\":{\"listChanged\":true},\"prompts\":{}}}}");
    let caps = answer_capabilities(&answer).unwrap();
    let offered = offered_lists(&caps);
    assert!(offered.tools && offered.prompts && !offered.resources);
    let result = page("{\"capabilities\":{\"resources\":{}}}");
    let offered = offered_lists(&declared_capabilities(&result).unwrap());
    assert!(!offered.tools && offered.resources && !offered.prompts);
    assert!(answer_capabilities(&page("{\"error\":{}}")).is_none());
}

#[test]
fn http_answers_are_read() {
    assert_eq!(http_answer("tools/call", &page("{\"result\":{\"ok\":true}}")), Ok(page("{\"ok\":true}")));
    assert_eq!(
        http_answer("tools/call", &page("{\"error\":{\"code\":-1,\"message\":\"x\"}}")),
        Err("Upstream error (tools/call): {\"code\":-1,\"message\":\"x\"}".to_string())
    );
    assert_eq!(
        http_answer("tools/list", &page("{\"id\":1}")),
        Err("Invalid response from upstream (tools/list)".to_string())
    );
}

#[test]
fn listed_items_are_taken_from_the_result() {
    let result = page("{\"tools\":[{\"name\":\"a\"}],\"nextCursor\":null}");
    assert_eq!(listed_items(&result, "tools"), Some(page("[{\"name\":\"a\"}]")));
    assert_eq!(listed_items(&result, "prompts"), None);
}

#[test]
fn request_lines_are_what_serde_json_writes() {
    let params = page("{\"name\":\"search\",\"arguments\":{\"q\":\"a \\\"b\\\"\"}}");
    let line = request_line(12, "tools/call", &params);
    let expected = serde_json::to_string(&serde_json::Value::Object({
        let mut m = serde_json::Map::new();
        m.insert("jsonrpc".to_string(), serde_json::Value::from("2.0"));
        m.insert("id".to_string(), serde_json::Value::from(12));
        m.insert("method".to_string(), serde_json::Value::from("tools/call"));
        m.insert("params".to_string(), params.clone());
        m
    }))
    .unwrap()
        + "\n";
    assert_eq!(line, expected);
    assert_eq!(request_line(-3, "x\"y", &serde_json::Value::Null), "{\"id\":-3,\"jsonrpc\":\"2.0\",\"method\":\"x\\\"y\",\"params\":null}\n");
    assert_eq!(notification_line("notifications/initialized"), "{\"jsonrpc\":\"2.0\",\"method\":\"notifications/initialized\"}\n");
}
