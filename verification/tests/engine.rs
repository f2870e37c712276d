use chat_observer::engine::MessageDiffEngine;
use chat_observer::extract::{extract, DomSnapshot};
use chat_observer::record::MessageNode;

fn node(sender: &str, body: &str, timestamp: &str) -> MessageNode {
    MessageNode {
        sender_label: Some(String::from(sender)),
        body_text: Some(String::from(body)),
        rendered_timestamp: Some(String::from(timestamp)),
    }
}

fn snapshot(bodies: &[&str]) -> DomSnapshot {
    DomSnapshot::Conversation(bodies.iter().map(|b| node("Alice", b, "10:00")).collect())
}

#[test]
fn first_poll_reports_then_second_reports_only_the_new_one() {
    // Extraction sequence [msg1] then [msg1, msg2]: the first poll reports
    // msg1, the second reports only msg2.
    let mut engine = MessageDiffEngine::new(500);
    let first = engine.poll(snapshot(&["msg1"])).unwrap();
    assert!(first.has_new_messages);
    assert_eq!(first.new_messages.len(), 1);
    assert_eq!(first.new_messages[0].body_text, "msg1");

    let second = engine.poll(snapshot(&["msg1", "msg2"])).unwrap();
    assert!(second.has_new_messages);
    assert_eq!(second.new_messages.len(), 1);
    assert_eq!(second.new_messages[0].body_text, "msg2");
}

#[test]
fn second_poll_over_unchanged_dom_reports_nothing() {
    let mut engine = MessageDiffEngine::new(500);
    let first = engine.poll(snapshot(&["msg1", "msg2"])).unwrap();
    assert!(first.has_new_messages);
    assert_eq!(first.new_messages.len(), 2);

    let second = engine.poll(snapshot(&["msg1", "msg2"])).unwrap();
    assert!(!second.has_new_messages);
    assert_eq!(second.new_messages.len(), 0);
}

#[test]
fn poll_preserves_extraction_order() {
    let mut engine = MessageDiffEngine::new(500);
    engine.poll(snapshot(&["b"])).unwrap();
    let result = engine.poll(snapshot(&["a", "b", "c"])).unwrap();
    let bodies: Vec<&str> = result.new_messages.iter().map(|r| r.body_text.as_str()).collect();
    assert_eq!(bodies, ["a", "c"]);
}

#[test]
fn duplicate_records_within_one_snapshot_report_once() {
    let mut engine = MessageDiffEngine::new(500);
    let result = engine.poll(snapshot(&["msg1", "msg1"])).unwrap();
    assert_eq!(result.new_messages.len(), 1);
}

#[test]
fn dedup_ignores_dom_position() {
    let mut engine = MessageDiffEngine::new(500);
    engine
        .poll(DomSnapshot::Conversation(vec![node("Alice", "msg1", "10:00")]))
        .unwrap();
    // The same logical message at another DOM offset is not new.
    let result = engine
        .poll(DomSnapshot::Conversation(vec![
            node("Bob", "hello", "10:01"),
            node("Alice", "msg1", "10:00"),
        ]))
        .unwrap();
    assert_eq!(result.new_messages.len(), 1);
    assert_eq!(result.new_messages[0].body_text, "hello");
}

#[test]
fn malformed_node_is_filtered_not_fatal() {
    // One well-formed record and one record missing its body text yield
    // exactly one extracted record.
    let nodes = vec![
        node("Alice", "hi", "10:00"),
        MessageNode {
            sender_label: Some(String::from("Bob")),
            body_text: None,
            rendered_timestamp: Some(String::from("10:01")),
        },
    ];
    let records = extract(DomSnapshot::Conversation(nodes)).unwrap();
    assert_eq!(records.len(), 1);
    assert_eq!(records[0].sender_label, "Alice");
    assert_eq!(records[0].body_text, "hi");
    assert_eq!(records[0].rendered_timestamp, "10:00");
    assert_eq!(records[0].dom_position_hint, 0);
}

#[test]
fn extraction_keeps_node_positions() {
    let nodes = vec![
        MessageNode {
            sender_label: None,
            body_text: Some(String::from("partial")),
            rendered_timestamp: None,
        },
        node("Alice", "hi", "10:00"),
    ];
    let records = extract(DomSnapshot::Conversation(nodes)).unwrap();
    assert_eq!(records.len(), 1);
    assert_eq!(records[0].dom_position_hint, 1);
}

#[test]
fn empty_conversation_is_not_an_error() {
    let records = extract(DomSnapshot::Conversation(Vec::new())).unwrap();
    assert!(records.is_empty());

    let mut engine = MessageDiffEngine::new(500);
    let result = engine.poll(snapshot(&[])).unwrap();
    assert!(!result.has_new_messages);
    assert_eq!(result.new_messages.len(), 0);
}

#[test]
fn detached_handle_fails_and_leaves_state_unchanged() {
    assert!(extract(DomSnapshot::Detached).is_err());

    let mut engine = MessageDiffEngine::new(500);
    engine.poll(snapshot(&["msg1"])).unwrap();
    assert_eq!(engine.seen_len(), 1);
    assert!(engine.poll(DomSnapshot::Detached).is_err());
    assert_eq!(engine.seen_len(), 1);
    // A message reported before the failed poll is still deduplicated after it.
    let result = engine.poll(snapshot(&["msg1"])).unwrap();
    assert!(!result.has_new_messages);
}

#[test]
fn reset_starts_a_fresh_session() {
    let mut engine = MessageDiffEngine::new(500);
    engine.poll(snapshot(&["msg1"])).unwrap();
    assert_eq!(engine.seen_len(), 1);
    engine.reset();
    assert_eq!(engine.seen_len(), 0);
    // After an explicit reset, an already-reported message is new again.
    let result = engine.poll(snapshot(&["msg1"])).unwrap();
    assert!(result.has_new_messages);
}

#[test]
fn eviction_can_make_an_old_message_new_again() {
    // With capacity 1, reporting msg2 evicts msg1's fingerprint, so a later
    // snapshot still holding msg1 reports it again: eviction deliberately
    // bounds memory at the price of re-reports of old messages.
    let mut engine = MessageDiffEngine::new(1);
    engine.poll(snapshot(&["msg1"])).unwrap();
    engine.poll(snapshot(&["msg1", "msg2"])).unwrap();
    let result = engine.poll(snapshot(&["msg1", "msg2"])).unwrap();
    assert!(result.has_new_messages);
}
