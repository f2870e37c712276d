use chat_observer::fingerprint::fingerprint;
use chat_observer::record::RawMessageRecord;

fn record(sender: &str, body: &str, timestamp: &str, position: usize) -> RawMessageRecord {
    RawMessageRecord {
        sender_label: String::from(sender),
        body_text: String::from(body),
        rendered_timestamp: String::from(timestamp),
        dom_position_hint: position,
    }
}

#[test]
fn fingerprint_is_deterministic() {
    let a = record("Alice", "hi", "10:00", 3);
    let b = record("Alice", "hi", "10:00", 3);
    assert!(fingerprint(&a) == fingerprint(&b));
    assert!(fingerprint(&a) == fingerprint(&a));
}

#[test]
fn fingerprint_ignores_dom_position() {
    let a = record("Alice", "hi", "10:00", 0);
    let b = record("Alice", "hi", "10:00", 17);
    assert!(fingerprint(&a) == fingerprint(&b));
}

#[test]
fn fingerprint_separates_differing_content() {
    let base = record("Alice", "hi", "10:00", 0);
    let other_sender = record("Bob", "hi", "10:00", 0);
    let other_body = record("Alice", "bye", "10:00", 0);
    let other_time = record("Alice", "hi", "10:01", 0);
    assert!(fingerprint(&base) != fingerprint(&other_sender));
    assert!(fingerprint(&base) != fingerprint(&other_body));
    assert!(fingerprint(&base) != fingerprint(&other_time));
}
