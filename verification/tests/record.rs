use log_normalizer::record::to_json;
use log_normalizer::transform::{EventCategory, EventOutcome, EventType, NormalizedEvent};
use serde_json::Value;

fn example() -> NormalizedEvent {
    NormalizedEvent {
        timestamp: "2026-02-14T15:45:33.221Z".to_string(),
        event_type: EventType::Start,
        event_category: EventCategory::Authentication,
        event_outcome: EventOutcome::Failure,
        source_ip: Some("10.99.0.55".to_string()),
        user_name: Some("admin".to_string()),
        host_name: Some("dc01.contoso.local".to_string()),
        log_level: Some("info".to_string()),
        message: "An account failed to log on.".to_string(),
    }
}

#[test]
fn the_documented_example_is_written() {
    assert_eq!(
        to_json(&example()),
        r#"{"@timestamp":"2026-02-14T15:45:33.221Z","event.type":"start","event.category":"authentication","event.outcome":"failure","source.ip":"10.99.0.55","user.name":"admin","host.name":"dc01.contoso.local","log.level":"info","message":"An account failed to log on."}"#
    );
}

#[test]
fn absent_fields_are_omitted() {
    let event = NormalizedEvent {
        event_type: EventType::Denied,
        event_category: EventCategory::Process,
        event_outcome: EventOutcome::Unknown,
        source_ip: None,
        user_name: None,
        host_name: None,
        log_level: None,
        message: String::new(),
        ..example()
    };
    assert_eq!(
        to_json(&event),
        r#"{"@timestamp":"2026-02-14T15:45:33.221Z","event.type":"denied","event.category":"process","event.outcome":"unknown","message":""}"#
    );
}

#[test]
fn text_is_escaped_on_one_line() {
    let message = "a\"b\\c\n\r\t\u{8}\u{c}\u{1}\u{1f}/\u{7f}\u{e9}\u{1f600}".to_string();
    let event = NormalizedEvent { message: message.clone(), ..example() };
    let text = to_json(&event);
    assert!(text.ends_with("\"message\":\"a\\\"b\\\\c\\n\\r\\t\\b\\f\\u0001\\u001f/\u{7f}\u{e9}\u{1f600}\"}"));
    assert_eq!(text.lines().count(), 1);
    let value: Value = serde_json::from_str(&text).unwrap();
    assert_eq!(value.pointer("/message").and_then(Value::as_str), Some(message.as_str()));
}

#[test]
fn records_parse_back() {
    let value: Value = serde_json::from_str(&to_json(&example())).unwrap();
    let object = value.as_object().unwrap();
    assert_eq!(object.len(), 9);
    assert_eq!(object.get("event.category").and_then(Value::as_str), Some("authentication"));
    assert_eq!(object.get("user.name").and_then(Value::as_str), Some("admin"));
}

#[test]
fn names_follow_the_schema() {
    let types = [EventType::Start, EventType::End, EventType::Info, EventType::Denied, EventType::Allowed];
    let names: Vec<&str> = types.iter().map(|t| t.name()).collect();
    assert_eq!(names, ["start", "end", "info", "denied", "allowed"]);
    let categories = [EventCategory::Authentication, EventCategory::Network, EventCategory::Process, EventCategory::Host];
    let names: Vec<&str> = categories.iter().map(|c| c.name()).collect();
    assert_eq!(names, ["authentication", "network", "process", "host"]);
    let outcomes = [EventOutcome::Success, EventOutcome::Failure, EventOutcome::Unknown];
    let names: Vec<&str> = outcomes.iter().map(|o| o.name()).collect();
    assert_eq!(names, ["success", "failure", "unknown"]);
}
