use log_normalizer::clock::UtcTime;
use log_normalizer::format::Format;
use log_normalizer::transform::windows::{
    event_category, event_type, normalize, outcome, parse, timestamp_at, WindowsRecord,
};
use log_normalizer::transform::{
    transform, EventCategory, EventOutcome, EventType, NormalizedEvent, TransformError,
};

const SAMPLE_1: &str = r#"{
    "System": {
        "Provider": {"Name": "Microsoft-Windows-Security-Auditing"},
        "EventID": 4624,
        "TimeCreated": "2026-02-14T14:22:10.8834567Z",
        "Computer": "dc01.contoso.local"
    },
    "EventData": {
        "SubjectUserName": "DC01$",
        "TargetUserName": "jsmith",
        "IpAddress": "10.0.50.42"
    },
    "RenderingInfo": {
        "Message": "An account was successfully logged on.",
        "Level": "Information",
        "Keywords": ["Audit Success"]
    },
    "OpenWEC": {"IpAddress": "192.168.1.10"}
}"#;

const SAMPLE_2: &str = r#"{
    "System": {
        "Provider": {"Name": "Microsoft-Windows-Security-Auditing"},
        "EventID": 4625,
        "TimeCreated": "2026-02-14T15:45:33.2214567Z",
        "Computer": "dc01.contoso.local"
    },
    "EventData": {
        "SubjectUserName": "-",
        "TargetUserName": "admin",
        "IpAddress": "10.99.0.55"
    },
    "RenderingInfo": {
        "Message": "An account failed to log on.",
        "Level": "Information",
        "Keywords": ["Audit Failure"]
    },
    "OpenWEC": {"IpAddress": "192.168.1.10"}
}"#;

const SAMPLE_3: &str = r#"{
    "System": {
        "Provider": {"Name": "Microsoft-Windows-Security-Auditing"},
        "EventID": 4688,
        "TimeCreated": "2026-02-14T16:01:00.1234567Z",
        "Computer": "dc01.contoso.local"
    },
    "EventData": {
        "SubjectUserName": "DC01$",
        "TargetUserName": "-",
        "NewProcessName": "C:\\Windows\\System32\\cmd.exe"
    },
    "RenderingInfo": {
        "Message": "A new process has been created.",
        "Level": "Information",
        "Keywords": ["Audit Success"]
    },
    "OpenWEC": {"IpAddress": "192.168.1.10"}
}"#;

fn parse_sample(json: &str) -> NormalizedEvent {
    parse(json).expect("sample should parse")
}

fn empty_record() -> WindowsRecord {
    WindowsRecord {
        event_id: None,
        time_created: None,
        computer: None,
        provider: None,
        ip_address: None,
        collector_ip_address: None,
        target_user: None,
        subject_user: None,
        keywords: Vec::new(),
        level: None,
        message: None,
    }
}

fn noon() -> UtcTime {
    UtcTime { year: 2024, month: 2, day: 3, hour: 12, minute: 34, second: 56, nanos: 789_999_999 }
}

#[test]
fn sample_2_matches_spec_example() {
    // Mirrors the "Example Output Record".
    let event = parse_sample(SAMPLE_2);
    assert_eq!(
        event,
        NormalizedEvent {
            timestamp: "2026-02-14T15:45:33.221Z".to_string(),
            event_type: EventType::Start,
            event_category: EventCategory::Authentication,
            event_outcome: EventOutcome::Failure,
            source_ip: Some("10.99.0.55".to_string()),
            user_name: Some("admin".to_string()),
            host_name: Some("dc01.contoso.local".to_string()),
            log_level: Some("info".to_string()),
            message: "An account failed to log on.".to_string(),
        }
    );
}

#[test]
fn sample_1_successful_logon() {
    let event = parse_sample(SAMPLE_1);
    assert_eq!(event.event_type, EventType::Start);
    assert_eq!(event.event_category, EventCategory::Authentication);
    assert_eq!(event.event_outcome, EventOutcome::Success);
    assert_eq!(event.source_ip.as_deref(), Some("10.0.50.42"));
    assert_eq!(event.user_name.as_deref(), Some("jsmith"));
    assert_eq!(event.timestamp, "2026-02-14T14:22:10.883Z");
}

#[test]
fn sample_3_process_creation_uses_fallbacks() {
    // 4688: process category; TargetUserName is "-" so falls back to Subject;
    // EventData has no IpAddress so source.ip falls back to OpenWEC.
    let event = parse_sample(SAMPLE_3);
    assert_eq!(event.event_type, EventType::Start);
    assert_eq!(event.event_category, EventCategory::Process);
    assert_eq!(event.event_outcome, EventOutcome::Success);
    assert_eq!(event.user_name.as_deref(), Some("DC01$"));
    assert_eq!(event.source_ip.as_deref(), Some("192.168.1.10"));
}

#[test]
fn sentinel_and_missing_fields_are_omitted() {
    let json = r#"{
            "System": {"EventID": 9999, "Computer": "host1",
                       "TimeCreated": "2026-01-01T00:00:00.0000000Z"},
            "EventData": {"TargetUserName": "-", "SubjectUserName": "-", "IpAddress": ""},
            "RenderingInfo": {"Message": "x"}
        }"#;
    let event = parse_sample(json);
    assert_eq!(event.event_type, EventType::Info);
    assert_eq!(event.event_category, EventCategory::Host);
    assert_eq!(event.event_outcome, EventOutcome::Unknown);
    assert_eq!(event.source_ip, None);
    assert_eq!(event.user_name, None);
    assert_eq!(event.log_level, None);
}

#[test]
fn iam_event_range_is_info_host() {
    assert_eq!(event_type(4720), EventType::Info);
    assert_eq!(event_category(4720), EventCategory::Host);
    assert_eq!(event_type(4767), EventType::Info);
    assert_eq!(event_category(4767), EventCategory::Host);
}

#[test]
fn event_ids_have_their_types_and_categories() {
    for id in [4624, 4625, 4648, 4688] {
        assert_eq!(event_type(id), EventType::Start);
    }
    for id in [4634, 4647, 4689] {
        assert_eq!(event_type(id), EventType::End);
    }
    for id in [4624, 4625, 4634, 4647, 4648] {
        assert_eq!(event_category(id), EventCategory::Authentication);
    }
    for id in [4688, 4689] {
        assert_eq!(event_category(id), EventCategory::Process);
    }
    assert_eq!(event_type(-1), EventType::Info);
    assert_eq!(event_category(i64::MAX), EventCategory::Host);
}

#[test]
fn invalid_json_is_an_error() {
    assert_eq!(parse("{"), Err(TransformError::InvalidJson));
    assert_eq!(parse(""), Err(TransformError::InvalidJson));
    assert_eq!(transform(Format::Ndjson, "{} x"), Err(TransformError::InvalidJson));
    assert_eq!(TransformError::InvalidJson.message(), "invalid Windows Event Log JSON");
}

#[test]
fn a_missing_event_id_is_an_error() {
    for json in [
        "{}",
        "[]",
        r#"{"EventID":4624}"#,
        r#"{"System":{"EventID":"4624"}}"#,
        r#"{"System":{"EventID":4624.5}}"#,
        r#"{"System":{"EventID":18446744073709551615}}"#,
    ] {
        assert_eq!(parse(json), Err(TransformError::MissingEventId));
    }
    assert_eq!(TransformError::MissingEventId.message(), "missing System.EventID");
    assert_eq!(
        normalize(&empty_record(), String::new()),
        Err(TransformError::MissingEventId)
    );
}

#[test]
fn a_bare_event_has_defaults() {
    let event = parse_sample(r#"{"System":{"EventID":-1,"TimeCreated":"nonsense"}}"#);
    assert_eq!(event.message, "Windows event");
    assert_eq!(event.event_outcome, EventOutcome::Unknown);
    assert_eq!(event.host_name, None);
    assert_eq!(event.timestamp.len(), 24);
    let event = parse_sample(r#"{"System":{"EventID":1,"Provider":{"Name":" P "}},"RenderingInfo":{"Message":"-","Level":" \u00c9RROR "}}"#);
    assert_eq!(event.message, "P");
    assert_eq!(event.log_level.as_deref(), Some("\u{e9}rror"));
}

#[test]
fn keywords_count_only_as_strings_of_an_array() {
    let with = |keywords: &str| {
        parse_sample(&format!(
            r#"{{"System":{{"EventID":1}},"RenderingInfo":{{"Keywords":{keywords}}}}}"#
        ))
        .event_outcome
    };
    assert_eq!(with(r#""Audit Success""#), EventOutcome::Unknown);
    assert_eq!(with(r#"[1, null, "Audit Failure"]"#), EventOutcome::Failure);
    assert_eq!(with(r#"["Audit Failure", "Audit Success"]"#), EventOutcome::Success);
    assert_eq!(with(r#"[["Audit Success"], "audit success"]"#), EventOutcome::Unknown);
    let mut record = empty_record();
    record.keywords.push("Audit Failure".to_string());
    assert_eq!(outcome(&record), EventOutcome::Failure);
}

#[test]
fn times_are_brought_to_utc_milliseconds() {
    let at = |text: &str| {
        let mut record = empty_record();
        record.time_created = Some(text.to_string());
        timestamp_at(&record, &noon())
    };
    assert_eq!(at("2026-01-01T00:30:00+01:00"), "2025-12-31T23:30:00.000Z");
    assert_eq!(at("2026-01-01T00:00:00.9999999Z"), "2026-01-01T00:00:00.999Z");
    assert_eq!(at("2016-12-31T23:59:60Z"), "2016-12-31T23:59:60.000Z");
    assert_eq!(at("2024-02-28T23:30:59.5-00:45"), "2024-02-29T00:15:59.500Z");
    assert_eq!(at("2024-03-01T00:00:00+23:59"), "2024-02-29T00:01:00.000Z");
    assert_eq!(at("2017-01-01T05:29:60.25+05:30"), "2016-12-31T23:59:60.250Z");
    assert_eq!(at("0000-01-01T00:00:00+00:01"), "-0001-12-31T23:59:00.000Z");
    assert_eq!(at("9999-12-31T23:59:00-00:01"), "+10000-01-01T00:00:00.000Z");
    assert_eq!(at("2026-01-01"), "2024-02-03T12:34:56.789Z");
    assert_eq!(timestamp_at(&empty_record(), &noon()), "2024-02-03T12:34:56.789Z");
}

#[test]
fn unreadable_times_fall_back_to_the_clock() {
    for text in [
        "",
        "2026-01-01T00:00:0",
        "2026/01/01T00:00:00Z",
        "2026-01-01_00:00:00Z",
        "2\u{e9}26-01-01T00:00:00Z",
        "\u{3000}\u{3000}\u{3000}\u{3000}\u{3000}\u{3000}\u{3000}",
        "2026-02-29T00:00:00Z",
        "2026-00-01T00:00:00Z",
        "2026-13-01T00:00:00Z",
        "2026-01-00T00:00:00Z",
        "2026-01-01T24:00:00+01:00",
        "2026-01-01T00:60:00.5Z",
        "2026-01-01T00:00:61Z",
    ] {
        let mut record = empty_record();
        record.time_created = Some(text.to_string());
        assert_eq!(timestamp_at(&record, &noon()), "2024-02-03T12:34:56.789Z", "{}", text);
    }
}

#[test]
fn rendered_times_stay_as_they_are() {
    for text in [
        "2026-02-14T15:45:33.221Z",
        "0000-01-01T00:00:00.000Z",
        "9999-12-31T23:59:59.999Z",
        "2016-12-31T23:59:60.000Z",
        "2016-12-31T12:00:60.125Z",
    ] {
        let mut record = empty_record();
        record.time_created = Some(text.to_string());
        assert_eq!(timestamp_at(&record, &noon()), text);
    }
}

#[test]
fn the_null_sid_is_omitted_but_may_be_a_message() {
    let event = parse_sample(
        r#"{"System":{"EventID":1,"Computer":"S-1-0-0","Provider":{"Name":"P"}},"EventData":{"TargetUserName":"S-1-0-0","SubjectUserName":"u"},"RenderingInfo":{"Message":" S-1-0-0 ","Level":"S-1-0-0"}}"#,
    );
    assert_eq!(event.message, "S-1-0-0");
    assert_eq!(event.user_name.as_deref(), Some("u"));
    assert_eq!(event.host_name, None);
    assert_eq!(event.log_level, None);
    let event = parse_sample(r#"{"System":{"EventID":1,"Provider":{"Name":"S-1-0-0"}}}"#);
    assert_eq!(event.message, "S-1-0-0");
}
