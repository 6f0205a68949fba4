use chrono::{Datelike, Utc};
use log_normalizer::clock::UtcTime;
use log_normalizer::transform::syslog::{
    event_category, event_type, is_key, outcome, parse, parse_at, parse_extensions,
    parse_timestamp, parse_timestamp_at, severity_name, strip_pri, type_from_texts, CefMessage,
};
use log_normalizer::transform::{
    clean_message, clean_optional, transform, EventCategory, EventOutcome, EventType, NormalizedEvent,
};
use log_normalizer::format::Format;

const SAMPLE_1: &str = "<134>Dec 05 10:30:45 192.168.1.1 CEF:0|Microsoft|Windows|10.0|4624|An account was successfully logged on|6|src=10.0.50.42 suser=jsmith msg=An account was successfully logged on act=allow\n";
const SAMPLE_2: &str = "<133>Dec 05 10:31:02 192.168.1.1 CEF:0|Microsoft|Windows|10.0|4625|An account failed to log on|7|src=10.99.0.55 suser=admin msg=An account failed to log on act=denied\n";
const SAMPLE_3: &str = "<134>Dec 05 10:32:10 192.168.1.1 CEF:0|PaloAlto|PAN-OS|10.1|TRAFFIC|end|3|src=192.168.1.100 dst=8.8.8.8 msg=Connection allowed act=allow\n";

fn parse_first_line(contents: &str) -> NormalizedEvent {
    let line = contents.lines().next().expect("a line");
    parse(line).expect("sample should parse")
}

fn noon() -> UtcTime {
    UtcTime { year: 2024, month: 2, day: 3, hour: 12, minute: 34, second: 56, nanos: 789_999_999 }
}

fn tokens(list: &[&str]) -> Vec<String> {
    list.iter().map(|s| s.to_string()).collect()
}

#[test]
fn sample_1_successful_logon_allowed() {
    let event = parse_first_line(SAMPLE_1);
    assert_eq!(event.event_type, EventType::Allowed); // act=allow takes precedence
    assert_eq!(event.event_category, EventCategory::Authentication);
    assert_eq!(event.event_outcome, EventOutcome::Success);
    assert_eq!(event.source_ip.as_deref(), Some("10.0.50.42"));
    assert_eq!(event.user_name.as_deref(), Some("jsmith"));
    assert_eq!(event.host_name.as_deref(), Some("192.168.1.1"));
    assert_eq!(event.log_level.as_deref(), Some("info")); // pri 134 & 7 = 6
    assert_eq!(event.message, "An account was successfully logged on");
}

#[test]
fn sample_2_failed_logon_denied() {
    let event = parse_first_line(SAMPLE_2);
    assert_eq!(event.event_type, EventType::Denied); // act=denied
    assert_eq!(event.event_category, EventCategory::Authentication);
    assert_eq!(event.event_outcome, EventOutcome::Failure);
    assert_eq!(event.source_ip.as_deref(), Some("10.99.0.55"));
    assert_eq!(event.user_name.as_deref(), Some("admin"));
    assert_eq!(event.log_level.as_deref(), Some("notice")); // pri 133 & 7 = 5
    assert_eq!(event.message, "An account failed to log on");
}

#[test]
fn sample_3_traffic_is_network() {
    let event = parse_first_line(SAMPLE_3);
    assert_eq!(event.event_type, EventType::Allowed);
    assert_eq!(event.event_category, EventCategory::Network); // sigid TRAFFIC
    assert_eq!(event.event_outcome, EventOutcome::Success);
    assert_eq!(event.source_ip.as_deref(), Some("192.168.1.100"));
    assert_eq!(event.message, "Connection allowed");
}

#[test]
fn timestamp_is_iso8601_utc_with_current_year() {
    let event = parse_first_line(SAMPLE_1);
    let year = Utc::now().year();
    assert_eq!(event.timestamp, format!("{year}-12-05T10:30:45.000Z"));
}

#[test]
fn extensions_preserve_spaces_in_values() {
    let ext = parse_extensions("src=1.2.3.4 msg=An account failed to log on act=denied");
    assert_eq!(ext.get("src").map(String::as_str), Some("1.2.3.4"));
    assert_eq!(
        ext.get("msg").map(String::as_str),
        Some("An account failed to log on")
    );
    assert_eq!(ext.get("act").map(String::as_str), Some("denied"));
}

#[test]
fn pri_defaults_when_malformed() {
    let (pri, rest) = strip_pri("no pri here");
    assert_eq!(pri, 13);
    assert_eq!(rest, "no pri here");
}

#[test]
fn priorities_split_off() {
    assert_eq!(strip_pri("<134>rest"), (134, "rest"));
    assert_eq!(strip_pri("<0>"), (0, ""));
    assert_eq!(strip_pri("<+13>\u{e9}x"), (13, "\u{e9}x"));
    assert_eq!(strip_pri("<999>x"), (231, "x"));
    assert_eq!(strip_pri("<65536>x"), (13, "<65536>x"));
    assert_eq!(strip_pri("<>x"), (13, "<>x"));
    assert_eq!(strip_pri("<13"), (13, "<13"));
    assert_eq!(strip_pri(""), (13, ""));
}

#[test]
fn severities_have_their_names() {
    let names = ["emergency", "alert", "critical", "error", "warning", "notice", "info", "debug"];
    for (i, name) in names.iter().enumerate() {
        assert_eq!(severity_name(i as u8), *name);
    }
    assert_eq!(severity_name(200), "debug");
}

#[test]
fn timestamps_take_the_current_year() {
    let now = noon();
    assert_eq!(
        parse_timestamp_at(&tokens(&["Feb", "29", "23:59:01", "host"]), &now),
        "2024-02-29T23:59:01.000Z"
    );
    assert_eq!(parse_timestamp_at(&tokens(&["dec", "5", "1:2:3"]), &now), "2024-12-05T01:02:03.000Z");
    assert_eq!(parse_timestamp_at(&tokens(&["Jun", "30", "23:59:60"]), &now), "2024-06-30T23:59:60.000Z");
}

#[test]
fn unreadable_timestamps_fall_back_to_the_clock() {
    let now = noon();
    let fallback = "2024-02-03T12:34:56.789Z";
    assert_eq!(parse_timestamp_at(&tokens(&[]), &now), fallback);
    assert_eq!(parse_timestamp_at(&tokens(&["Dec", "05"]), &now), fallback);
    assert_eq!(parse_timestamp_at(&tokens(&["Feb", "30", "10:00:00"]), &now), fallback);
    assert_eq!(parse_timestamp_at(&tokens(&["December", "05", "10:00:00"]), &now), fallback);
    assert_eq!(parse_timestamp_at(&tokens(&["Dez", "05", "10:00:00"]), &now), fallback);
    assert_eq!(parse_timestamp_at(&tokens(&["De", "05", "10:00:00"]), &now), fallback);
    assert_eq!(parse_timestamp_at(&tokens(&["D\u{e9}c", "05", "10:00:00"]), &now), fallback);
    assert_eq!(parse_timestamp_at(&tokens(&["Apr", "31", "10:00:00"]), &now), fallback);
    assert_eq!(parse_timestamp_at(&tokens(&["Dec", "00", "10:00:00"]), &now), fallback);
    assert_eq!(parse_timestamp_at(&tokens(&["Dec", "32", "10:00:00"]), &now), fallback);
    assert_eq!(parse_timestamp_at(&tokens(&["Dec", "05", "24:00:00"]), &now), fallback);
    assert_eq!(parse_timestamp_at(&tokens(&["Dec", "05", "10:60:00"]), &now), fallback);
    assert_eq!(parse_timestamp_at(&tokens(&["Dec", "05", "10:00:61"]), &now), fallback);
    let text = parse_timestamp(&tokens(&["x"]));
    assert!(text.starts_with(&format!("{}-", Utc::now().year())));
    assert_eq!(text.len(), 24);
}

#[test]
fn years_beyond_four_digits_carry_a_sign() {
    let far = UtcTime { year: 12345, ..noon() };
    assert_eq!(parse_timestamp_at(&tokens(&[]), &far), "+12345-02-03T12:34:56.789Z");
    let early = UtcTime { year: -7, ..noon() };
    assert_eq!(parse_timestamp_at(&tokens(&[]), &early), "-0007-02-03T12:34:56.789Z");
}

#[test]
fn extension_keys_are_ascii_alphanumeric() {
    assert!(is_key("suser"));
    assert!(is_key("cs1Label"));
    assert!(!is_key(""));
    assert!(!is_key("a.b"));
    assert!(!is_key("\u{e9}"));
}

#[test]
fn extensions_keep_what_is_no_key() {
    let ext = parse_extensions("lost words a=1 b.c=2 =3 a=4= d= x");
    assert_eq!(ext.get("a").map(String::as_str), Some("4="));
    assert_eq!(ext.get("d").map(String::as_str), Some(" x"));
    assert_eq!(ext.get("lost"), None);
    assert_eq!(ext.len(), 2);
    assert_eq!(parse_extensions("a=1 b.c=2 =3").get("a").map(String::as_str), Some("1 b.c=2 =3"));
}

#[test]
fn cef_headers_are_split_at_bars() {
    let cef = CefMessage::parse("CEF:0|v|p|1|sig|the name|5|msg=a|b act=x");
    assert_eq!(cef.signature_id, "sig");
    assert_eq!(cef.name, "the name");
    assert_eq!(cef.extensions.get("msg").map(String::as_str), Some("a|b"));
    assert_eq!(cef.extensions.get("act").map(String::as_str), Some("x"));

    let short = CefMessage::parse("CEF:0|v|p");
    assert_eq!(short.signature_id, "");
    assert_eq!(short.name, "");
    assert_eq!(short.extensions.len(), 0);
}

#[test]
fn actions_decide_before_messages() {
    assert_eq!(event_type(Some("ALLOWED"), "logoff logon"), EventType::Allowed);
    assert_eq!(event_type(Some("Blocked"), "logon"), EventType::Denied);
    assert_eq!(event_type(Some("deny"), "logon"), EventType::Denied);
    assert_eq!(event_type(Some("monitor"), "User LOGIN"), EventType::Start);
    assert_eq!(event_type(None, "Authenticated session logout"), EventType::End);
    assert_eq!(event_type(None, "User logoff"), EventType::Info);
    assert_eq!(event_type(None, "disk full"), EventType::Info);
    assert_eq!(type_from_texts(Some("allow"), ""), EventType::Allowed);
    // Text beyond ASCII is lowercased too.
    assert_eq!(event_type(None, "\u{c9}CHEC LOGIN"), EventType::Start);
}

#[test]
fn categories_look_at_message_signature_and_name() {
    let cef = Some(CefMessage::parse("CEF:0|v|p|1|Traffic|x|5|"));
    assert_eq!(event_category(&cef, "y"), EventCategory::Network);
    let cef = Some(CefMessage::parse("CEF:0|v|p|1|1|Logged On|5|"));
    assert_eq!(event_category(&cef, "connection"), EventCategory::Authentication);
    assert_eq!(event_category(&None, "New CONNECTION"), EventCategory::Network);
    assert_eq!(event_category(&None, "disk full"), EventCategory::Host);
}

#[test]
fn outcomes_prefer_success() {
    assert_eq!(outcome(Some("denied"), Some("Success"), ""), EventOutcome::Success);
    assert_eq!(outcome(None, Some("Failure"), "x"), EventOutcome::Failure);
    assert_eq!(outcome(Some("BLOCK"), None, "x"), EventOutcome::Failure);
    assert_eq!(outcome(None, None, "it failed"), EventOutcome::Failure);
    assert_eq!(outcome(None, None, "nothing"), EventOutcome::Unknown);
}

#[test]
fn sentinels_are_not_applicable() {
    assert_eq!(clean_optional(" x "), Some("x".to_string()));
    assert_eq!(clean_optional(""), None);
    assert_eq!(clean_optional(" \t"), None);
    assert_eq!(clean_optional(" - "), None);
    assert_eq!(clean_optional("S-1-0-0"), None);
    assert_eq!(clean_optional(" S-1-0-0\n"), None);
    assert_eq!(clean_optional("S-1-0-0-1").as_deref(), Some("S-1-0-0-1"));
    assert_eq!(clean_optional("--").as_deref(), Some("--"));
}

#[test]
fn a_line_is_mapped_whole() {
    let event = parse_at(
        "<13>Dec 05 10:30:45 - CEF:0|v|p|1|7|  The Name  |5|src=- suser=S-1-0-0 msg=-",
        &noon(),
    )
    .unwrap();
    assert_eq!(
        event,
        NormalizedEvent {
            timestamp: "2024-12-05T10:30:45.000Z".to_string(),
            event_type: EventType::Info,
            event_category: EventCategory::Host,
            event_outcome: EventOutcome::Unknown,
            source_ip: None,
            user_name: None,
            host_name: None,
            log_level: Some("notice".to_string()),
            message: "The Name".to_string(),
        }
    );
}

#[test]
fn a_line_without_cef_is_its_own_message() {
    let event = parse_at("<13>Dec 05 10:30:45 host hello there \u{e9} ", &noon()).unwrap();
    assert_eq!(event.message, "Dec 05 10:30:45 host hello there \u{e9}");
    assert_eq!(event.host_name.as_deref(), Some("host"));
    let event = transform(Format::Syslog, "").unwrap();
    assert_eq!(event.message, "");
    assert_eq!(event.log_level.as_deref(), Some("notice"));
}

#[test]
fn the_null_sid_may_be_a_message() {
    assert_eq!(clean_message(" S-1-0-0 ").as_deref(), Some("S-1-0-0"));
    assert_eq!(clean_message(" - "), None);
    assert_eq!(clean_message("\t"), None);
    let event = parse_at("<13>CEF:0|v|p|1|7|n|5|msg=S-1-0-0 suser=S-1-0-0", &noon()).unwrap();
    assert_eq!(event.message, "S-1-0-0");
    assert_eq!(event.user_name, None);
    let event = parse_at("<13>CEF:0|v|p|1|7|S-1-0-0|5|msg=-", &noon()).unwrap();
    assert_eq!(event.message, "S-1-0-0");
}

#[test]
fn any_whitespace_parts_extensions() {
    let ext = parse_extensions("\t src=1.2.3.4\u{3000}\tmsg=a   b\nc  act=\r\n");
    assert_eq!(ext.len(), 3);
    assert_eq!(ext.get("src").map(String::as_str), Some("1.2.3.4"));
    assert_eq!(ext.get("msg").map(String::as_str), Some("a b c"));
    assert_eq!(ext.get("act").map(String::as_str), Some(""));
}

#[test]
fn timestamps_have_a_fixed_shape() {
    for line in ["", "<13>x", "<13>Dec 05 10:30:45 h x", "<13>Dec 99 10:30:45 h", "{}"] {
        let text = parse(line).unwrap().timestamp;
        assert_eq!(text.len(), 24);
        for (i, c) in text.chars().enumerate() {
            match i {
                4 | 7 => assert_eq!(c, '-'),
                10 => assert_eq!(c, 'T'),
                13 | 16 => assert_eq!(c, ':'),
                19 => assert_eq!(c, '.'),
                23 => assert_eq!(c, 'Z'),
                _ => assert!(c.is_ascii_digit()),
            }
        }
    }
}

#[test]
fn stamps_lead_with_their_year() {
    // A year of more than four digits cannot be read back: the clock decides.
    let far = UtcTime { year: 12345, ..noon() };
    let stamp = tokens(&["Dec", "05", "10:30:45"]);
    assert_eq!(parse_timestamp_at(&stamp, &far), "+12345-02-03T12:34:56.789Z");
    let early = UtcTime { year: -7, ..noon() };
    assert_eq!(parse_timestamp_at(&stamp, &early), "-0007-12-05T10:30:45.000Z");
    let short = UtcTime { year: 987, ..noon() };
    assert_eq!(parse_timestamp_at(&stamp, &short), "0987-12-05T10:30:45.000Z");
}
