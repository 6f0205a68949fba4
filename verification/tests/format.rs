use log_normalizer::format::{detect, Format};

#[test]
fn detects_syslog_from_pri() {
    let line = "<134>Dec 05 10:30:45 192.168.1.1 CEF:0|Microsoft|Windows|10.0|4624";
    assert_eq!(detect(line), Some(Format::Syslog));
}

#[test]
fn detects_ndjson_object() {
    assert_eq!(detect(r#"{"EventID":4624}"#), Some(Format::Ndjson));
}

#[test]
fn ignores_leading_whitespace() {
    assert_eq!(detect("   \t{\"a\":1}"), Some(Format::Ndjson));
    assert_eq!(detect("  <13>msg"), Some(Format::Syslog));
}

#[test]
fn unknown_first_byte_is_none() {
    assert_eq!(detect("plain text line"), None);
    assert_eq!(detect("[133]not-syslog"), None);
}

#[test]
fn empty_or_whitespace_is_none() {
    assert_eq!(detect(""), None);
    assert_eq!(detect("   \t  "), None);
}

#[test]
fn unicode_whitespace_is_skipped() {
    assert_eq!(detect("\u{3000}\u{a0}<1>x"), Some(Format::Syslog));
    assert_eq!(detect("\u{200b}<1>x"), None);
}
