use log_normalizer::format::Format;
use log_normalizer::pipeline::{
    classify, process_line, serialize_batch, settle, Action, Connection, DropReason, Frame, Input,
    LineFate, LineOutcome, ReadFailed,
};
use log_normalizer::transform::TransformError;

/// Drives a connection over the lines of `input`, all of them ready at once, and
/// returns the records it sends.
fn run_to_records(input: &str, max_line_bytes: usize) -> Vec<String> {
    let mut lines = input.lines();
    let mut connection = Connection::new();
    let mut sent: Vec<String> = Vec::new();
    let mut action = Action::AwaitFirst;
    loop {
        let input = match action {
            Action::AwaitFirst | Action::AwaitMore => match lines.next() {
                Some(line) if line.len() > max_line_bytes => Input::Frame(Frame::TooLong),
                Some(line) => Input::Frame(Frame::Line(line.to_string())),
                None => Input::EndOfInput,
            },
            Action::Send(records) => {
                sent.extend(records);
                Input::Sent
            }
            Action::Close => return sent,
            Action::Fail | Action::Ignore => panic!("unexpected action"),
        };
        action = connection.step(input).action;
    }
}

fn line(text: &str) -> Input {
    Input::Frame(Frame::Line(text.to_string()))
}

#[test]
fn normalizes_a_syslog_line() {
    let input = "<134>Dec 05 10:30:45 host CEF:0|v|p|1|4624|logon|6|src=1.2.3.4 act=allow\n";
    let records = run_to_records(input, 8192);
    assert_eq!(records.len(), 1);
    assert!(records[0].contains(r#""source.ip":"1.2.3.4""#));
    assert!(records[0].contains(r#""event.type":"allowed""#));
}

#[test]
fn format_is_locked_after_first_line() {
    // First line is syslog; a following JSON-looking line is routed through
    // the syslog parser (not re-detected), so it is not parsed as JSON.
    let input = "<13>Dec 05 10:30:45 host hello\n{\"EventID\":4624}\n";
    let records = run_to_records(input, 8192);
    assert_eq!(records.len(), 2);
    // The second record went through the syslog transform, so its message is
    // the raw JSON text rather than a parsed Windows event.
    assert!(records[1].contains(r#"{\"EventID\":4624}"#) || records[1].contains("EventID"));
}

#[test]
fn oversized_line_closes_but_keeps_prior_records() {
    let big = "A".repeat(300);
    let input = format!("<13>Dec 05 10:30:45 host before\n<13>{big}\n<13>Dec 05 10:30:45 host after\n");
    let records = run_to_records(&input, 100);
    // The record before the oversized line survives; nothing after it.
    assert_eq!(records.len(), 1);
    assert!(records[0].contains("before"));
}

#[test]
fn undetectable_lines_are_dropped() {
    let input = "not a known format\nstill not\n";
    let records = run_to_records(input, 8192);
    assert!(records.is_empty());
}

#[test]
fn frames_are_classified() {
    assert_eq!(classify(Frame::Line("x".to_string())), Ok(LineOutcome::Line("x".to_string())));
    assert_eq!(classify(Frame::TooLong), Ok(LineOutcome::Close));
    assert_eq!(classify(Frame::Failed), Err(ReadFailed));
}

#[test]
fn blank_lines_lock_nothing() {
    let mut format = None;
    assert_eq!(process_line(" \t", &mut format), LineFate::Blank);
    assert_eq!(format, None);
    assert_eq!(process_line("plain", &mut format), LineFate::Dropped(DropReason::Undetected));
    assert_eq!(format, None);
    assert_eq!(
        process_line("{oops", &mut format),
        LineFate::Dropped(DropReason::Malformed(TransformError::InvalidJson))
    );
    // The format is locked although the line could not be transformed.
    assert_eq!(format, Some(Format::Ndjson));
    assert_eq!(
        settle(Err(TransformError::MissingEventId)),
        LineFate::Dropped(DropReason::Malformed(TransformError::MissingEventId))
    );
}

#[test]
fn batches_report_what_they_drop() {
    let lines = |list: &[&str]| -> Vec<String> { list.iter().map(|s| s.to_string()).collect() };
    let event = r#"{"System":{"EventID":1,"TimeCreated":"2026-01-01T00:00:00Z"}}"#;
    let mut format = None;
    let batch = serialize_batch(lines(&["", "junk", event, "<13>x", "{}"]), &mut format);
    assert_eq!(format, Some(Format::Ndjson));
    assert_eq!(batch.records, [r#"{"@timestamp":"2026-01-01T00:00:00.000Z","event.type":"info","event.category":"host","event.outcome":"unknown","message":"Windows event"}"#]);
    let dropped: Vec<(&str, DropReason)> =
        batch.dropped.iter().map(|d| (d.line.as_str(), d.reason)).collect();
    assert_eq!(
        dropped,
        [
            ("junk", DropReason::Undetected),
            ("<13>x", DropReason::Malformed(TransformError::InvalidJson)),
            ("{}", DropReason::Malformed(TransformError::MissingEventId)),
        ]
    );

    // Cutting the lines into two batches makes no difference.
    let mut format = None;
    let first = serialize_batch(lines(&["", "junk", event]), &mut format);
    let second = serialize_batch(lines(&["<13>x", "{}"]), &mut format);
    let mut records = first.records;
    records.extend(second.records);
    assert_eq!(records, batch.records);
}

#[test]
fn full_batches_are_sent() {
    let mut connection = Connection::new();
    for _ in 0..255 {
        assert_eq!(connection.step(line("<13>x")).action, Action::AwaitMore);
    }
    match connection.step(line("<13>x")).action {
        Action::Send(records) => assert_eq!(records.len(), 256),
        other => panic!("{:?}", other),
    }
    assert_eq!(connection.step(Input::Sent).action, Action::AwaitFirst);
}

#[test]
fn large_lines_fill_a_batch() {
    let mut connection = Connection::new();
    let half = format!("<13>{}", "a".repeat(131_068));
    assert_eq!(connection.step(line(&half)).action, Action::AwaitMore);
    match connection.step(line(&half)).action {
        Action::Send(records) => assert_eq!(records.len(), 2),
        other => panic!("{:?}", other),
    }
}

#[test]
fn a_batch_is_sent_when_its_time_is_up() {
    let mut connection = Connection::new();
    assert_eq!(connection.step(line("<13>x")).action, Action::AwaitMore);
    // A shutdown does not cut a batch short.
    assert_eq!(connection.step(Input::Shutdown).action, Action::Ignore);
    assert!(matches!(connection.step(Input::Elapsed).action, Action::Send(_)));
    assert_eq!(connection.format(), Some(Format::Syslog));
    assert_eq!(connection.step(Input::Sent).action, Action::AwaitFirst);
    assert_eq!(connection.step(Input::Shutdown).action, Action::Close);
    assert_eq!(connection.step(line("<13>x")).action, Action::Ignore);
}

#[test]
fn a_batch_without_records_is_not_sent() {
    let mut connection = Connection::new();
    assert_eq!(connection.step(line("junk")).action, Action::AwaitMore);
    let reaction = connection.step(Input::Elapsed);
    assert_eq!(reaction.action, Action::AwaitFirst);
    assert_eq!(reaction.dropped.len(), 1);
    assert_eq!(connection.step(Input::EndOfInput).action, Action::Close);
}

#[test]
fn read_errors_end_a_connection() {
    let mut connection = Connection::new();
    assert_eq!(connection.step(line("<13>x")).action, Action::AwaitMore);
    assert_eq!(connection.step(Input::Frame(Frame::Failed)).action, Action::Fail);
    assert_eq!(connection.step(Input::Elapsed).action, Action::Ignore);
}

#[test]
fn a_closed_sink_ends_a_connection() {
    let mut connection = Connection::new();
    connection.step(line("<13>x"));
    assert!(matches!(connection.step(Input::Elapsed).action, Action::Send(_)));
    assert_eq!(connection.step(Input::SinkClosed).action, Action::Close);
}
