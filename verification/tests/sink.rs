use log_normalizer::sink::{
    describe, is_stdout, queue_capacity, write_batch, Action, Consumer, Input,
};

fn batch(list: &[&str]) -> Vec<String> {
    list.iter().map(|s| s.to_string()).collect()
}

#[test]
fn destinations_are_described() {
    assert!(is_stdout("-"));
    assert!(!is_stdout("--"));
    assert_eq!(describe("-"), "stdout");
    assert_eq!(describe("/var/log/x"), "file /var/log/x");
    assert_eq!(describe(""), "file ");
}

#[test]
fn a_queue_holds_at_least_one_batch() {
    assert_eq!(queue_capacity(0), 1);
    assert_eq!(queue_capacity(1), 1);
    assert_eq!(queue_capacity(256), 256);
}

#[test]
fn batches_are_written_as_lines() {
    let mut written: usize = 3;
    let text = write_batch(&batch(&[r#"{"b":2}"#, r#"{"c":3}"#]), &mut written);
    assert_eq!(text, "{\"b\":2}\n{\"c\":3}\n");
    assert_eq!(written, 5);
    let lines: Vec<&str> = text.lines().collect();
    assert_eq!(lines, [r#"{"b":2}"#, r#"{"c":3}"#]);
    assert_eq!(write_batch(&Vec::new(), &mut written), "");
    assert_eq!(written, 5);
    let mut full: usize = usize::MAX;
    write_batch(&batch(&["{}"]), &mut full);
    assert_eq!(full, usize::MAX);
}

#[test]
fn queued_batches_share_a_flush() {
    let mut consumer = Consumer::new();
    assert_eq!(consumer.step(Input::Received(batch(&["a"]))), Action::Write("a\n".to_string()));
    assert_eq!(consumer.step(Input::Written), Action::Poll);
    assert_eq!(consumer.step(Input::Received(batch(&["b", "c"]))), Action::Write("b\nc\n".to_string()));
    assert_eq!(consumer.step(Input::Written), Action::Poll);
    assert_eq!(consumer.step(Input::QueueEmpty), Action::Flush);
    assert_eq!(consumer.step(Input::Flushed), Action::Receive);
    assert_eq!(consumer.step(Input::Disconnected), Action::Flush);
    assert_eq!(consumer.step(Input::Flushed), Action::Stop);
    assert_eq!(consumer.step(Input::Received(batch(&["d"]))), Action::Ignore);
}

#[test]
fn a_closed_queue_ends_a_burst() {
    let mut consumer = Consumer::new();
    consumer.step(Input::Received(batch(&["a"])));
    assert_eq!(consumer.step(Input::Written), Action::Poll);
    assert_eq!(consumer.step(Input::Disconnected), Action::Flush);
    assert_eq!(consumer.step(Input::Flushed), Action::Receive);
}

#[test]
fn bursts_are_cut_off() {
    let mut consumer = Consumer::new();
    let large: Vec<String> = vec!["x".to_string(); 4095];
    assert!(matches!(consumer.step(Input::Received(large)), Action::Write(_)));
    assert_eq!(consumer.step(Input::Written), Action::Poll);
    assert!(matches!(consumer.step(Input::Received(batch(&["y"]))), Action::Write(_)));
    assert_eq!(consumer.step(Input::Written), Action::Flush);
    assert_eq!(consumer.step(Input::Flushed), Action::Receive);
    // The next burst starts from nothing.
    assert!(matches!(consumer.step(Input::Received(batch(&["z"]))), Action::Write(_)));
    assert_eq!(consumer.step(Input::Written), Action::Poll);
}

/// Runs a consumer over batches that are all queued, appending what it writes to
/// `output`.
fn run_to_end(batches: Vec<Vec<String>>, output: &mut String) {
    let mut queue = batches.into_iter();
    let mut consumer = Consumer::new();
    let mut action = Action::Receive;
    loop {
        let input = match action {
            Action::Receive => match queue.next() {
                Some(records) => Input::Received(records),
                None => Input::Disconnected,
            },
            Action::Poll => match queue.next() {
                Some(records) => Input::Received(records),
                None => Input::QueueEmpty,
            },
            Action::Write(text) => {
                output.push_str(&text);
                Input::Written
            }
            Action::Flush => Input::Flushed,
            Action::Stop => return,
            Action::Ignore => panic!("unexpected action"),
        };
        action = consumer.step(input);
    }
}

#[test]
fn write_failure_stops_sink_and_rejects_further_records() {
    let mut consumer = Consumer::new();
    assert_eq!(consumer.step(Input::Received(batch(&["{}"]))), Action::Write("{}\n".to_string()));
    assert_eq!(consumer.step(Input::WriteFailed), Action::Flush);
    assert_eq!(consumer.step(Input::FlushFailed), Action::Stop);
    for _ in 0..100 {
        assert_eq!(consumer.step(Input::Received(batch(&["{}"]))), Action::Ignore);
    }
}

#[test]
fn file_sink_appends_all_records() {
    let mut contents = String::new();
    // First run writes one batch, then the queue closes and the consumer exits
    // after flushing.
    run_to_end(vec![vec![r#"{"a":1}"#.to_string()]], &mut contents);
    // A second run must append, not truncate.
    run_to_end(
        vec![vec![r#"{"b":2}"#.to_string(), r#"{"c":3}"#.to_string()]],
        &mut contents,
    );
    assert_eq!(contents, "{\"a\":1}\n{\"b\":2}\n{\"c\":3}\n");
}

#[test]
fn flush_failures_stop_the_consumer() {
    let mut consumer = Consumer::new();
    consumer.step(Input::Received(batch(&["{}"])));
    consumer.step(Input::Written);
    assert_eq!(consumer.step(Input::QueueEmpty), Action::Flush);
    assert_eq!(consumer.step(Input::FlushFailed), Action::Flush);
    assert_eq!(consumer.step(Input::Flushed), Action::Stop);
}
