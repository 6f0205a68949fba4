//! Per-connection processing pipeline.
//!
//! Detects the wire format from the first usable line and **locks** it for the
//! connection, transforms each line, and hands over batches of serialized
//! records for the shared sink.
//!
//! Lines are gathered into batches bounded by count, total bytes, and a short
//! timeout. Undetectable or malformed lines are reported and dropped while the
//! connection keeps reading. An over-limit line desyncs framing, so it closes
//! the connection (after flushing already-gathered records); a well-behaved
//! client can reconnect.
//!
//! [`Connection`] decides; reading, waiting and sending are left to its driver,
//! which performs the [`Action`] it is given and reports back an [`Input`].

use vstd::prelude::*;
use vstd::utf8::encode_utf8;

use crate::clock::UtcTime;
use crate::format::{detect, detected, Format};
use crate::record::{
    holds_event, is_one_line, record_text, records_are_one_line, records_hold_their_event,
    to_json,
};
use crate::text::{blank, is_blank, views};
use crate::transform::{
    failure_of, result_view, timely, transform, transformed, EventModel, NormalizedEvent,
    TransformError,
};

verus! {

/// Max lines a connection batches before yielding to the sink.
pub const PRODUCER_BATCH_MAX: usize = 256;

/// Total bytes of raw lines at which a batch takes no further line, so
/// per-connection memory stays bounded even when individual lines are large.
pub const BATCH_BYTE_BUDGET: usize = 262_144;

/// Max time, in milliseconds, a partial batch waits before being flushed to the
/// sink.
pub const BATCH_TIMEOUT_MILLIS: u64 = 50;

// ---------------------------------------------------------------------------
// Lines
// ---------------------------------------------------------------------------

/// Why a line was dropped.
#[derive(Debug, Clone, Copy, PartialEq, Eq, Structural)]
pub enum DropReason {
    /// No format was locked yet and the line has none that is known.
    Undetected,
    /// The transform of the locked format failed.
    Malformed(TransformError),
}

/// What becomes of a line.
#[derive(Debug, PartialEq, Eq)]
pub enum LineFate {
    /// The line is blank and carries no event.
    Blank,
    /// The line is dropped.
    Dropped(DropReason),
    /// The line became a serialized record.
    Record(String),
}

/// The contents of a [`LineFate`].
pub enum FateModel {
    Blank,
    Dropped(DropReason),
    Record(Seq<char>),
}

impl View for LineFate {
    type V = FateModel;

    open spec fn view(&self) -> FateModel {
        match self {
            LineFate::Blank => FateModel::Blank,
            LineFate::Dropped(reason) => FateModel::Dropped(*reason),
            LineFate::Record(text) => FateModel::Record(text@),
        }
    }
}

/// The format that a line is read with: the locked one, else its own.
pub open spec fn format_for(format: Option<Format>, line: Seq<char>) -> Option<Format> {
    match format {
        Some(locked) => Some(locked),
        None => detected(line),
    }
}

/// The format that is locked behind a line: a blank line locks none.
pub open spec fn format_after(format: Option<Format>, line: Seq<char>) -> Option<Format> {
    if is_blank(line) {
        format
    } else {
        format_for(format, line)
    }
}

/// What becomes of a line that was mapped to an event, or was not.
pub open spec fn settled(result: Result<EventModel, TransformError>) -> FateModel {
    match result {
        Ok(event) => FateModel::Record(record_text(event)),
        Err(error) => FateModel::Dropped(DropReason::Malformed(error)),
    }
}

/// Why a line that is not blank is dropped, if it is.
pub open spec fn drop_reason(format: Option<Format>, line: Seq<char>) -> Option<DropReason> {
    match format_for(format, line) {
        Some(used) => match failure_of(used, line) {
            Some(error) => Some(DropReason::Malformed(error)),
            None => None,
        },
        None => Some(DropReason::Undetected),
    }
}

/// What becomes of a line when the clock shows `current`.
pub open spec fn fate_of(format: Option<Format>, line: Seq<char>, current: UtcTime) -> FateModel {
    if is_blank(line) {
        FateModel::Blank
    } else {
        match format_for(format, line) {
            Some(used) => settled(transformed(used, line, current)),
            None => FateModel::Dropped(DropReason::Undetected),
        }
    }
}

/// True when the timestamp of a line that gives a record is the one of an instant
/// and keeps what the line says of it, while the clock shows `current`.
pub open spec fn timely_line(format: Option<Format>, line: Seq<char>, current: UtcTime) -> bool {
    !is_blank(line) ==> (format_for(format, line) matches Some(used) ==> timely(
        used,
        line,
        current,
    ))
}

/// Turns the result of a transform into a record or a reason to drop the line.
pub fn settle(result: Result<NormalizedEvent, TransformError>) -> (r: LineFate)
    ensures
        r@ == settled(result_view(result)),
{
    match result {
        Ok(event) => LineFate::Record(to_json(&event)),
        Err(error) => LineFate::Dropped(DropReason::Malformed(error)),
    }
}

/// Detects/locks the format and transforms one line.
pub fn process_line(line: &str, format: &mut Option<Format>) -> (r: LineFate)
    ensures
        *final(format) == format_after(*old(format), line@),
        exists|current: UtcTime|
            #[trigger] current.shown() && r@ == fate_of(*old(format), line@, current)
                && timely_line(*old(format), line@, current),
        is_blank(line@) <==> r is Blank,
        r matches LineFate::Dropped(reason) ==> drop_reason(*old(format), line@) == Some(reason),
        r is Record ==> drop_reason(*old(format), line@) is None,
{
    proof {
        assert(crate::clock::epoch().shown());
    }
    if blank(line) {
        return LineFate::Blank;
    }
    let used = match *format {
        Some(locked) => Some(locked),
        None => detect(line),
    };
    match used {
        Some(used) => {
            *format = Some(used);
            settle(transform(used, line))
        },
        None => LineFate::Dropped(DropReason::Undetected),
    }
}

// ---------------------------------------------------------------------------
// Batches
// ---------------------------------------------------------------------------

/// A dropped line, for the log.
#[derive(Debug, PartialEq, Eq)]
pub struct Dropped {
    pub line: String,
    pub reason: DropReason,
}

/// The views of dropped lines, in order.
pub open spec fn dropped_views(list: Seq<Dropped>) -> Seq<(Seq<char>, DropReason)> {
    list.map_values(|d: Dropped| (d.line@, d.reason))
}

/// What became of a batch of lines: the records for the sink, and the lines that
/// were dropped.
#[derive(Debug, PartialEq, Eq)]
pub struct Batch {
    pub records: Vec<String>,
    pub dropped: Vec<Dropped>,
}

/// What became of lines so far, and the format that is locked behind them.
#[verifier::ext_equal]
pub struct BatchModel {
    pub format: Option<Format>,
    pub records: Seq<Seq<char>>,
    pub dropped: Seq<(Seq<char>, DropReason)>,
}

/// The contents of a [`Batch`], with the format locked behind it.
pub open spec fn batch_view(batch: Batch, format: Option<Format>) -> BatchModel {
    BatchModel {
        format,
        records: views(batch.records@),
        dropped: dropped_views(batch.dropped@),
    }
}

/// Processes one more line, when the clock shows `current`.
pub open spec fn line_added(batch: BatchModel, line: Seq<char>, current: UtcTime) -> BatchModel {
    let format = format_after(batch.format, line);
    match fate_of(batch.format, line, current) {
        FateModel::Blank => BatchModel { format, ..batch },
        FateModel::Dropped(reason) => BatchModel {
            format,
            dropped: batch.dropped.push((line, reason)),
            ..batch
        },
        FateModel::Record(text) => BatchModel {
            format,
            records: batch.records.push(text),
            ..batch
        },
    }
}

/// Processes lines from the first to the last; `clock` holds what the clock
/// shows at each.
pub open spec fn serialized(
    format: Option<Format>,
    lines: Seq<Seq<char>>,
    clock: Seq<UtcTime>,
) -> BatchModel
    decreases lines.len(),
{
    if lines.len() == 0 {
        BatchModel { format, records: Seq::empty(), dropped: Seq::empty() }
    } else {
        line_added(
            serialized(format, lines.drop_last(), clock),
            lines.last(),
            clock[lines.len() - 1],
        )
    }
}

/// Readings of the clock for a number of lines.
pub open spec fn is_clock(clock: Seq<UtcTime>, lines: nat) -> bool {
    clock.len() == lines && forall|i: int| 0 <= i < clock.len() ==> (#[trigger] clock[i]).shown()
}

/// [`timely_line`] of each line in turn, with the format that is locked before
/// it.
pub open spec fn timely_lines(
    format: Option<Format>,
    lines: Seq<Seq<char>>,
    clock: Seq<UtcTime>,
) -> bool
    decreases lines.len(),
{
    lines.len() > 0 ==> timely_lines(format, lines.drop_last(), clock) && timely_line(
        serialized(format, lines.drop_last(), clock).format,
        lines.last(),
        clock[lines.len() - 1],
    )
}

proof fn lemma_serialized_clock(
    format: Option<Format>,
    lines: Seq<Seq<char>>,
    clock: Seq<UtcTime>,
    other: Seq<UtcTime>,
)
    requires
        forall|i: int| 0 <= i < lines.len() ==> clock[i] == other[i],
    ensures
        serialized(format, lines, clock) == serialized(format, lines, other),
        timely_lines(format, lines, clock) == timely_lines(format, lines, other),
    decreases lines.len(),
{
    if lines.len() > 0 {
        lemma_serialized_clock(format, lines.drop_last(), clock, other);
    }
}

/// Detects/locks the format and transforms each raw line into a serialized
/// record, dropping lines that can't be detected or transformed. Blank lines
/// carry no event and are passed over.
pub fn serialize_batch(raw: Vec<String>, format: &mut Option<Format>) -> (r: Batch)
    ensures
        exists|clock: Seq<UtcTime>|
            is_clock(clock, raw@.len()) && batch_view(r, *final(format)) == #[trigger] serialized(
                *old(format),
                views(raw@),
                clock,
            ) && timely_lines(*old(format), views(raw@), clock),
{
    let ghost start = *format;
    let ghost lines = views(raw@);
    let mut records: Vec<String> = Vec::new();
    let mut dropped: Vec<Dropped> = Vec::new();
    let ghost mut clock: Seq<UtcTime> = Seq::empty();
    let mut i: usize = 0;
    assert(views(records@) =~= Seq::empty());
    assert(dropped_views(dropped@) =~= Seq::empty());
    while i < raw.len()
        invariant
            i <= raw@.len(),
            lines == views(raw@),
            is_clock(clock, i as nat),
            timely_lines(start, lines.take(i as int), clock),
            views(records@) == serialized(start, lines.take(i as int), clock).records,
            dropped_views(dropped@) == serialized(start, lines.take(i as int), clock).dropped,
            *format == serialized(start, lines.take(i as int), clock).format,
        decreases raw@.len() - i,
    {
        let ghost held = *format;
        let ghost before_records = records@;
        let ghost before_dropped = dropped@;
        let ghost line = raw@[i as int]@;
        let fate = process_line(raw[i].as_str(), format);
        proof {
            let current = choose|current: UtcTime|
                #[trigger] current.shown() && fate@ == fate_of(held, line, current) && timely_line(
                    held,
                    line,
                    current,
                );
            let longer = clock.push(current);
            let here = lines.take(i + 1);
            assert(here.drop_last() =~= lines.take(i as int));
            assert(here.last() == line);
            lemma_serialized_clock(start, lines.take(i as int), clock, longer);
            clock = longer;
        }
        match fate {
            LineFate::Blank => {},
            LineFate::Dropped(reason) => {
                dropped.push(Dropped { line: raw[i].clone(), reason });
                assert(dropped_views(dropped@) =~= dropped_views(before_dropped).push(
                    (line, reason),
                ));
            },
            LineFate::Record(text) => {
                records.push(text);
                assert(views(records@) =~= views(before_records).push(text@));
            },
        }
        i += 1;
    }
    assert(lines.take(i as int) =~= lines);
    let batch = Batch { records, dropped };
    assert(batch_view(batch, *format) == serialized(start, lines, clock));
    batch
}

// ---------------------------------------------------------------------------
// The connection
// ---------------------------------------------------------------------------

/// What the framing of the input came up with.
#[derive(Debug, PartialEq, Eq)]
pub enum Frame {
    /// A decoded line.
    Line(String),
    /// A line over the length limit.
    TooLong,
    /// The input could not be read.
    Failed,
}

/// One framed line, already classified.
#[derive(Debug, PartialEq, Eq)]
pub enum LineOutcome {
    /// A decoded line to process.
    Line(String),
    /// An over-limit line desynced framing; the connection should close.
    Close,
}

/// The input of a connection could not be read.
#[derive(Debug, Clone, Copy, PartialEq, Eq, Structural)]
pub struct ReadFailed;

/// Classifies a framing result. A read failure ends the connection with an
/// error; an over-limit line signals a close.
pub fn classify(frame: Frame) -> (r: Result<LineOutcome, ReadFailed>)
    ensures
        match frame {
            Frame::Line(line) => r == Ok::<_, ReadFailed>(LineOutcome::Line(line)),
            Frame::TooLong => r == Ok::<_, ReadFailed>(LineOutcome::Close),
            Frame::Failed => r == Err::<LineOutcome, _>(ReadFailed),
        },
{
    match frame {
        Frame::Line(line) => Ok(LineOutcome::Line(line)),
        Frame::TooLong => Ok(LineOutcome::Close),
        Frame::Failed => Err(ReadFailed),
    }
}

/// What a connection is told by its driver.
#[derive(Debug, PartialEq, Eq)]
pub enum Input {
    /// The service shuts down.
    Shutdown,
    /// A frame arrived.
    Frame(Frame),
    /// The input has ended.
    EndOfInput,
    /// The time of the batch is up.
    Elapsed,
    /// The sink took the batch.
    Sent,
    /// The sink takes no more batches.
    SinkClosed,
}

/// The contents of an [`Input`].
pub enum InputModel {
    Shutdown,
    Line(Seq<char>),
    TooLong,
    ReadFailed,
    EndOfInput,
    Elapsed,
    Sent,
    SinkClosed,
}

impl View for Input {
    type V = InputModel;

    open spec fn view(&self) -> InputModel {
        match self {
            Input::Shutdown => InputModel::Shutdown,
            Input::Frame(Frame::Line(line)) => InputModel::Line(line@),
            Input::Frame(Frame::TooLong) => InputModel::TooLong,
            Input::Frame(Frame::Failed) => InputModel::ReadFailed,
            Input::EndOfInput => InputModel::EndOfInput,
            Input::Elapsed => InputModel::Elapsed,
            Input::Sent => InputModel::Sent,
            Input::SinkClosed => InputModel::SinkClosed,
        }
    }
}

/// What a connection tells its driver to do.
#[derive(Debug, PartialEq, Eq)]
pub enum Action {
    /// Wait for the first frame of a batch, the end of the input or a shutdown.
    /// The time of the batch starts when the frame arrives.
    AwaitFirst,
    /// Wait for a further frame, the end of the input or the end of the time.
    AwaitMore,
    /// Send records to the sink, waiting where its queue is full.
    Send(Vec<String>),
    /// End the connection.
    Close,
    /// End the connection with the error of its input.
    Fail,
    /// Do nothing: the connection was not waiting for this input.
    Ignore,
}

/// The contents of an [`Action`].
pub enum ActionModel {
    AwaitFirst,
    AwaitMore,
    Send(Seq<Seq<char>>),
    Close,
    Fail,
    Ignore,
}

impl View for Action {
    type V = ActionModel;

    open spec fn view(&self) -> ActionModel {
        match self {
            Action::AwaitFirst => ActionModel::AwaitFirst,
            Action::AwaitMore => ActionModel::AwaitMore,
            Action::Send(records) => ActionModel::Send(views(records@)),
            Action::Close => ActionModel::Close,
            Action::Fail => ActionModel::Fail,
            Action::Ignore => ActionModel::Ignore,
        }
    }
}

/// An action, with the lines that were dropped on the way to it.
#[derive(Debug, PartialEq, Eq)]
pub struct Reaction {
    pub action: Action,
    pub dropped: Vec<Dropped>,
}

/// The contents of a [`Reaction`].
#[verifier::ext_equal]
pub struct ReactionModel {
    pub action: ActionModel,
    pub dropped: Seq<(Seq<char>, DropReason)>,
}

impl View for Reaction {
    type V = ReactionModel;

    open spec fn view(&self) -> ReactionModel {
        ReactionModel { action: self.action@, dropped: dropped_views(self.dropped@) }
    }
}

/// Where a connection stands.
#[derive(Debug, Clone, Copy, PartialEq, Eq, Structural)]
pub enum Stage {
    /// Between batches.
    Waiting,
    /// Gathering a batch that has room.
    Filling,
    /// The sink is taking a batch, the last one or not.
    Sending { last: bool },
    /// Ended.
    Closed,
    /// Ended by an error of its input.
    Failed,
}

/// A single connection, from its first line to its end: the end of the input, a
/// read error, an over-limit line, a closed sink or a shutdown.
#[derive(Debug)]
pub struct Connection {
    stage: Stage,
    format: Option<Format>,
    raw: Vec<String>,
    bytes: usize,
}

/// The contents of a [`Connection`].
#[verifier::ext_equal]
pub struct ConnectionModel {
    pub stage: Stage,
    /// The format that the connection locked.
    pub format: Option<Format>,
    /// The lines gathered for the next batch.
    pub raw: Seq<Seq<char>>,
}

/// The number of bytes of lines, in UTF-8.
pub open spec fn total_bytes(lines: Seq<Seq<char>>) -> nat
    decreases lines.len(),
{
    if lines.len() == 0 {
        0
    } else {
        total_bytes(lines.drop_last()) + encode_utf8(lines.last()).len()
    }
}

/// True when a batch of lines has room for a further line.
pub open spec fn has_room(lines: Seq<Seq<char>>) -> bool {
    lines.len() < PRODUCER_BATCH_MAX && total_bytes(lines) < BATCH_BYTE_BUDGET
}

impl ConnectionModel {
    /// A new connection.
    pub open spec fn start() -> Self {
        ConnectionModel { stage: Stage::Waiting, format: None, raw: Seq::empty() }
    }

    /// Lines are held back only while a batch fills, and then there is room for
    /// a further line; an input error leaves them behind.
    pub open spec fn wf(self) -> bool {
        match self.stage {
            Stage::Filling => self.raw.len() > 0 && has_room(self.raw),
            Stage::Failed => has_room(self.raw),
            _ => self.raw.len() == 0,
        }
    }

    /// The batch that an input completes: its lines, and whether it is the last
    /// of the connection.
    pub open spec fn completed(self, input: InputModel) -> Option<(Seq<Seq<char>>, bool)> {
        match (self.stage, input) {
            (Stage::Waiting, InputModel::Line(line)) | (Stage::Filling, InputModel::Line(line)) => {
                if has_room(self.raw.push(line)) {
                    None
                } else {
                    Some((self.raw.push(line), false))
                }
            },
            (Stage::Waiting, InputModel::TooLong) => Some((self.raw, true)),
            (Stage::Filling, InputModel::TooLong) => Some((self.raw, true)),
            (Stage::Filling, InputModel::EndOfInput) => Some((self.raw, true)),
            (Stage::Filling, InputModel::Elapsed) => Some((self.raw, false)),
            _ => None,
        }
    }

    /// The number of lines that an input completes.
    pub open spec fn completed_lines(self, input: InputModel) -> nat {
        match self.completed(input) {
            Some((lines, _)) => lines.len(),
            None => 0,
        }
    }

    /// True for what the clock may show at each line of the batch that an input
    /// completes.
    pub open spec fn is_reading(self, input: InputModel, clock: Seq<UtcTime>) -> bool {
        match self.completed(input) {
            Some((lines, _)) => is_clock(clock, lines.len()) && timely_lines(
                self.format,
                lines,
                clock,
            ),
            None => clock.len() == 0,
        }
    }

    /// The state and action behind a completed batch: records go to the sink, and
    /// without records the connection ends or waits for the next batch.
    pub open spec fn flushed(
        format: Option<Format>,
        lines: Seq<Seq<char>>,
        last: bool,
        clock: Seq<UtcTime>,
    ) -> (ConnectionModel, ReactionModel) {
        let batch = serialized(format, lines, clock);
        let (stage, action) = if batch.records.len() > 0 {
            (Stage::Sending { last }, ActionModel::Send(batch.records))
        } else if last {
            (Stage::Closed, ActionModel::Close)
        } else {
            (Stage::Waiting, ActionModel::AwaitFirst)
        };
        (
            ConnectionModel { stage, format: batch.format, raw: Seq::empty() },
            ReactionModel { action, dropped: batch.dropped },
        )
    }

    /// The next state and action; `clock` holds what the clock shows at each line
    /// of a completed batch.
    pub open spec fn advance(self, input: InputModel, clock: Seq<UtcTime>) -> (
        ConnectionModel,
        ReactionModel,
    ) {
        match self.completed(input) {
            Some((lines, last)) => Self::flushed(self.format, lines, last, clock),
            None => {
                let (stage, raw, action) = match (self.stage, input) {
                    (Stage::Waiting, InputModel::Line(line)) | (
                        Stage::Filling,
                        InputModel::Line(line),
                    ) => (Stage::Filling, self.raw.push(line), ActionModel::AwaitMore),
                    (Stage::Waiting, InputModel::ReadFailed) | (
                        Stage::Filling,
                        InputModel::ReadFailed,
                    ) => (Stage::Failed, self.raw, ActionModel::Fail),
                    (Stage::Waiting, InputModel::EndOfInput) => (
                        Stage::Closed,
                        self.raw,
                        ActionModel::Close,
                    ),
                    (Stage::Waiting, InputModel::Shutdown) => (
                        Stage::Closed,
                        self.raw,
                        ActionModel::Close,
                    ),
                    (Stage::Sending { last }, InputModel::Sent) => if last {
                        (Stage::Closed, self.raw, ActionModel::Close)
                    } else {
                        (Stage::Waiting, self.raw, ActionModel::AwaitFirst)
                    },
                    (Stage::Sending { .. }, InputModel::SinkClosed) => (
                        Stage::Closed,
                        self.raw,
                        ActionModel::Close,
                    ),
                    _ => (self.stage, self.raw, ActionModel::Ignore),
                };
                (
                    ConnectionModel { stage, format: self.format, raw },
                    ReactionModel { action, dropped: Seq::empty() },
                )
            },
        }
    }
}

impl View for Connection {
    type V = ConnectionModel;

    closed spec fn view(&self) -> ConnectionModel {
        ConnectionModel { stage: self.stage, format: self.format, raw: views(self.raw@) }
    }
}

impl Connection {
    /// The invariant of a connection.
    pub closed spec fn wf(self) -> bool {
        self@.wf() && (self@.stage is Waiting || self@.stage is Filling ==> self.bytes
            == total_bytes(self@.raw))
    }

    /// A new connection, which waits for its first line.
    pub fn new() -> (r: Self)
        ensures
            r.wf(),
            r@ == ConnectionModel::start(),
    {
        let r = Connection {
            stage: Stage::Waiting,
            format: None,
            raw: Vec::new(),
            bytes: 0,
        };
        assert(views(r.raw@) =~= Seq::empty());
        r
    }

    /// The format that the connection locked.
    pub fn format(&self) -> (r: Option<Format>)
        ensures
            r == self@.format,
    {
        self.format
    }

    /// Goes to a stage that needs no batch.
    fn end(&mut self, stage: Stage, action: Action) -> (r: Reaction)
        ensures
            final(self)@ == (ConnectionModel { stage, ..old(self)@ }),
            final(self).bytes == old(self).bytes,
            r@ == (ReactionModel { action: action@, dropped: Seq::empty() }),
    {
        self.stage = stage;
        let r = Reaction { action, dropped: Vec::new() };
        assert(dropped_views(r.dropped@) =~= Seq::empty());
        r
    }

    /// Completes the batch.
    fn flush(&mut self, last: bool) -> (r: Reaction)
        ensures
            final(self).wf(),
            exists|clock: Seq<UtcTime>|
                is_clock(clock, old(self)@.raw.len()) && timely_lines(
                    old(self)@.format,
                    old(self)@.raw,
                    clock,
                ) && (final(self)@, r@) == #[trigger] ConnectionModel::flushed(
                    old(self)@.format,
                    old(self)@.raw,
                    last,
                    clock,
                ),
    {
        let ghost lines = self@.raw;
        let ghost format = self.format;
        let mut raw: Vec<String> = Vec::new();
        std::mem::swap(&mut self.raw, &mut raw);
        self.bytes = 0;
        assert(views(self.raw@) =~= Seq::empty());
        let batch = serialize_batch(raw, &mut self.format);
        let ghost clock = choose|clock: Seq<UtcTime>|
            is_clock(clock, lines.len()) && batch_view(batch, self.format)
                == #[trigger] serialized(format, lines, clock) && timely_lines(
                format,
                lines,
                clock,
            );
        let action = if batch.records.len() > 0 {
            self.stage = Stage::Sending { last };
            Action::Send(batch.records)
        } else if last {
            self.stage = Stage::Closed;
            Action::Close
        } else {
            self.stage = Stage::Waiting;
            Action::AwaitFirst
        };
        let r = Reaction { action, dropped: batch.dropped };
        assert((self@, r@) == ConnectionModel::flushed(format, lines, last, clock));
        r
    }

    /// Adds a line to the batch, and completes it where it has no room left.
    fn gather(&mut self, line: String) -> (r: Reaction)
        requires
            old(self).wf(),
            old(self)@.stage is Waiting || old(self)@.stage is Filling,
        ensures
            final(self).wf(),
            exists|clock: Seq<UtcTime>|
                old(self)@.is_reading(InputModel::Line(line@), clock) && (final(self)@, r@)
                    == #[trigger] old(self)@.advance(InputModel::Line(line@), clock),
    {
        let ghost lines = self@.raw.push(line@);
        let size: usize = line.as_str().as_bytes().len();
        self.bytes = self.bytes.saturating_add(size);
        self.raw.push(line);
        assert(self@.raw =~= lines);
        assert(lines.drop_last() =~= old(self)@.raw);
        assert(self.bytes < BATCH_BYTE_BUDGET <==> total_bytes(lines) < BATCH_BYTE_BUDGET);
        if self.raw.len() < PRODUCER_BATCH_MAX && self.bytes < BATCH_BYTE_BUDGET {
            self.stage = Stage::Filling;
            let r = Reaction { action: Action::AwaitMore, dropped: Vec::new() };
            assert(dropped_views(r.dropped@) =~= Seq::empty());
            let ghost none: Seq<UtcTime> = Seq::empty();
            assert((self@, r@) == old(self)@.advance(InputModel::Line(line@), none));
            r
        } else {
            let r = self.flush(false);
            let ghost clock = choose|clock: Seq<UtcTime>|
                is_clock(clock, lines.len()) && timely_lines(old(self)@.format, lines, clock) && (
                self@,
                r@,
                ) == #[trigger] ConnectionModel::flushed(
                    old(self)@.format,
                    lines,
                    false,
                    clock,
                );
            assert((self@, r@) == old(self)@.advance(InputModel::Line(line@), clock));
            r
        }
    }

    /// Takes an input and decides what to do next.
    pub fn step(&mut self, input: Input) -> (r: Reaction)
        requires
            old(self).wf(),
        ensures
            final(self).wf(),
            exists|clock: Seq<UtcTime>|
                old(self)@.is_reading(input@, clock) && (final(self)@, r@)
                    == #[trigger] old(self)@.advance(input@, clock),
    {
        let ghost none: Seq<UtcTime> = Seq::empty();
        let r = match (self.stage, input) {
            (Stage::Waiting, Input::Frame(frame)) | (Stage::Filling, Input::Frame(frame)) => {
                match classify(frame) {
                    Ok(LineOutcome::Line(line)) => self.gather(line),
                    Ok(LineOutcome::Close) => self.flush(true),
                    Err(_) => self.end(Stage::Failed, Action::Fail),
                }
            },
            (Stage::Waiting, Input::Shutdown) => self.end(Stage::Closed, Action::Close),
            (Stage::Waiting, Input::EndOfInput) => self.end(Stage::Closed, Action::Close),
            (Stage::Filling, Input::EndOfInput) => self.flush(true),
            (Stage::Filling, Input::Elapsed) => self.flush(false),
            (Stage::Sending { last }, Input::Sent) => if last {
                self.end(Stage::Closed, Action::Close)
            } else {
                self.bytes = 0;
                self.end(Stage::Waiting, Action::AwaitFirst)
            },
            (Stage::Sending { .. }, Input::SinkClosed) => self.end(Stage::Closed, Action::Close),
            (stage, _) => self.end(stage, Action::Ignore),
        };
        proof {
            match old(self)@.completed(input@) {
                Some((lines, last)) => if !(input@ is Line) {
                    let clock = choose|clock: Seq<UtcTime>|
                        is_clock(clock, lines.len()) && timely_lines(
                            old(self)@.format,
                            lines,
                            clock,
                        ) && (self@, r@) == #[trigger] ConnectionModel::flushed(
                            old(self)@.format,
                            lines,
                            last,
                            clock,
                        );
                    assert((self@, r@) == old(self)@.advance(input@, clock));
                },
                None => if !(input@ is Line) {
                    assert((self@, r@) == old(self)@.advance(input@, none));
                },
            }
        }
        r
    }
}

// ---------------------------------------------------------------------------
// Laws of batches
// ---------------------------------------------------------------------------

/// Where lines are cut into batches makes no difference: two batches in turn
/// give the records and dropped lines of the one batch of all lines.
pub proof fn batching_is_transparent(
    format: Option<Format>,
    first: Seq<Seq<char>>,
    second: Seq<Seq<char>>,
    first_clock: Seq<UtcTime>,
    second_clock: Seq<UtcTime>,
)
    requires
        first_clock.len() == first.len(),
        second_clock.len() == second.len(),
    ensures
        ({
            let a = serialized(format, first, first_clock);
            let b = serialized(a.format, second, second_clock);
            serialized(format, first + second, first_clock + second_clock) == BatchModel {
                format: b.format,
                records: a.records + b.records,
                dropped: a.dropped + b.dropped,
            }
        }),
    decreases second.len(),
{
    let clock = first_clock + second_clock;
    let a = serialized(format, first, first_clock);
    let b = serialized(a.format, second, second_clock);
    let whole = serialized(format, first + second, clock);
    if second.len() == 0 {
        assert(first + second =~= first);
        assert(clock =~= first_clock);
        assert(a.records + b.records =~= a.records);
        assert(a.dropped + b.dropped =~= a.dropped);
    } else {
        let shorter = second.drop_last();
        let shorter_clock = second_clock.drop_last();
        batching_is_transparent(format, first, shorter, first_clock, shorter_clock);
        assert((first + second).drop_last() =~= first + shorter);
        lemma_serialized_clock(format, first + shorter, first_clock + shorter_clock, clock);
        lemma_serialized_clock(a.format, shorter, shorter_clock, second_clock);
        assert(whole.records =~= a.records + b.records);
        assert(whole.dropped =~= a.dropped + b.dropped);
    }
}

/// A locked format stays locked.
pub proof fn locked_format_stays(format: Format, lines: Seq<Seq<char>>, clock: Seq<UtcTime>)
    ensures
        serialized(Some(format), lines, clock).format == Some(format),
    decreases lines.len(),
{
    if lines.len() > 0 {
        locked_format_stays(format, lines.drop_last(), clock);
    }
}

/// The first line with a known format locks it, whatever stands before and
/// behind.
pub proof fn first_detectable_line_locks(
    before: Seq<Seq<char>>,
    line: Seq<char>,
    behind: Seq<Seq<char>>,
    clock: Seq<UtcTime>,
)
    requires
        clock.len() == before.len() + 1 + behind.len(),
        forall|i: int| 0 <= i < before.len() ==> detected(#[trigger] before[i]) is None,
        detected(line) is Some,
    ensures
        serialized(None, before.push(line) + behind, clock).format == detected(line),
{
    let n = before.len() as int;
    let left = clock.take(n + 1);
    let right = clock.skip(n + 1);
    assert(left + right =~= clock);
    batching_is_transparent(None, before.push(line), behind, left, right);
    undetectable_lines_give_nothing(before, left);
    assert(before.push(line).drop_last() =~= before);
    if is_blank(line) {
        crate::format::blank_lines_have_no_format(line);
    }
    locked_format_stays(detected(line)->Some_0, behind, right);
}

/// Lines without a known format give no records and lock nothing.
pub proof fn undetectable_lines_give_nothing(lines: Seq<Seq<char>>, clock: Seq<UtcTime>)
    requires
        forall|i: int| 0 <= i < lines.len() ==> detected(#[trigger] lines[i]) is None,
    ensures
        serialized(None, lines, clock).format is None,
        serialized(None, lines, clock).records.len() == 0,
    decreases lines.len(),
{
    if lines.len() > 0 {
        assert(detected(lines.last()) is None);
        assert forall|i: int| 0 <= i < lines.drop_last().len() implies detected(
            #[trigger] lines.drop_last()[i],
        ) is None by {
            assert(detected(lines[i]) is None);
        }
        undetectable_lines_give_nothing(lines.drop_last(), clock);
    }
}

/// The number of lines that are not blank.
pub open spec fn event_lines(lines: Seq<Seq<char>>) -> nat
    decreases lines.len(),
{
    if lines.len() == 0 {
        0
    } else if is_blank(lines.last()) {
        event_lines(lines.drop_last())
    } else {
        event_lines(lines.drop_last()) + 1
    }
}

/// Every line that is not blank becomes one record or is reported as dropped:
/// none is lost in silence.
pub proof fn no_line_is_lost_in_silence(
    format: Option<Format>,
    lines: Seq<Seq<char>>,
    clock: Seq<UtcTime>,
)
    ensures
        serialized(format, lines, clock).records.len() + serialized(
            format,
            lines,
            clock,
        ).dropped.len() == event_lines(lines),
    decreases lines.len(),
{
    if lines.len() > 0 {
        no_line_is_lost_in_silence(format, lines.drop_last(), clock);
    }
}

/// The clock decides neither which format is locked nor which lines are dropped
/// nor how many records there are.
pub proof fn fates_do_not_depend_on_the_clock(
    format: Option<Format>,
    lines: Seq<Seq<char>>,
    clock: Seq<UtcTime>,
    other: Seq<UtcTime>,
)
    ensures
        serialized(format, lines, clock).format == serialized(format, lines, other).format,
        serialized(format, lines, clock).dropped == serialized(format, lines, other).dropped,
        serialized(format, lines, clock).records.len() == serialized(
            format,
            lines,
            other,
        ).records.len(),
    decreases lines.len(),
{
    if lines.len() > 0 {
        fates_do_not_depend_on_the_clock(format, lines.drop_last(), clock, other);
        let held = serialized(format, lines.drop_last(), clock).format;
        match format_for(held, lines.last()) {
            Some(used) => {
                crate::transform::failure_does_not_depend_on_the_clock(
                    used,
                    lines.last(),
                    clock[lines.len() - 1],
                    other[lines.len() - 1],
                );
            },
            None => {},
        }
    }
}

/// Every record of a batch is on one line.
pub proof fn batched_records_are_one_line(
    format: Option<Format>,
    lines: Seq<Seq<char>>,
    clock: Seq<UtcTime>,
)
    ensures
        forall|i: int|
            0 <= i < serialized(format, lines, clock).records.len() ==> is_one_line(
                #[trigger] serialized(format, lines, clock).records[i],
            ),
    decreases lines.len(),
{
    if lines.len() > 0 {
        let before = serialized(format, lines.drop_last(), clock);
        let current = clock[lines.len() - 1];
        batched_records_are_one_line(format, lines.drop_last(), clock);
        match format_for(before.format, lines.last()) {
            Some(used) => {
                if let Ok(event) = transformed(used, lines.last(), current) {
                    records_are_one_line(event);
                }
            },
            None => {},
        }
        let after = serialized(format, lines, clock).records;
        assert forall|i: int| 0 <= i < after.len() implies is_one_line(#[trigger] after[i]) by {
            if i < before.records.len() {
                assert(after[i] == before.records[i]);
            }
        }
    }
}

// ---------------------------------------------------------------------------
// Laws of connections
// ---------------------------------------------------------------------------

/// What holds of a connection holds of its contents.
pub proof fn the_invariant_holds_of_the_contents(connection: Connection)
    requires
        connection.wf(),
    ensures
        connection@.wf(),
{
}

/// Every step keeps the invariant and a locked format.
pub proof fn steps_keep_the_invariant(
    state: ConnectionModel,
    input: InputModel,
    clock: Seq<UtcTime>,
)
    requires
        state.wf(),
    ensures
        state.advance(input, clock).0.wf(),
        state.format is Some ==> state.advance(input, clock).0.format == state.format,
{
    if let (Some((lines, _)), Some(format)) = (state.completed(input), state.format) {
        locked_format_stays(format, lines, clock);
    }
}

/// A batch is bounded: it has at most [`PRODUCER_BATCH_MAX`] lines, and its lines
/// but the last stay below [`BATCH_BYTE_BUDGET`].
pub proof fn batches_are_bounded(state: ConnectionModel, input: InputModel)
    requires
        state.wf(),
    ensures
        state.completed(input) matches Some((lines, _)) ==> {
            &&& lines.len() <= PRODUCER_BATCH_MAX
            &&& lines.len() > 0 ==> total_bytes(lines.drop_last()) < BATCH_BYTE_BUDGET
        },
{
    if let Some((lines, _)) = state.completed(input) {
        if let InputModel::Line(line) = input {
            assert(lines.drop_last() =~= state.raw);
        } else if lines.len() > 0 {
            assert(total_bytes(lines.drop_last()) <= total_bytes(lines));
        }
    }
}

/// A line never ends a connection, whether or not it can be detected and
/// transformed.
pub proof fn lines_do_not_end_a_connection(
    state: ConnectionModel,
    line: Seq<char>,
    clock: Seq<UtcTime>,
)
    requires
        state.wf(),
        state.stage is Waiting || state.stage is Filling,
    ensures
        ({
            let (next, reaction) = state.advance(InputModel::Line(line), clock);
            &&& next.stage is Waiting || next.stage is Filling || next.stage
                == (Stage::Sending { last: false })
            &&& !(reaction.action is Close) && !(reaction.action is Fail)
        }),
{
}

/// An over-limit line sends what was gathered before it and then ends the
/// connection.
pub proof fn over_limit_lines_end_a_connection(state: ConnectionModel, clock: Seq<UtcTime>)
    requires
        state.wf(),
        state.stage is Waiting || state.stage is Filling,
    ensures
        ({
            let records = serialized(state.format, state.raw, clock).records;
            let (next, reaction) = state.advance(InputModel::TooLong, clock);
            if records.len() > 0 {
                next.stage == (Stage::Sending { last: true }) && reaction.action
                    == ActionModel::Send(records)
            } else {
                next.stage is Closed && reaction.action is Close
            }
        }),
{
}

/// Behind the last batch, and behind its end, a connection sends nothing more.
pub proof fn nothing_is_sent_behind_the_last_batch(
    state: ConnectionModel,
    input: InputModel,
    clock: Seq<UtcTime>,
)
    requires
        state.stage == (Stage::Sending { last: true }) || state.stage is Closed
            || state.stage is Failed,
    ensures
        ({
            let (next, reaction) = state.advance(input, clock);
            &&& next.stage == state.stage || next.stage is Closed
            &&& reaction.action is Close || reaction.action is Ignore
        }),
{
}

/// A shutdown ends a connection between batches only, when nothing is gathered:
/// a batch that is filling or being sent is completed first.
pub proof fn shutdown_loses_nothing(state: ConnectionModel, clock: Seq<UtcTime>)
    requires
        state.wf(),
    ensures
        ({
            let (next, reaction) = state.advance(InputModel::Shutdown, clock);
            if state.stage is Waiting {
                next.stage is Closed && reaction.action is Close && state.raw.len() == 0
            } else {
                next == state && reaction.action is Ignore
            }
        }),
{
}

/// What happened on a connection: the lines it took, what it handed to the sink
/// and dropped, and what the clock showed at the lines it processed.
#[verifier::ext_equal]
pub struct History {
    pub lines: Seq<Seq<char>>,
    pub sent: Seq<Seq<char>>,
    pub dropped: Seq<(Seq<char>, DropReason)>,
    pub clock: Seq<UtcTime>,
}

/// An input, with what the clock shows at each line of the batch it completes.
pub struct Told {
    pub input: InputModel,
    pub clock: Seq<UtcTime>,
}

/// The state and history of a new connection behind some inputs.
pub open spec fn run(inputs: Seq<Told>) -> (ConnectionModel, History)
    decreases inputs.len(),
{
    if inputs.len() == 0 {
        (
            ConnectionModel::start(),
            History {
                lines: Seq::empty(),
                sent: Seq::empty(),
                dropped: Seq::empty(),
                clock: Seq::empty(),
            },
        )
    } else {
        let (state, history) = run(inputs.drop_last());
        let told = inputs.last();
        let (next, reaction) = state.advance(told.input, told.clock);
        (
            next,
            History {
                lines: match (state.stage, told.input) {
                    (Stage::Waiting, InputModel::Line(line)) | (
                        Stage::Filling,
                        InputModel::Line(line),
                    ) => history.lines.push(line),
                    _ => history.lines,
                },
                sent: match reaction.action {
                    ActionModel::Send(records) => history.sent + records,
                    _ => history.sent,
                },
                dropped: history.dropped + reaction.dropped,
                clock: match state.completed(told.input) {
                    Some(_) => history.clock + told.clock,
                    None => history.clock,
                },
            },
        )
    }
}

/// True when each input comes with as many readings of the clock as it completes
/// lines.
pub open spec fn is_run(inputs: Seq<Told>) -> bool
    decreases inputs.len(),
{
    inputs.len() == 0 || (is_run(inputs.drop_last()) && is_clock(
        inputs.last().clock,
        run(inputs.drop_last()).0.completed_lines(inputs.last().input),
    ))
}

/// A connection loses, repeats and reorders nothing: what it has handed to the
/// sink and dropped is what processing its lines in the order of their arrival
/// gives, but for the lines it still holds back.
#[verifier::spinoff_prover]
#[verifier::rlimit(40)]
pub proof fn connections_are_faithful(inputs: Seq<Told>)
    requires
        is_run(inputs),
    ensures
        ({
            let (state, history) = run(inputs);
            let done = history.lines.len() - state.raw.len();
            &&& state.wf()
            &&& 0 <= done
            &&& history.clock.len() == done
            &&& history.lines.skip(done) == state.raw
            &&& serialized(None, history.lines.take(done), history.clock) == BatchModel {
                format: state.format,
                records: history.sent,
                dropped: history.dropped,
            }
        }),
    decreases inputs.len(),
{
    let (next, after) = run(inputs);
    if inputs.len() == 0 {
        assert(after.lines.skip(0) =~= next.raw);
    } else {
        connections_are_faithful(inputs.drop_last());
        let (state, history) = run(inputs.drop_last());
        let told = inputs.last();
        let done = history.lines.len() - state.raw.len();
        let (_, reaction) = state.advance(told.input, told.clock);
        steps_keep_the_invariant(state, told.input, told.clock);
        match state.completed(told.input) {
            Some((lines, last)) => {
                batching_is_transparent(
                    None,
                    history.lines.take(done),
                    lines,
                    history.clock,
                    told.clock,
                );
                assert(history.lines.take(done) + lines =~= after.lines);
                assert(after.lines.take(after.lines.len() as int) =~= after.lines);
                assert(after.lines.skip(after.lines.len() as int) =~= next.raw);
                let batch = serialized(state.format, lines, told.clock);
                if batch.records.len() == 0 {
                    assert(history.sent + batch.records =~= history.sent);
                }
            },
            None => {
                assert(history.dropped + reaction.dropped =~= history.dropped);
                assert(after.lines.take(done) =~= history.lines.take(done));
                assert(after.lines.skip(done) =~= next.raw);
            },
        }
    }
}

/// Every record that a connection hands to the sink is on one line.
pub proof fn sent_records_are_one_line(inputs: Seq<Told>)
    requires
        is_run(inputs),
    ensures
        forall|i: int|
            0 <= i < run(inputs).1.sent.len() ==> is_one_line(#[trigger] run(inputs).1.sent[i]),
{
    connections_are_faithful(inputs);
    let (state, history) = run(inputs);
    let done = history.lines.len() - state.raw.len();
    batched_records_are_one_line(None, history.lines.take(done), history.clock);
    let records = serialized(None, history.lines.take(done), history.clock).records;
    assert forall|i: int| 0 <= i < history.sent.len() implies is_one_line(
        #[trigger] history.sent[i],
    ) by {
        assert(is_one_line(records[i]));
    }
}

/// A connection whose input did not fail and which holds no line back has handed
/// over the records of all its lines; every connection that is between batches,
/// sending or closed is one.
pub proof fn finished_connections_sent_everything(inputs: Seq<Told>)
    requires
        is_run(inputs),
        !(run(inputs).0.stage is Filling),
        !(run(inputs).0.stage is Failed),
    ensures
        run(inputs).1.clock.len() == run(inputs).1.lines.len(),
        serialized(None, run(inputs).1.lines, run(inputs).1.clock).records == run(inputs).1.sent,
        run(inputs).1.sent.len() + run(inputs).1.dropped.len() == event_lines(run(inputs).1.lines),
{
    connections_are_faithful(inputs);
    let history = run(inputs).1;
    assert(history.lines.take(history.lines.len() as int) =~= history.lines);
    no_line_is_lost_in_silence(None, history.lines, history.clock);
}

// ---------------------------------------------------------------------------
// Laws of single lines
// ---------------------------------------------------------------------------

/// A further line of a batch leaves what came before as it is. A blank one adds
/// nothing. Any other is read with the locked format, or else with its own, which
/// it locks: it adds a record that holds the event it is mapped to, or is dropped
/// with the reason why it cannot be mapped. Without a format it is dropped as
/// undetected and locks nothing.
#[verifier::spinoff_prover]
#[verifier::rlimit(40)]
pub proof fn each_line_has_its_fate(
    format: Option<Format>,
    lines: Seq<Seq<char>>,
    line: Seq<char>,
    clock: Seq<UtcTime>,
    current: UtcTime,
)
    requires
        clock.len() == lines.len(),
    ensures
        ({
            let before = serialized(format, lines, clock);
            let after = serialized(format, lines.push(line), clock.push(current));
            let used = if before.format is Some {
                before.format
            } else {
                detected(line)
            };
            if is_blank(line) {
                after == before
            } else if used is None {
                &&& after.format is None
                &&& after.records == before.records
                &&& after.dropped == before.dropped.push((line, DropReason::Undetected))
            } else {
                &&& after.format == used
                &&& match transformed(used->Some_0, line, current) {
                    Ok(event) => {
                        &&& after.records.len() == before.records.len() + 1
                        &&& after.records.drop_last() == before.records
                        &&& holds_event(after.records.last(), event)
                        &&& after.dropped == before.dropped
                    },
                    Err(error) => {
                        &&& after.records == before.records
                        &&& after.dropped == before.dropped.push(
                            (line, DropReason::Malformed(error)),
                        )
                    },
                }
            }
        }),
{
    let before = serialized(format, lines, clock);
    assert(lines.push(line).drop_last() =~= lines);
    lemma_serialized_clock(format, lines, clock, clock.push(current));
    match format_for(before.format, line) {
        Some(used) => {
            if let Ok(event) = transformed(used, line, current) {
                records_hold_their_event(event);
                assert(before.records.push(record_text(event)).drop_last() =~= before.records);
            }
        },
        None => {},
    }
}

/// Each line of a batch that is mapped to an event has a record of its own, in the
/// order of the lines, which holds that event.
#[verifier::spinoff_prover]
#[verifier::rlimit(40)]
pub proof fn batched_records_hold_their_events(
    format: Option<Format>,
    lines: Seq<Seq<char>>,
    clock: Seq<UtcTime>,
    i: int,
    event: EventModel,
)
    requires
        clock.len() == lines.len(),
        0 <= i < lines.len(),
        !is_blank(lines[i]),
        ({
            let held = serialized(format, lines.take(i), clock.take(i)).format;
            let used = if held is Some {
                held
            } else {
                detected(lines[i])
            };
            used is Some && transformed(used->Some_0, lines[i], clock[i]) == Ok::<
                EventModel,
                TransformError,
            >(event)
        }),
    ensures
        ({
            let place = serialized(format, lines.take(i), clock.take(i)).records.len() as int;
            let records = serialized(format, lines, clock).records;
            place < records.len() && holds_event(records[place], event)
        }),
{
    each_line_has_its_fate(format, lines.take(i), lines[i], clock.take(i), clock[i]);
    assert(lines.take(i).push(lines[i]) =~= lines.take(i + 1));
    assert(clock.take(i).push(clock[i]) =~= clock.take(i + 1));
    batching_is_transparent(
        format,
        lines.take(i + 1),
        lines.skip(i + 1),
        clock.take(i + 1),
        clock.skip(i + 1),
    );
    assert(lines.take(i + 1) + lines.skip(i + 1) =~= lines);
    assert(clock.take(i + 1) + clock.skip(i + 1) =~= clock);
}

/// Each line that a connection has processed and mapped to an event has a record
/// of its own among those handed to the sink, in the order of arrival, which holds
/// that event.
#[verifier::spinoff_prover]
#[verifier::rlimit(40)]
pub proof fn sent_records_hold_their_events(inputs: Seq<Told>, i: int, event: EventModel)
    requires
        is_run(inputs),
        0 <= i < run(inputs).1.lines.len() - run(inputs).0.raw.len(),
        !is_blank(run(inputs).1.lines[i]),
        ({
            let (state, history) = run(inputs);
            let held = serialized(None, history.lines.take(i), history.clock.take(i)).format;
            let used = if held is Some {
                held
            } else {
                detected(history.lines[i])
            };
            used is Some && transformed(used->Some_0, history.lines[i], history.clock[i]) == Ok::<
                EventModel,
                TransformError,
            >(event)
        }),
    ensures
        ({
            let (state, history) = run(inputs);
            let place = serialized(
                None,
                history.lines.take(i),
                history.clock.take(i),
            ).records.len() as int;
            place < history.sent.len() && holds_event(history.sent[place], event)
        }),
{
    connections_are_faithful(inputs);
    let (state, history) = run(inputs);
    let done = history.lines.len() - state.raw.len();
    let lines = history.lines.take(done);
    assert(lines.take(i) =~= history.lines.take(i));
    batched_records_hold_their_events(None, lines, history.clock, i, event);
}

/// Each line of a batch that is read with a format has a timestamp that keeps what
/// the line says of it.
pub proof fn lines_of_a_batch_are_timely(
    format: Option<Format>,
    lines: Seq<Seq<char>>,
    clock: Seq<UtcTime>,
    i: int,
)
    requires
        timely_lines(format, lines, clock),
        0 <= i < lines.len(),
        !is_blank(lines[i]),
    ensures
        ({
            let held = serialized(format, lines.take(i), clock).format;
            let used = if held is Some {
                held
            } else {
                detected(lines[i])
            };
            &&& used == Some(Format::Syslog) ==> crate::transform::syslog::timely(
                lines[i],
                clock[i],
            )
            &&& used == Some(Format::Ndjson) ==> crate::transform::windows::timely(
                lines[i],
                clock[i],
            )
        }),
    decreases lines.len(),
{
    if i < lines.len() - 1 {
        lines_of_a_batch_are_timely(format, lines.drop_last(), clock, i);
        assert(lines.drop_last().take(i) =~= lines.take(i));
    } else {
        assert(lines.take(i) =~= lines.drop_last());
    }
}

/// The readings of the clock behind a step are instants that a clock can show, one
/// for each line of the batch that the step completes, whose timestamps keep what
/// the lines say.
pub proof fn readings_are_timely(state: ConnectionModel, input: InputModel, clock: Seq<UtcTime>)
    requires
        state.is_reading(input, clock),
    ensures
        clock.len() == state.completed_lines(input),
        forall|i: int| 0 <= i < clock.len() ==> (#[trigger] clock[i]).shown(),
        state.completed(input) matches Some((lines, _)) ==> timely_lines(
            state.format,
            lines,
            clock,
        ),
{
}

// ---------------------------------------------------------------------------
// Laws of single steps
// ---------------------------------------------------------------------------

/// The bytes of lines are those of each line in UTF-8, added up.
pub proof fn bytes_add_up(lines: Seq<Seq<char>>, line: Seq<char>)
    ensures
        total_bytes(Seq::empty()) == 0,
        total_bytes(lines.push(line)) == total_bytes(lines) + encode_utf8(line).len(),
{
    assert(lines.push(line).drop_last() =~= lines);
}

/// A line joins the batch. The batch is complete with its 256th line, and with the
/// line that brings it to 256 KiB; until then the connection waits for more.
pub proof fn batches_are_complete_when_full(
    state: ConnectionModel,
    line: Seq<char>,
    clock: Seq<UtcTime>,
)
    requires
        state.wf(),
        state.stage is Waiting || state.stage is Filling,
    ensures
        ({
            let full = state.raw.len() + 1 >= 256 || total_bytes(state.raw) + encode_utf8(
                line,
            ).len() >= 262_144;
            let (next, reaction) = state.advance(InputModel::Line(line), clock);
            &&& full ==> state.completed(InputModel::Line(line)) == Some(
                (state.raw.push(line), false),
            )
            &&& !full ==> {
                &&& state.completed(InputModel::Line(line)) is None
                &&& next == ConnectionModel {
                    stage: Stage::Filling,
                    format: state.format,
                    raw: state.raw.push(line),
                }
                &&& reaction.action is AwaitMore
                &&& reaction.dropped.len() == 0
            }
        }),
{
    bytes_add_up(state.raw, line);
}

/// The end of the time of a batch completes it, and so do the end of the input and
/// a line over the limit, which make it the last. Nothing else does but a line.
pub proof fn batches_are_complete_in_time(state: ConnectionModel, input: InputModel)
    requires
        state.wf(),
        !(input is Line),
    ensures
        state.stage is Filling && input is Elapsed ==> state.completed(input) == Some(
            (state.raw, false),
        ),
        state.stage is Filling && (input is EndOfInput || input is TooLong) ==> state.completed(
            input,
        ) == Some((state.raw, true)),
        state.stage is Waiting && input is TooLong ==> state.completed(input) == Some(
            (Seq::<Seq<char>>::empty(), true),
        ),
        !(state.stage is Filling && (input is Elapsed || input is EndOfInput || input is TooLong))
            && !(state.stage is Waiting && input is TooLong) ==> state.completed(input) is None,
{
    if state.stage is Waiting {
        assert(state.raw =~= Seq::empty());
    }
}

/// The records of a complete batch go to the sink, all at once, and its dropped
/// lines are reported; a batch without records is passed over, or ends the
/// connection where it is the last.
pub proof fn complete_batches_are_sent(
    state: ConnectionModel,
    input: InputModel,
    clock: Seq<UtcTime>,
)
    ensures
        state.completed(input) matches Some((lines, last)) ==> {
            let batch = serialized(state.format, lines, clock);
            let (next, reaction) = state.advance(input, clock);
            &&& next.format == batch.format
            &&& next.raw.len() == 0
            &&& reaction.dropped == batch.dropped
            &&& batch.records.len() > 0 ==> reaction.action == ActionModel::Send(batch.records)
                && next.stage == (Stage::Sending { last })
            &&& batch.records.len() == 0 && last ==> reaction.action is Close && next.stage
                is Closed
            &&& batch.records.len() == 0 && !last ==> reaction.action is AwaitFirst && next.stage
                is Waiting
        },
{
}

/// Between batches the end of the input ends the connection, as a shutdown does.
/// An input that cannot be read ends it with an error. Behind a batch that was
/// sent it goes on, unless that was the last; a closed sink ends it.
pub proof fn connections_end_and_go_on(state: ConnectionModel, clock: Seq<UtcTime>)
    requires
        state.wf(),
    ensures
        state.stage is Waiting ==> {
            let (next, reaction) = state.advance(InputModel::EndOfInput, clock);
            next.stage is Closed && reaction.action is Close
        },
        state.stage is Waiting ==> {
            let (next, reaction) = state.advance(InputModel::Shutdown, clock);
            next.stage is Closed && reaction.action is Close
        },
        state.stage is Waiting || state.stage is Filling ==> {
            let (next, reaction) = state.advance(InputModel::ReadFailed, clock);
            next.stage is Failed && reaction.action is Fail
        },
        state.stage == (Stage::Sending { last: false }) ==> {
            let (next, reaction) = state.advance(InputModel::Sent, clock);
            next == (ConnectionModel { stage: Stage::Waiting, ..state }) && reaction.action
                is AwaitFirst
        },
        state.stage == (Stage::Sending { last: true }) ==> {
            let (next, reaction) = state.advance(InputModel::Sent, clock);
            next.stage is Closed && reaction.action is Close
        },
        state.stage is Sending ==> {
            let (next, reaction) = state.advance(InputModel::SinkClosed, clock);
            next.stage is Closed && reaction.action is Close
        },
{
}

/// An input that a connection does not wait for changes nothing.
pub proof fn other_inputs_are_ignored(
    state: ConnectionModel,
    input: InputModel,
    clock: Seq<UtcTime>,
)
    requires
        match state.stage {
            Stage::Waiting => input is Elapsed || input is Sent || input is SinkClosed,
            Stage::Filling => input is Shutdown || input is Sent || input is SinkClosed,
            Stage::Sending { .. } => !(input is Sent) && !(input is SinkClosed),
            Stage::Closed => true,
            Stage::Failed => true,
        },
    ensures
        state.advance(input, clock).0 == state,
        state.advance(input, clock).1.action is Ignore,
        state.advance(input, clock).1.dropped.len() == 0,
{
}

/// A connection starts between batches, with no line and no format locked.
pub proof fn connections_start_empty()
    ensures
        ConnectionModel::start().stage is Waiting,
        ConnectionModel::start().format is None,
        ConnectionModel::start().raw.len() == 0,
        ConnectionModel::start().wf(),
{
}

/// What a connection is told and tells is viewed as it is: a line by its text, a
/// batch by its records and its dropped lines, in order.
pub proof fn messages_are_viewed_as_they_are(
    line: String,
    records: Vec<String>,
    batch: Batch,
    format: Option<Format>,
    reaction: Reaction,
)
    ensures
        Input::Frame(Frame::Line(line))@ == InputModel::Line(line@),
        Input::Frame(Frame::TooLong)@ is TooLong,
        Input::Frame(Frame::Failed)@ is ReadFailed,
        Input::Shutdown@ is Shutdown,
        Input::EndOfInput@ is EndOfInput,
        Input::Elapsed@ is Elapsed,
        Input::Sent@ is Sent,
        Input::SinkClosed@ is SinkClosed,
        Action::Send(records)@ == ActionModel::Send(views(records@)),
        Action::AwaitFirst@ is AwaitFirst,
        Action::AwaitMore@ is AwaitMore,
        Action::Close@ is Close,
        Action::Fail@ is Fail,
        Action::Ignore@ is Ignore,
        LineFate::Record(line)@ == FateModel::Record(line@),
        LineFate::Blank@ is Blank,
        forall|reason: DropReason| #[trigger]
            LineFate::Dropped(reason)@ == FateModel::Dropped(reason),
        batch_view(batch, format).format == format,
        batch_view(batch, format).records == views(batch.records@),
        batch_view(batch, format).dropped.len() == batch.dropped@.len(),
        forall|i: int|
            0 <= i < batch.dropped@.len() ==> #[trigger] batch_view(batch, format).dropped[i] == (
                batch.dropped@[i].line@,
                batch.dropped@[i].reason,
            ),
        reaction@.action == reaction.action@,
        reaction@.dropped.len() == reaction.dropped@.len(),
        forall|i: int|
            0 <= i < reaction.dropped@.len() ==> #[trigger] reaction@.dropped[i] == (
                reaction.dropped@[i].line@,
                reaction.dropped@[i].reason,
            ),
{
}

} // verus!
