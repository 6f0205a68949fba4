//! Output sink for normalized records.
//!
//! A single consumer owns the underlying writer (stdout or an appended file);
//! connections send batches of serialized records to it over a **bounded**
//! queue. The consumer coalesces ready batches into a single buffered write +
//! flush, so there is no flush per record. A write or flush error stops it:
//! producers then see a closed queue rather than records being discarded.
//!
//! [`Consumer`] decides; the queue and the writer are left to its driver, which
//! performs the [`Action`] it is given and reports back an [`Input`].

use vstd::prelude::*;

use crate::record::is_one_line;
use crate::text::{same, views};

verus! {

/// Number of records from which on the consumer coalesces no further batch into
/// a flush, so a sustained burst can't grow the write buffer without limit.
pub const MAX_COALESCED_RECORDS: usize = 4096;

// ---------------------------------------------------------------------------
// The destination
// ---------------------------------------------------------------------------

/// True when an output argument stands for the standard output.
pub open spec fn names_stdout(output: Seq<char>) -> bool {
    output == "-"@
}

/// True when the output is the standard output (`-`), rather than a file to
/// append to.
pub fn is_stdout(output: &str) -> (r: bool)
    ensures
        r == names_stdout(output@),
{
    same(output, "-")
}

/// Human-readable description of the output destination for startup logging.
pub fn describe(output: &str) -> (r: String)
    ensures
        r@ == if names_stdout(output@) {
            "stdout"@
        } else {
            "file "@ + output@
        },
{
    if is_stdout(output) {
        "stdout".to_owned()
    } else {
        let mut text = "file ".to_owned();
        text.append(output);
        text
    }
}

/// The number of batches that the queue holds: as asked for, but at least one.
pub fn queue_capacity(capacity: usize) -> (r: usize)
    ensures
        r == if capacity == 0 {
            1
        } else {
            capacity
        },
{
    if capacity == 0 {
        1
    } else {
        capacity
    }
}

// ---------------------------------------------------------------------------
// NDJSON
// ---------------------------------------------------------------------------

/// Records as NDJSON: one per line, each line ended.
pub open spec fn ndjson(records: Seq<Seq<char>>) -> Seq<char>
    decreases records.len(),
{
    if records.len() == 0 {
        Seq::empty()
    } else {
        ndjson(records.drop_last()) + records.last().push('\n')
    }
}

/// The lines of a text in which every line is ended.
pub open spec fn ended_lines(text: Seq<char>) -> Seq<Seq<char>> {
    unfinished(text).0
}

/// The ended lines of a text, and what stands behind the last of them.
pub open spec fn unfinished(text: Seq<char>) -> (Seq<Seq<char>>, Seq<char>)
    decreases text.len(),
{
    if text.len() == 0 {
        (Seq::empty(), Seq::empty())
    } else {
        let (lines, rest) = unfinished(text.drop_last());
        if text.last() == '\n' {
            (lines.push(rest), Seq::empty())
        } else {
            (lines, rest.push(text.last()))
        }
    }
}

/// Writes every record in `batch` as one NDJSON line, advancing `written`.
pub fn write_batch(batch: &Vec<String>, written: &mut usize) -> (r: String)
    ensures
        r@ == ndjson(views(batch@)),
        *final(written) == if *old(written) + batch@.len() > usize::MAX {
            usize::MAX as int
        } else {
            *old(written) + batch@.len()
        },
{
    let mut text = String::new();
    let ghost records = views(batch@);
    let mut i: usize = 0;
    while i < batch.len()
        invariant
            i <= batch@.len(),
            records == views(batch@),
            text@ == ndjson(records.take(i as int)),
        decreases batch@.len() - i,
    {
        assert(records.take(i + 1).drop_last() =~= records.take(i as int));
        text.append(batch[i].as_str());
        text.push('\n');
        assert(text@ =~= ndjson(records.take(i + 1)));
        i += 1;
    }
    assert(records.take(i as int) =~= records);
    *written = written.saturating_add(batch.len());
    text
}

// ---------------------------------------------------------------------------
// The consumer
// ---------------------------------------------------------------------------

/// What a consumer is told by its driver.
#[derive(Debug, PartialEq, Eq)]
pub enum Input {
    /// A batch came out of the queue.
    Received(Vec<String>),
    /// The queue holds no batch right now.
    QueueEmpty,
    /// All senders are gone and the queue is drained.
    Disconnected,
    /// The text was written.
    Written,
    /// The text could not be written.
    WriteFailed,
    /// The writer was flushed.
    Flushed,
    /// The writer could not be flushed.
    FlushFailed,
}

/// The contents of an [`Input`].
pub enum InputModel {
    Received(Seq<Seq<char>>),
    QueueEmpty,
    Disconnected,
    Written,
    WriteFailed,
    Flushed,
    FlushFailed,
}

impl View for Input {
    type V = InputModel;

    open spec fn view(&self) -> InputModel {
        match self {
            Input::Received(batch) => InputModel::Received(views(batch@)),
            Input::QueueEmpty => InputModel::QueueEmpty,
            Input::Disconnected => InputModel::Disconnected,
            Input::Written => InputModel::Written,
            Input::WriteFailed => InputModel::WriteFailed,
            Input::Flushed => InputModel::Flushed,
            Input::FlushFailed => InputModel::FlushFailed,
        }
    }
}

/// What a consumer tells its driver to do.
#[derive(Debug, PartialEq, Eq)]
pub enum Action {
    /// Wait for a batch.
    Receive,
    /// Take a batch that is already queued, without waiting.
    Poll,
    /// Write a text.
    Write(String),
    /// Flush the writer.
    Flush,
    /// Stop: let go of the queue.
    Stop,
    /// Do nothing: the consumer was not waiting for this input.
    Ignore,
}

/// The contents of an [`Action`].
pub enum ActionModel {
    Receive,
    Poll,
    Write(Seq<char>),
    Flush,
    Stop,
    Ignore,
}

impl View for Action {
    type V = ActionModel;

    open spec fn view(&self) -> ActionModel {
        match self {
            Action::Receive => ActionModel::Receive,
            Action::Poll => ActionModel::Poll,
            Action::Write(text) => ActionModel::Write(text@),
            Action::Flush => ActionModel::Flush,
            Action::Stop => ActionModel::Stop,
            Action::Ignore => ActionModel::Ignore,
        }
    }
}

/// Where a consumer stands.
#[derive(Debug, Clone, Copy, PartialEq, Eq, Structural)]
pub enum Stage {
    /// Waiting for a batch; everything written is flushed.
    Idle,
    /// Writing a batch.
    Writing,
    /// Looking for a batch to coalesce into the same flush.
    Polling,
    /// Flushing a burst.
    Flushing,
    /// A best-effort final flush of anything already written.
    Finishing,
    /// Stopped.
    Stopped,
}

/// Drains the queue until all senders are gone, batching writes and flushing
/// once per drained burst.
#[derive(Debug, Clone, Copy, PartialEq, Eq, Structural)]
pub struct Consumer {
    /// Where it stands.
    pub stage: Stage,
    /// The number of records written since the last flush, including those of
    /// the batch that is being written.
    pub written: usize,
}

/// A number of records after some more.
pub open spec fn counted(written: usize, more: nat) -> usize {
    if written + more > usize::MAX {
        usize::MAX
    } else {
        (written + more) as usize
    }
}

impl Consumer {
    /// A new consumer.
    pub open spec fn start() -> Self {
        Consumer { stage: Stage::Idle, written: 0 }
    }

    /// A burst goes on only below the limit.
    pub open spec fn wf(self) -> bool {
        self.stage is Polling ==> self.written < MAX_COALESCED_RECORDS
    }

    /// The next state and action.
    pub open spec fn advance(self, input: InputModel) -> (Consumer, ActionModel) {
        match (self.stage, input) {
            (Stage::Idle, InputModel::Received(batch)) => (
                Consumer { stage: Stage::Writing, written: counted(0, batch.len()) },
                ActionModel::Write(ndjson(batch)),
            ),
            (Stage::Polling, InputModel::Received(batch)) => (
                Consumer { stage: Stage::Writing, written: counted(self.written, batch.len()) },
                ActionModel::Write(ndjson(batch)),
            ),
            (Stage::Idle, InputModel::Disconnected) => (
                Consumer { stage: Stage::Finishing, ..self },
                ActionModel::Flush,
            ),
            (Stage::Writing, InputModel::Written) => if self.written < MAX_COALESCED_RECORDS {
                (Consumer { stage: Stage::Polling, ..self }, ActionModel::Poll)
            } else {
                (Consumer { stage: Stage::Flushing, ..self }, ActionModel::Flush)
            },
            (Stage::Writing, InputModel::WriteFailed) => (
                Consumer { stage: Stage::Finishing, ..self },
                ActionModel::Flush,
            ),
            (Stage::Polling, InputModel::QueueEmpty) => (
                Consumer { stage: Stage::Flushing, ..self },
                ActionModel::Flush,
            ),
            (Stage::Polling, InputModel::Disconnected) => (
                Consumer { stage: Stage::Flushing, ..self },
                ActionModel::Flush,
            ),
            (Stage::Flushing, InputModel::Flushed) => (
                Consumer { stage: Stage::Idle, ..self },
                ActionModel::Receive,
            ),
            (Stage::Flushing, InputModel::FlushFailed) => (
                Consumer { stage: Stage::Finishing, ..self },
                ActionModel::Flush,
            ),
            (Stage::Finishing, InputModel::Flushed) => (
                Consumer { stage: Stage::Stopped, ..self },
                ActionModel::Stop,
            ),
            (Stage::Finishing, InputModel::FlushFailed) => (
                Consumer { stage: Stage::Stopped, ..self },
                ActionModel::Stop,
            ),
            _ => (self, ActionModel::Ignore),
        }
    }

    /// A new consumer, which waits for its first batch.
    pub fn new() -> (r: Self)
        ensures
            r == Consumer::start(),
            r.wf(),
    {
        Consumer { stage: Stage::Idle, written: 0 }
    }

    /// Takes an input and decides what to do next.
    pub fn step(&mut self, input: Input) -> (r: Action)
        ensures
            (*final(self), r@) == old(self).advance(input@),
            old(self).wf() ==> final(self).wf(),
    {
        match (self.stage, input) {
            (Stage::Idle, Input::Received(batch)) => {
                self.stage = Stage::Writing;
                self.written = 0;
                Action::Write(write_batch(&batch, &mut self.written))
            },
            (Stage::Polling, Input::Received(batch)) => {
                self.stage = Stage::Writing;
                Action::Write(write_batch(&batch, &mut self.written))
            },
            (Stage::Writing, Input::Written) => if self.written < MAX_COALESCED_RECORDS {
                self.stage = Stage::Polling;
                Action::Poll
            } else {
                self.stage = Stage::Flushing;
                Action::Flush
            },
            (Stage::Polling, Input::QueueEmpty) | (Stage::Polling, Input::Disconnected) => {
                self.stage = Stage::Flushing;
                Action::Flush
            },
            (Stage::Flushing, Input::Flushed) => {
                self.stage = Stage::Idle;
                Action::Receive
            },
            (Stage::Idle, Input::Disconnected) | (Stage::Writing, Input::WriteFailed) | (
                Stage::Flushing,
                Input::FlushFailed,
            ) => {
                self.stage = Stage::Finishing;
                Action::Flush
            },
            (Stage::Finishing, Input::Flushed) | (Stage::Finishing, Input::FlushFailed) => {
                self.stage = Stage::Stopped;
                Action::Stop
            },
            _ => Action::Ignore,
        }
    }
}

// ---------------------------------------------------------------------------
// Laws
// ---------------------------------------------------------------------------

proof fn lemma_unfinished_appended(text: Seq<char>, line: Seq<char>)
    requires
        forall|i: int| 0 <= i < line.len() ==> #[trigger] line[i] != '\n',
    ensures
        unfinished(text + line) == (unfinished(text).0, unfinished(text).1 + line),
    decreases line.len(),
{
    if line.len() == 0 {
        assert(text + line =~= text);
        assert(unfinished(text).1 + line =~= unfinished(text).1);
    } else {
        lemma_unfinished_appended(text, line.drop_last());
        assert((text + line).drop_last() =~= text + line.drop_last());
        assert(unfinished(text).1 + line =~= (unfinished(text).1 + line.drop_last()).push(
            line.last(),
        ));
    }
}

/// Reading the lines back gives the records that were written, where each
/// record is on one line.
pub proof fn reading_lines_inverts_ndjson(records: Seq<Seq<char>>)
    requires
        forall|i: int| 0 <= i < records.len() ==> is_one_line(#[trigger] records[i]),
    ensures
        ended_lines(ndjson(records)) == records,
        unfinished(ndjson(records)).1.len() == 0,
    decreases records.len(),
{
    if records.len() > 0 {
        let front = records.drop_last();
        let last = records.last();
        assert forall|i: int| 0 <= i < front.len() implies is_one_line(#[trigger] front[i]) by {
            assert(is_one_line(records[i]));
        }
        reading_lines_inverts_ndjson(front);
        assert(is_one_line(records[records.len() - 1]));
        lemma_unfinished_appended(ndjson(front), last);
        let text = ndjson(records);
        assert(text.drop_last() =~= ndjson(front) + last);
        assert(unfinished(ndjson(front)).1 + last =~= last);
        assert(records =~= front.push(last));
    } else {
        assert(ndjson(records) =~= Seq::empty());
        assert(ended_lines(ndjson(records)) =~= records);
    }
}

/// The text of two batches in turn is the text of the one batch of both.
pub proof fn ndjson_is_compositional(first: Seq<Seq<char>>, second: Seq<Seq<char>>)
    ensures
        ndjson(first + second) == ndjson(first) + ndjson(second),
    decreases second.len(),
{
    if second.len() == 0 {
        assert(first + second =~= first);
        assert(ndjson(first) + ndjson(second) =~= ndjson(first));
    } else {
        ndjson_is_compositional(first, second.drop_last());
        assert((first + second).drop_last() =~= first + second.drop_last());
        assert(ndjson(first + second) =~= ndjson(first) + ndjson(second));
    }
}

/// The state of a new consumer behind some inputs.
pub open spec fn run(inputs: Seq<InputModel>) -> Consumer
    decreases inputs.len(),
{
    if inputs.len() == 0 {
        Consumer::start()
    } else {
        run(inputs.drop_last()).advance(inputs.last()).0
    }
}

/// The text that a new consumer has handed to its writer behind some inputs.
pub open spec fn written_text(inputs: Seq<InputModel>) -> Seq<char>
    decreases inputs.len(),
{
    if inputs.len() == 0 {
        Seq::empty()
    } else {
        let before = written_text(inputs.drop_last());
        match run(inputs.drop_last()).advance(inputs.last()).1 {
            ActionModel::Write(text) => before + text,
            _ => before,
        }
    }
}

/// The records that a new consumer has taken behind some inputs.
pub open spec fn taken_records(inputs: Seq<InputModel>) -> Seq<Seq<char>>
    decreases inputs.len(),
{
    if inputs.len() == 0 {
        Seq::empty()
    } else {
        let before = taken_records(inputs.drop_last());
        match (run(inputs.drop_last()).stage, inputs.last()) {
            (Stage::Idle, InputModel::Received(batch)) => before + batch,
            (Stage::Polling, InputModel::Received(batch)) => before + batch,
            _ => before,
        }
    }
}

/// The batches that a new consumer has handed to its writer behind some inputs
/// and not flushed since.
pub open spec fn unflushed(inputs: Seq<InputModel>) -> Seq<Seq<Seq<char>>>
    decreases inputs.len(),
{
    if inputs.len() == 0 {
        Seq::empty()
    } else {
        let before = unflushed(inputs.drop_last());
        match (run(inputs.drop_last()).stage, inputs.last()) {
            (Stage::Idle, InputModel::Received(batch)) => before.push(batch),
            (Stage::Polling, InputModel::Received(batch)) => before.push(batch),
            (Stage::Flushing, InputModel::Flushed) => Seq::empty(),
            (Stage::Finishing, InputModel::Flushed) => Seq::empty(),
            _ => before,
        }
    }
}

/// The number of records of some batches.
pub open spec fn record_count(batches: Seq<Seq<Seq<char>>>) -> nat
    decreases batches.len(),
{
    if batches.len() == 0 {
        0
    } else {
        record_count(batches.drop_last()) + batches.last().len()
    }
}

/// The consumer hands every record it takes to its writer, once, in order, each
/// on its line.
pub proof fn the_sink_is_lossless(inputs: Seq<InputModel>)
    ensures
        written_text(inputs) == ndjson(taken_records(inputs)),
    decreases inputs.len(),
{
    if inputs.len() > 0 {
        the_sink_is_lossless(inputs.drop_last());
        if let InputModel::Received(batch) = inputs.last() {
            ndjson_is_compositional(taken_records(inputs.drop_last()), batch);
        }
    }
}

/// The lines of the output are the records that the consumer took, where each of
/// them is on one line.
pub proof fn output_lines_are_the_records(inputs: Seq<InputModel>)
    requires
        forall|i: int|
            0 <= i < taken_records(inputs).len() ==> is_one_line(
                #[trigger] taken_records(inputs)[i],
            ),
    ensures
        ended_lines(written_text(inputs)) == taken_records(inputs),
        unfinished(written_text(inputs)).1.len() == 0,
{
    the_sink_is_lossless(inputs);
    reading_lines_inverts_ndjson(taken_records(inputs));
}

/// The consumer waits for further batches only when all it wrote is flushed.
pub proof fn waiting_is_flushed(inputs: Seq<InputModel>)
    ensures
        run(inputs).wf(),
        run(inputs).stage is Idle ==> unflushed(inputs).len() == 0,
    decreases inputs.len(),
{
    if inputs.len() > 0 {
        waiting_is_flushed(inputs.drop_last());
    }
}

/// The counter of a burst is the number of records that are not flushed.
pub proof fn the_counter_counts(inputs: Seq<InputModel>)
    ensures
        run(inputs).stage is Writing || run(inputs).stage is Polling || run(inputs).stage
            is Flushing ==> run(inputs).written == counted(0, record_count(unflushed(inputs))),
    decreases inputs.len(),
{
    if inputs.len() > 0 {
        the_counter_counts(inputs.drop_last());
        waiting_is_flushed(inputs.drop_last());
        let before = unflushed(inputs.drop_last());
        if let InputModel::Received(batch) = inputs.last() {
            let after = before.push(batch);
            assert(after.drop_last() =~= before);
            assert(record_count(after) == record_count(before) + batch.len());
        }
    }
}

/// A burst is bounded: without its last batch, fewer than
/// [`MAX_COALESCED_RECORDS`] records are written between two flushes.
pub proof fn bursts_are_bounded(inputs: Seq<InputModel>)
    ensures
        unflushed(inputs).len() > 0 ==> record_count(unflushed(inputs).drop_last())
            < MAX_COALESCED_RECORDS,
    decreases inputs.len(),
{
    if inputs.len() > 0 {
        bursts_are_bounded(inputs.drop_last());
        the_counter_counts(inputs.drop_last());
        waiting_is_flushed(inputs.drop_last());
        let before = unflushed(inputs.drop_last());
        if let InputModel::Received(batch) = inputs.last() {
            assert(before.push(batch).drop_last() =~= before);
        }
    }
}

/// A failed write or flush ends the consumer: after one more flush it stops, and
/// it takes no batch any more.
pub proof fn failures_stop_the_sink(state: Consumer, input: InputModel)
    ensures
        (state.stage is Writing && input is WriteFailed) || (state.stage is Flushing
            && input is FlushFailed) ==> state.advance(input).0.stage is Finishing,
        state.stage is Finishing || state.stage is Stopped ==> {
            let (next, action) = state.advance(input);
            &&& next.stage is Finishing || next.stage is Stopped
            &&& action is Stop || action is Ignore
        },
        state.stage is Finishing && (input is Flushed || input is FlushFailed)
            ==> state.advance(input).0.stage is Stopped,
{
}

/// The steps of a burst: what is received is written, as one line per record; what
/// is written is followed by a look at the queue, below 4096 records, and by a
/// flush from there on; a queue without a batch is followed by a flush, and a
/// flush by waiting.
pub proof fn bursts_go_on_below_the_limit(state: Consumer, batch: Seq<Seq<char>>)
    ensures
        state.stage is Idle ==> {
            let (next, action) = state.advance(InputModel::Received(batch));
            &&& next.stage is Writing
            &&& batch.len() <= usize::MAX ==> next.written == batch.len()
            &&& action == ActionModel::Write(ndjson(batch))
        },
        state.stage is Polling ==> {
            let (next, action) = state.advance(InputModel::Received(batch));
            &&& next.stage is Writing
            &&& state.written + batch.len() <= usize::MAX ==> next.written == state.written
                + batch.len()
            &&& action == ActionModel::Write(ndjson(batch))
        },
        state.stage is Writing && state.written < 4096 ==> {
            let (next, action) = state.advance(InputModel::Written);
            next == (Consumer { stage: Stage::Polling, ..state }) && action is Poll
        },
        state.stage is Writing && state.written >= 4096 ==> {
            let (next, action) = state.advance(InputModel::Written);
            next == (Consumer { stage: Stage::Flushing, ..state }) && action is Flush
        },
        state.stage is Polling ==> {
            let (next, action) = state.advance(InputModel::QueueEmpty);
            next.stage is Flushing && action is Flush
        },
        state.stage is Polling ==> {
            let (next, action) = state.advance(InputModel::Disconnected);
            next.stage is Flushing && action is Flush
        },
        state.stage is Flushing ==> {
            let (next, action) = state.advance(InputModel::Flushed);
            next.stage is Idle && action is Receive
        },
        state.stage is Idle ==> {
            let (next, action) = state.advance(InputModel::Disconnected);
            next.stage is Finishing && action is Flush
        },
{
}

/// A failure is followed by a last flush and the end, whether that flush succeeds
/// or not.
pub proof fn failures_are_followed_by_the_end(state: Consumer)
    ensures
        state.stage is Writing ==> {
            let (next, action) = state.advance(InputModel::WriteFailed);
            next.stage is Finishing && action is Flush
        },
        state.stage is Flushing ==> {
            let (next, action) = state.advance(InputModel::FlushFailed);
            next.stage is Finishing && action is Flush
        },
        state.stage is Finishing ==> {
            let (next, action) = state.advance(InputModel::Flushed);
            next.stage is Stopped && action is Stop
        },
        state.stage is Finishing ==> {
            let (next, action) = state.advance(InputModel::FlushFailed);
            next.stage is Stopped && action is Stop
        },
{
}

/// The text of records has each of them, followed by a line end, in order.
pub proof fn each_record_has_its_line(records: Seq<Seq<char>>, record: Seq<char>)
    ensures
        ndjson(Seq::empty()) == Seq::<char>::empty(),
        ndjson(records.push(record)) == ndjson(records) + record + seq!['\n'],
{
    assert(records.push(record).drop_last() =~= records);
    assert(ndjson(records.push(record)) =~= ndjson(records) + record + seq!['\n']);
}

/// The standard output is named by a single dash, and by nothing else.
pub proof fn a_dash_names_the_standard_output(output: Seq<char>)
    ensures
        names_stdout(output) <==> output.len() == 1 && output[0] == '-',
{
    reveal_strlit("-");
    if output.len() == 1 && output[0] == '-' {
        assert(output =~= "-"@);
    }
}

/// A consumer starts waiting, with nothing written, and what it does not wait for
/// changes nothing.
pub proof fn other_inputs_are_ignored(state: Consumer, input: InputModel)
    requires
        match state.stage {
            Stage::Idle => !(input is Received) && !(input is Disconnected),
            Stage::Writing => !(input is Written) && !(input is WriteFailed),
            Stage::Polling => !(input is Received) && !(input is QueueEmpty) && !(input
                is Disconnected),
            Stage::Flushing => !(input is Flushed) && !(input is FlushFailed),
            Stage::Finishing => !(input is Flushed) && !(input is FlushFailed),
            Stage::Stopped => true,
        },
    ensures
        Consumer::start() == (Consumer { stage: Stage::Idle, written: 0 }),
        state.advance(input) == (state, ActionModel::Ignore),
{
}

/// What a consumer is told and tells is viewed as it is.
pub proof fn messages_are_viewed_as_they_are(batch: Vec<String>, text: String)
    ensures
        Input::Received(batch)@ == InputModel::Received(views(batch@)),
        Input::QueueEmpty@ is QueueEmpty,
        Input::Disconnected@ is Disconnected,
        Input::Written@ is Written,
        Input::WriteFailed@ is WriteFailed,
        Input::Flushed@ is Flushed,
        Input::FlushFailed@ is FlushFailed,
        Action::Write(text)@ == ActionModel::Write(text@),
        Action::Receive@ is Receive,
        Action::Poll@ is Poll,
        Action::Flush@ is Flush,
        Action::Stop@ is Stop,
        Action::Ignore@ is Ignore,
{
}

} // verus!
