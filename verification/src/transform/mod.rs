//! Transform seam: turns a raw event line into a [`NormalizedEvent`].
//!
//! Both input formats (Windows Event Log NDJSON and RFC 3164 syslog wrapping CEF)
//! are mapped into one common schema. The per-format mapping lives in the
//! [`windows`] and [`syslog`] submodules; [`transform`] dispatches to them based
//! on the detected [`Format`].

use vstd::prelude::*;

use crate::clock::{is_timestamp, UtcTime};
use crate::format::Format;
use crate::text::{
    is_blank, is_space, same, string_option_view, trim, trimmed, trimmed_end, trimmed_start,
    trimming_takes_the_whitespace,
};

pub mod syslog;
pub mod windows;

verus! {

/// `event.type`: one of `start`, `end`, `info`, `denied`, `allowed`.
#[derive(Debug, Clone, Copy, PartialEq, Eq, Structural)]
pub enum EventType {
    Start,
    End,
    Info,
    Denied,
    Allowed,
}

/// `event.category`: one of `authentication`, `network`, `process`, `host`.
#[derive(Debug, Clone, Copy, PartialEq, Eq, Structural)]
pub enum EventCategory {
    Authentication,
    Network,
    Process,
    Host,
}

/// `event.outcome`: one of `success`, `failure`, `unknown`.
#[derive(Debug, Clone, Copy, PartialEq, Eq, Structural)]
pub enum EventOutcome {
    Success,
    Failure,
    Unknown,
}

impl EventType {
    /// The name in the output schema.
    pub open spec fn text(self) -> Seq<char> {
        match self {
            EventType::Start => "start"@,
            EventType::End => "end"@,
            EventType::Info => "info"@,
            EventType::Denied => "denied"@,
            EventType::Allowed => "allowed"@,
        }
    }

    /// The name in the output schema.
    pub fn name(&self) -> (r: &'static str)
        ensures
            r@ == self.text(),
    {
        match self {
            EventType::Start => "start",
            EventType::End => "end",
            EventType::Info => "info",
            EventType::Denied => "denied",
            EventType::Allowed => "allowed",
        }
    }
}

impl EventCategory {
    /// The name in the output schema.
    pub open spec fn text(self) -> Seq<char> {
        match self {
            EventCategory::Authentication => "authentication"@,
            EventCategory::Network => "network"@,
            EventCategory::Process => "process"@,
            EventCategory::Host => "host"@,
        }
    }

    /// The name in the output schema.
    pub fn name(&self) -> (r: &'static str)
        ensures
            r@ == self.text(),
    {
        match self {
            EventCategory::Authentication => "authentication",
            EventCategory::Network => "network",
            EventCategory::Process => "process",
            EventCategory::Host => "host",
        }
    }
}

impl EventOutcome {
    /// The name in the output schema.
    pub open spec fn text(self) -> Seq<char> {
        match self {
            EventOutcome::Success => "success"@,
            EventOutcome::Failure => "failure"@,
            EventOutcome::Unknown => "unknown"@,
        }
    }

    /// The name in the output schema.
    pub fn name(&self) -> (r: &'static str)
        ensures
            r@ == self.text(),
    {
        match self {
            EventOutcome::Success => "success",
            EventOutcome::Failure => "failure",
            EventOutcome::Unknown => "unknown",
        }
    }
}

/// The common normalized output record.
#[derive(Debug, Clone, PartialEq, Eq)]
pub struct NormalizedEvent {
    pub timestamp: String,
    pub event_type: EventType,
    pub event_category: EventCategory,
    pub event_outcome: EventOutcome,
    pub source_ip: Option<String>,
    pub user_name: Option<String>,
    pub host_name: Option<String>,
    pub log_level: Option<String>,
    pub message: String,
}

/// The contents of a [`NormalizedEvent`].
#[verifier::ext_equal]
pub struct EventModel {
    pub timestamp: Seq<char>,
    pub event_type: EventType,
    pub event_category: EventCategory,
    pub event_outcome: EventOutcome,
    pub source_ip: Option<Seq<char>>,
    pub user_name: Option<Seq<char>>,
    pub host_name: Option<Seq<char>>,
    pub log_level: Option<Seq<char>>,
    pub message: Seq<char>,
}

impl View for NormalizedEvent {
    type V = EventModel;

    open spec fn view(&self) -> EventModel {
        EventModel {
            timestamp: self.timestamp@,
            event_type: self.event_type,
            event_category: self.event_category,
            event_outcome: self.event_outcome,
            source_ip: string_option_view(self.source_ip),
            user_name: string_option_view(self.user_name),
            host_name: string_option_view(self.host_name),
            log_level: string_option_view(self.log_level),
            message: self.message@,
        }
    }
}

/// Why a line could not be mapped.
#[derive(Debug, Clone, Copy, PartialEq, Eq, Structural)]
pub enum TransformError {
    /// The line is not JSON.
    InvalidJson,
    /// The event has no `System.EventID`, or one that is not an integer.
    MissingEventId,
}

impl TransformError {
    /// What the error says of the line.
    pub open spec fn text(self) -> Seq<char> {
        match self {
            TransformError::InvalidJson => "invalid Windows Event Log JSON"@,
            TransformError::MissingEventId => "missing System.EventID"@,
        }
    }

    /// A description for logs.
    pub fn message(&self) -> (r: &'static str)
        ensures
            r@ == self.text(),
    {
        match self {
            TransformError::InvalidJson => "invalid Windows Event Log JSON",
            TransformError::MissingEventId => "missing System.EventID",
        }
    }
}

/// The view of the result of a transform.
pub open spec fn result_view(r: Result<NormalizedEvent, TransformError>) -> Result<
    EventModel,
    TransformError,
> {
    match r {
        Ok(event) => Ok(event@),
        Err(error) => Err(error),
    }
}

/// The event that a line of a format is mapped to when the clock shows
/// `current`.
pub open spec fn transformed(format: Format, raw: Seq<char>, current: UtcTime) -> Result<
    EventModel,
    TransformError,
> {
    match format {
        Format::Syslog => Ok(syslog::syslog_event(raw, current)),
        Format::Ndjson => windows::windows_event(raw, current),
    }
}

/// Why a line of a format cannot be mapped, if it cannot. Every syslog line can.
pub open spec fn failure_of(format: Format, raw: Seq<char>) -> Option<TransformError> {
    match format {
        Format::Syslog => None,
        Format::Ndjson => windows::failure_of(raw),
    }
}

/// True when the timestamp of a line, mapped while the clock shows `current`, is
/// the one of an instant and keeps what the line says of it.
pub open spec fn timely(format: Format, raw: Seq<char>, current: UtcTime) -> bool {
    match format {
        Format::Syslog => syslog::timely(raw, current),
        Format::Ndjson => windows::timely(raw, current),
    }
}

/// Maps a single raw event line into a [`NormalizedEvent`] using the parser for
/// its detected `format`.
///
/// The clock decides at most the timestamp: which lines fail does not depend on
/// it (see [`failure_does_not_depend_on_the_clock`]).
pub fn transform(format: Format, raw: &str) -> (r: Result<NormalizedEvent, TransformError>)
    ensures
        exists|current: UtcTime|
            #[trigger] current.shown() && result_view(r) == transformed(format, raw@, current)
                && timely(format, raw@, current),
        match failure_of(format, raw@) {
            Some(error) => r == Err::<NormalizedEvent, _>(error),
            None => r is Ok && is_timestamp(r->Ok_0.timestamp@),
        },
{
    match format {
        Format::Syslog => syslog::parse(raw),
        Format::Ndjson => windows::parse(raw),
    }
}

/// The clock can change the timestamp of an event and nothing else: a line fails
/// with its own error whatever the clock shows, and two readings give events that
/// agree on every other field.
pub proof fn failure_does_not_depend_on_the_clock(
    format: Format,
    raw: Seq<char>,
    current: UtcTime,
    later: UtcTime,
)
    ensures
        match (transformed(format, raw, current), transformed(format, raw, later)) {
            (Ok(a), Ok(b)) => failure_of(format, raw) is None && b == (EventModel {
                timestamp: b.timestamp,
                ..a
            }),
            (Err(a), Err(b)) => failure_of(format, raw) == Some(a) && a == b,
            _ => false,
        },
{
}

/// A text that may stand for a message: trimmed, and `None` where it is empty or
/// the `-` sentinel.
pub open spec fn stated(value: Seq<char>) -> Option<Seq<char>> {
    let text = trimmed(value);
    if text.len() == 0 || text == "-"@ {
        None
    } else {
        Some(text)
    }
}

/// [`stated`] of a value that may be absent.
pub open spec fn stated_option(value: Option<Seq<char>>) -> Option<Seq<char>> {
    match value {
        Some(text) => stated(text),
        None => None,
    }
}

/// The value of an optional field: trimmed, and `None` for the values that mean
/// "not applicable", the null SID among them.
pub open spec fn cleaned(value: Seq<char>) -> Option<Seq<char>> {
    match stated(value) {
        Some(text) => if text == "S-1-0-0"@ {
            None
        } else {
            Some(text)
        },
        None => None,
    }
}

/// [`cleaned`] of a value that may be absent.
pub open spec fn cleaned_option(value: Option<Seq<char>>) -> Option<Seq<char>> {
    match value {
        Some(text) => cleaned(text),
        None => None,
    }
}

/// The first of two optional values that is there.
pub open spec fn or_else(first: Option<Seq<char>>, second: Option<Seq<char>>) -> Option<
    Seq<char>,
> {
    match first {
        Some(text) => Some(text),
        None => second,
    }
}

/// Normalizes an optional string field: trims it and returns `None` for empty
/// values, for the `-` sentinel that Windows Event Log uses for "not applicable"
/// and for the null SID `S-1-0-0`.
pub fn clean_optional(value: &str) -> (r: Option<String>)
    ensures
        string_option_view(r) == cleaned(value@),
{
    match clean_message(value) {
        Some(text) => if same(text.as_str(), "S-1-0-0") {
            None
        } else {
            Some(text)
        },
        None => None,
    }
}

/// Normalizes a text that may stand for a message: trims it and returns `None`
/// for empty values and for the `-` sentinel.
pub fn clean_message(value: &str) -> (r: Option<String>)
    ensures
        string_option_view(r) == stated(value@),
{
    let text = trim(value);
    if text.as_str().is_empty() || same(text.as_str(), "-") {
        None
    } else {
        Some(text)
    }
}

/// [`clean_optional`] of a value that may be absent.
pub(crate) fn clean(value: &Option<String>) -> (r: Option<String>)
    ensures
        string_option_view(r) == cleaned_option(string_option_view(*value)),
{
    match value {
        Some(text) => clean_optional(text.as_str()),
        None => None,
    }
}

proof fn lemma_trimmed_end_keeps_start(s: Seq<char>)
    requires
        s.len() > 0,
        !is_space(s[0]),
    ensures
        trimmed_end(s).len() > 0,
        trimmed_end(s)[0] == s[0],
    decreases s.len(),
{
    if is_space(s.last()) {
        lemma_trimmed_end_keeps_start(s.drop_last());
    }
}

proof fn lemma_trimmed_start(s: Seq<char>)
    ensures
        trimmed_start(s).len() > 0 ==> !is_space(trimmed_start(s)[0]),
        trimmed_start(trimmed_start(s)) == trimmed_start(s),
    decreases s.len(),
{
    if s.len() > 0 && is_space(s.first()) {
        lemma_trimmed_start(s.drop_first());
    }
}

proof fn lemma_trimmed_end(s: Seq<char>)
    ensures
        trimmed_end(s).len() > 0 ==> !is_space(trimmed_end(s).last()),
        trimmed_end(trimmed_end(s)) == trimmed_end(s),
    decreases s.len(),
{
    if s.len() > 0 && is_space(s.last()) {
        lemma_trimmed_end(s.drop_last());
    }
}

/// A text without whitespace at its ends that is neither empty nor a sentinel is
/// cleaned to itself.
pub proof fn lemma_applicable(text: Seq<char>)
    requires
        text.len() > 0,
        !is_space(text[0]),
        !is_space(text.last()),
        text != "-"@,
        text != "S-1-0-0"@,
    ensures
        cleaned(text) == Some(text),
{
}

/// A cleaned value has no whitespace at its ends, is neither empty nor a
/// sentinel, and cleaning it again changes nothing.
pub proof fn cleaning_is_idempotent(value: Seq<char>)
    ensures
        cleaned(value) matches Some(text) ==> {
            &&& text.len() > 0
            &&& !is_space(text[0])
            &&& !is_space(text.last())
            &&& text != "-"@
            &&& text != "S-1-0-0"@
            &&& cleaned(text) == Some(text)
        },
{
    let start = trimmed_start(value);
    lemma_trimmed_start(value);
    lemma_trimmed_end(start);
    if start.len() > 0 {
        lemma_trimmed_end_keeps_start(start);
        lemma_trimmed_start(trimmed(value));
    }
}

/// A value is applicable unless, without the whitespace at its ends, it is empty,
/// `-` or the null SID; as a message the null SID stands.
pub proof fn values_are_applicable_but_for_sentinels(
    before: Seq<char>,
    text: Seq<char>,
    behind: Seq<char>,
)
    requires
        is_blank(before),
        is_blank(behind),
        text.len() > 0 ==> !is_space(text[0]) && !is_space(text.last()),
    ensures
        text.len() == 0 || text == "-"@ ==> {
            &&& cleaned(before + text + behind) is None
            &&& stated(before + text + behind) is None
        },
        text == "S-1-0-0"@ ==> {
            &&& cleaned(before + text + behind) is None
            &&& stated(before + text + behind) == Some(text)
        },
        text.len() > 0 && text != "-"@ && text != "S-1-0-0"@ ==> {
            &&& cleaned(before + text + behind) == Some(text)
            &&& stated(before + text + behind) == Some(text)
        },
{
    reveal_strlit("-");
    reveal_strlit("S-1-0-0");
    trimming_takes_the_whitespace(before, text, behind);
    assert("-"@.len() == 1 && "S-1-0-0"@.len() == 7);
}

/// Each format is mapped by its own rules: a syslog line always becomes an event,
/// an NDJSON line does where it is a JSON document with an event ID.
pub proof fn each_format_has_its_mapping(raw: Seq<char>, current: UtcTime)
    ensures
        transformed(Format::Syslog, raw, current) == Ok::<_, TransformError>(
            syslog::syslog_event(raw, current),
        ),
        transformed(Format::Ndjson, raw, current) == windows::windows_event(raw, current),
{
}

/// A value that is absent stays so, one that is there is cleaned as it is, and of
/// two values the second counts where the first is absent.
pub proof fn absent_values_stay_absent(value: Seq<char>, other: Option<Seq<char>>)
    ensures
        cleaned_option(None) is None,
        cleaned_option(Some(value)) == cleaned(value),
        stated_option(None) is None,
        stated_option(Some(value)) == stated(value),
        or_else(Some(value), other) == Some(value),
        or_else(None, other) == other,
{
}

/// An event is viewed by its fields, each as it is.
pub proof fn events_are_viewed_by_their_fields(event: NormalizedEvent)
    ensures
        event@.timestamp == event.timestamp@,
        event@.event_type == event.event_type,
        event@.event_category == event.event_category,
        event@.event_outcome == event.event_outcome,
        event@.source_ip is Some <==> event.source_ip is Some,
        event.source_ip matches Some(s) ==> event@.source_ip == Some(s@),
        event@.user_name is Some <==> event.user_name is Some,
        event.user_name matches Some(s) ==> event@.user_name == Some(s@),
        event@.host_name is Some <==> event.host_name is Some,
        event.host_name matches Some(s) ==> event@.host_name == Some(s@),
        event@.log_level is Some <==> event.log_level is Some,
        event.log_level matches Some(s) ==> event@.log_level == Some(s@),
        event@.message == event.message@,
        result_view(Ok(event)) == Ok::<_, TransformError>(event@),
        forall|error: TransformError| #[trigger]
            result_view(Err(error)) == Err::<EventModel, _>(error),
{
}

} // verus!
