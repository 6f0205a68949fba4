//! Windows Event Log (NDJSON) to [`NormalizedEvent`].
//!
//! Input is one Windows event per line as JSON. The data is deeply nested and
//! only partially present per event: [`read_record`] picks out the fields that
//! the mapping reads, by JSON pointer, and the mapping works on those.

use serde_json::Value;
use vstd::prelude::*;

use crate::clock::{
    epoch, format_utc, has_head_shape, has_iso_shape, has_places, head_text, in_utc, is_timestamp,
    iso_text, now, parse_rfc3339, parsed_rfc3339, rfc3339_local_text, rfc3339_text,
    spells_rfc3339, timestamps_are_rfc3339, timestamps_have_the_iso_shape, truncated, UtcTime,
    TIMESTAMP_LAYOUT,
};
use crate::json::{
    i64_at, integer_at, json_nodes, parse_json, parsed_json, str_at, strings_are_read_from_arrays,
    strs_at, text_at, texts_at, JsonNode,
};
use crate::text::{
    ascii_lower, is_ascii_text, is_space, lowercase, same, string_option_view, unicode_lowercase,
    views,
};
use crate::transform::{
    clean, clean_message, cleaned, cleaned_option, cleaning_is_idempotent, lemma_applicable,
    or_else, result_view, stated_option, EventCategory, EventModel, EventOutcome, EventType,
    NormalizedEvent, TransformError,
};

verus! {

/// The fields of a Windows event that the mapping reads.
#[derive(Debug, Clone, PartialEq, Eq)]
pub struct WindowsRecord {
    /// `System.EventID`, where it is an integer.
    pub event_id: Option<i64>,
    /// `System.TimeCreated`.
    pub time_created: Option<String>,
    /// `System.Computer`.
    pub computer: Option<String>,
    /// `System.Provider.Name`.
    pub provider: Option<String>,
    /// `EventData.IpAddress`.
    pub ip_address: Option<String>,
    /// `OpenWEC.IpAddress`.
    pub collector_ip_address: Option<String>,
    /// `EventData.TargetUserName`.
    pub target_user: Option<String>,
    /// `EventData.SubjectUserName`.
    pub subject_user: Option<String>,
    /// The strings of `RenderingInfo.Keywords`.
    pub keywords: Vec<String>,
    /// `RenderingInfo.Level`.
    pub level: Option<String>,
    /// `RenderingInfo.Message`.
    pub message: Option<String>,
}

/// The contents of a [`WindowsRecord`].
#[verifier::ext_equal]
pub struct RecordModel {
    pub event_id: Option<i64>,
    pub time_created: Option<Seq<char>>,
    pub computer: Option<Seq<char>>,
    pub provider: Option<Seq<char>>,
    pub ip_address: Option<Seq<char>>,
    pub collector_ip_address: Option<Seq<char>>,
    pub target_user: Option<Seq<char>>,
    pub subject_user: Option<Seq<char>>,
    pub keywords: Seq<Seq<char>>,
    pub level: Option<Seq<char>>,
    pub message: Option<Seq<char>>,
}

impl View for WindowsRecord {
    type V = RecordModel;

    open spec fn view(&self) -> RecordModel {
        RecordModel {
            event_id: self.event_id,
            time_created: string_option_view(self.time_created),
            computer: string_option_view(self.computer),
            provider: string_option_view(self.provider),
            ip_address: string_option_view(self.ip_address),
            collector_ip_address: string_option_view(self.collector_ip_address),
            target_user: string_option_view(self.target_user),
            subject_user: string_option_view(self.subject_user),
            keywords: views(self.keywords@),
            level: string_option_view(self.level),
            message: string_option_view(self.message),
        }
    }
}

/// The fields of a document that the mapping reads.
pub open spec fn record_of(nodes: Map<Seq<char>, JsonNode>) -> RecordModel {
    RecordModel {
        event_id: integer_at(nodes, "/System/EventID"@),
        time_created: text_at(nodes, "/System/TimeCreated"@),
        computer: text_at(nodes, "/System/Computer"@),
        provider: text_at(nodes, "/System/Provider/Name"@),
        ip_address: text_at(nodes, "/EventData/IpAddress"@),
        collector_ip_address: text_at(nodes, "/OpenWEC/IpAddress"@),
        target_user: text_at(nodes, "/EventData/TargetUserName"@),
        subject_user: text_at(nodes, "/EventData/SubjectUserName"@),
        keywords: texts_at(nodes, "/RenderingInfo/Keywords"@),
        level: text_at(nodes, "/RenderingInfo/Level"@),
        message: text_at(nodes, "/RenderingInfo/Message"@),
    }
}

/// `event.type` of an event ID: logons, failed logons and process creation
/// start something, logoffs and process exit end it, anything else informs.
pub open spec fn type_of_id(event_id: int) -> EventType {
    if event_id == 4624 || event_id == 4625 || event_id == 4648 || event_id == 4688 {
        EventType::Start
    } else if event_id == 4634 || event_id == 4647 || event_id == 4689 {
        EventType::End
    } else {
        EventType::Info
    }
}

/// `event.category` of an event ID: logons and logoffs are authentication,
/// process creation and exit are processes, anything else concerns the host.
pub open spec fn category_of_id(event_id: int) -> EventCategory {
    if event_id == 4624 || event_id == 4625 || event_id == 4634 || event_id == 4647 || event_id
        == 4648 {
        EventCategory::Authentication
    } else if event_id == 4688 || event_id == 4689 {
        EventCategory::Process
    } else {
        EventCategory::Host
    }
}

/// `event.outcome` of the audit keywords; success goes before failure.
pub open spec fn outcome_of_keywords(keywords: Seq<Seq<char>>) -> EventOutcome {
    if keywords.contains("Audit Success"@) {
        EventOutcome::Success
    } else if keywords.contains("Audit Failure"@) {
        EventOutcome::Failure
    } else {
        EventOutcome::Unknown
    }
}

/// `log.level` of a level: `Information` is `info`, any other is lowercased.
pub open spec fn level_of(level: Option<Seq<char>>) -> Option<Seq<char>> {
    match cleaned_option(level) {
        Some(text) => Some(
            if text == "Information"@ {
                "info"@
            } else {
                lowercase(text)
            },
        ),
        None => None,
    }
}

/// `message` of an event: its own, else the provider's name, else a default.
pub open spec fn message_of(record: RecordModel) -> Seq<char> {
    match or_else(stated_option(record.message), stated_option(record.provider)) {
        Some(text) => text,
        None => "Windows event"@,
    }
}

/// `@timestamp` of an event that says it was created at a time: that time, or
/// the current time where it says none that can be read.
pub open spec fn timestamp_of(time_created: Option<Seq<char>>, current: UtcTime) -> Seq<char> {
    match time_created {
        Some(text) => match parsed_rfc3339(text) {
            Some(t) => iso_text(t),
            None => iso_text(current),
        },
        None => iso_text(current),
    }
}

/// The event that a record with a timestamp is mapped to.
pub open spec fn normalized(record: RecordModel, timestamp: Seq<char>) -> Result<
    EventModel,
    TransformError,
> {
    match record.event_id {
        None => Err(TransformError::MissingEventId),
        Some(event_id) => Ok(
            EventModel {
                timestamp,
                event_type: type_of_id(event_id as int),
                event_category: category_of_id(event_id as int),
                event_outcome: outcome_of_keywords(record.keywords),
                source_ip: or_else(
                    cleaned_option(record.ip_address),
                    cleaned_option(record.collector_ip_address),
                ),
                user_name: or_else(
                    cleaned_option(record.target_user),
                    cleaned_option(record.subject_user),
                ),
                host_name: cleaned_option(record.computer),
                log_level: level_of(record.level),
                message: message_of(record),
            },
        ),
    }
}

/// The event that a line is mapped to when the clock shows `current`.
pub open spec fn windows_event(raw: Seq<char>, current: UtcTime) -> Result<
    EventModel,
    TransformError,
> {
    match parsed_json(raw) {
        None => Err(TransformError::InvalidJson),
        Some(nodes) => normalized(
            record_of(nodes),
            timestamp_of(record_of(nodes).time_created, current),
        ),
    }
}

/// Why a line cannot be mapped, if it cannot: it is not JSON, or its
/// `System.EventID` is missing.
pub open spec fn failure_of(raw: Seq<char>) -> Option<TransformError> {
    match parsed_json(raw) {
        None => Some(TransformError::InvalidJson),
        Some(nodes) => if record_of(nodes).event_id is None {
            Some(TransformError::MissingEventId)
        } else {
            None
        },
    }
}

/// True when a timestamp keeps the time that an event says it was created at: a
/// time that is written in UTC stays the same to the millisecond, one that is
/// already rendered stays as it is, and one with an offset is brought to UTC.
pub open spec fn keeps_time(time_created: Option<Seq<char>>, timestamp: Seq<char>) -> bool {
    &&& forall|t: UtcTime, places: nat|
        t.plain() && has_places(t, places) && time_created == Some(
            #[trigger] rfc3339_text(t, places),
        ) ==> timestamp == iso_text(t)
    &&& forall|t: UtcTime|
        t.plain() && time_created == Some(#[trigger] iso_text(t)) ==> timestamp == iso_text(t)
    &&& forall|local: UtcTime, places: nat, offset: int|
        local.plain() && has_places(local, places) && -1440 < offset < 1440 && time_created
            == Some(#[trigger] rfc3339_local_text(local, places, offset)) ==> timestamp
            == iso_text(in_utc(local, offset))
    &&& forall|local: UtcTime, offset: int|
        local.plain() && -1440 < offset < 1440 && time_created is Some
            && #[trigger] spells_rfc3339(time_created->Some_0, local, offset) ==> timestamp
            == iso_text(in_utc(local, offset))
}

/// True when a timestamp is the current time where an event says no time that can
/// be read: none at all, one without the shape of a date and time of day, one
/// with a date or time of day that there is not, or any other text that spells no
/// time in RFC 3339.
pub open spec fn falls_back(
    time_created: Option<Seq<char>>,
    current: UtcTime,
    timestamp: Seq<char>,
) -> bool {
    match time_created {
        None => timestamp == iso_text(current),
        Some(text) => {
            &&& !has_head_shape(text) ==> timestamp == iso_text(current)
            &&& forall|t: UtcTime|
                t.writable() && !t.possible() && text.len() >= 19 && text.take(19)
                    == #[trigger] head_text(t) ==> timestamp == iso_text(current)
            &&& (forall|local: UtcTime, offset: int|
                local.plain() && -1440 < offset < 1440 ==> !#[trigger] spells_rfc3339(
                    text,
                    local,
                    offset,
                )) ==> timestamp == iso_text(current)
        },
    }
}

/// True when the timestamp of a line, mapped while the clock shows `current`, is
/// the one of an instant and keeps the time that the event says it was created
/// at, or is the current time where it says none.
pub open spec fn timely(raw: Seq<char>, current: UtcTime) -> bool {
    windows_event(raw, current) matches Ok(event) ==> {
        let created = record_of(parsed_json(raw)->Some_0).time_created;
        &&& is_timestamp(event.timestamp)
        &&& keeps_time(created, event.timestamp)
        &&& falls_back(created, current, event.timestamp)
    }
}

/// Maps one Windows event.
///
/// Fails where the line is not JSON, and where `System.EventID` is missing.
pub fn parse(raw: &str) -> (r: Result<NormalizedEvent, TransformError>)
    ensures
        exists|current: UtcTime|
            #[trigger] current.shown() && result_view(r) == windows_event(raw@, current)
                && timely(raw@, current),
        match failure_of(raw@) {
            Some(error) => r == Err::<NormalizedEvent, _>(error),
            None => r is Ok && is_timestamp(r->Ok_0.timestamp@) && keeps_time(
                record_of(parsed_json(raw@)->Some_0).time_created,
                r->Ok_0.timestamp@,
            ),
        },
{
    match parse_json(raw) {
        Err(_) => {
            proof {
                assert(epoch().shown());
            }
            Err(TransformError::InvalidJson)
        },
        Ok(root) => {
            let record = read_record(&root);
            if record.event_id.is_none() {
                proof {
                    assert(epoch().shown());
                }
                return Err(TransformError::MissingEventId);
            }
            let timestamp = timestamp(&record);
            normalize(&record, timestamp)
        },
    }
}

/// Picks out of a document the fields that the mapping reads.
fn read_record(root: &Value) -> (r: WindowsRecord)
    ensures
        r@ == record_of(json_nodes(*root)),
{
    WindowsRecord {
        event_id: i64_at(root, "/System/EventID"),
        time_created: str_at(root, "/System/TimeCreated"),
        computer: str_at(root, "/System/Computer"),
        provider: str_at(root, "/System/Provider/Name"),
        ip_address: str_at(root, "/EventData/IpAddress"),
        collector_ip_address: str_at(root, "/OpenWEC/IpAddress"),
        target_user: str_at(root, "/EventData/TargetUserName"),
        subject_user: str_at(root, "/EventData/SubjectUserName"),
        keywords: strs_at(root, "/RenderingInfo/Keywords"),
        level: str_at(root, "/RenderingInfo/Level"),
        message: str_at(root, "/RenderingInfo/Message"),
    }
}

/// Maps the fields of an event, given its timestamp.
///
/// Fails where the event has no ID.
pub fn normalize(record: &WindowsRecord, timestamp: String) -> (r: Result<
    NormalizedEvent,
    TransformError,
>)
    ensures
        result_view(r) == normalized(record@, timestamp@),
{
    match record.event_id {
        None => Err(TransformError::MissingEventId),
        Some(event_id) => Ok(
            NormalizedEvent {
                timestamp,
                event_type: event_type(event_id),
                event_category: event_category(event_id),
                event_outcome: outcome(record),
                source_ip: source_ip(record),
                user_name: user_name(record),
                host_name: clean(&record.computer),
                log_level: log_level(record),
                message: message(record),
            },
        ),
    }
}

/// Renders `System.TimeCreated` (RFC 3339) as UTC millisecond ISO 8601. Falls
/// back to the current time if absent or unparseable.
pub fn timestamp(record: &WindowsRecord) -> (r: String)
    ensures
        exists|current: UtcTime|
            #[trigger] current.shown() && r@ == timestamp_of(record@.time_created, current)
                && falls_back(record@.time_created, current, r@),
        is_timestamp(r@),
        keeps_time(record@.time_created, r@),
{
    let created = time_created(record);
    proof {
        lemma_own_timestamps_are_read(record@, created);
    }
    match created {
        Some(t) => {
            assert(epoch().shown());
            format_utc(&t, TIMESTAMP_LAYOUT)
        },
        None => {
            let current = now();
            assert(current.shown());
            format_utc(&current, TIMESTAMP_LAYOUT)
        },
    }
}

/// [`timestamp`] when the clock shows `current`.
pub fn timestamp_at(record: &WindowsRecord, current: &UtcTime) -> (r: String)
    requires
        current.valid(),
    ensures
        r@ == timestamp_of(record@.time_created, *current),
        is_timestamp(r@),
        keeps_time(record@.time_created, r@),
        falls_back(record@.time_created, *current, r@),
{
    let created = time_created(record);
    proof {
        lemma_own_timestamps_are_read(record@, created);
    }
    match created {
        Some(t) => format_utc(&t, TIMESTAMP_LAYOUT),
        None => format_utc(current, TIMESTAMP_LAYOUT),
    }
}

proof fn lemma_own_timestamps_are_read(record: RecordModel, created: Option<UtcTime>)
    requires
        forall|t: UtcTime, places: nat|
            t.plain() && has_places(t, places) && record.time_created == Some(
                #[trigger] rfc3339_text(t, places),
            ) ==> created == Some(t),
    ensures
        forall|t: UtcTime|
            t.plain() && record.time_created == Some(#[trigger] iso_text(t)) ==> created is Some
                && iso_text(created->Some_0) == iso_text(t),
{
    assert forall|t: UtcTime|
        t.plain() && record.time_created == Some(#[trigger] iso_text(t)) implies created is Some
        && iso_text(created->Some_0) == iso_text(t) by {
        timestamps_are_rfc3339(t);
        assert(rfc3339_text(truncated(t), 3) == iso_text(t));
    }
}

/// The instant of `System.TimeCreated`.
fn time_created(record: &WindowsRecord) -> (r: Option<UtcTime>)
    ensures
        r == match record@.time_created {
            Some(text) => parsed_rfc3339(text),
            None => None,
        },
        r matches Some(t) ==> t.valid(),
        forall|t: UtcTime, places: nat|
            t.plain() && has_places(t, places) && record@.time_created == Some(
                #[trigger] rfc3339_text(t, places),
            ) ==> r == Some(t),
        forall|local: UtcTime, places: nat, offset: int|
            local.plain() && has_places(local, places) && -1440 < offset < 1440
                && record@.time_created == Some(
                #[trigger] rfc3339_local_text(local, places, offset),
            ) ==> r == Some(in_utc(local, offset)),
        record@.time_created matches Some(text) ==> {
            &&& !has_head_shape(text) ==> r is None
            &&& forall|t: UtcTime|
                t.writable() && !t.possible() && text.len() >= 19 && text.take(19)
                    == #[trigger] head_text(t) ==> r is None
            &&& forall|local: UtcTime, offset: int|
                local.plain() && -1440 < offset < 1440 && #[trigger] spells_rfc3339(
                    text,
                    local,
                    offset,
                ) ==> r == Some(in_utc(local, offset))
            &&& r is Some ==> exists|local: UtcTime, offset: int|
                local.plain() && -1440 < offset < 1440 && #[trigger] spells_rfc3339(
                    text,
                    local,
                    offset,
                )
        },
{
    match &record.time_created {
        Some(text) => parse_rfc3339(text.as_str()),
        None => None,
    }
}

/// Maps an event ID to `event.type`.
pub fn event_type(event_id: i64) -> (r: EventType)
    ensures
        r == type_of_id(event_id as int),
{
    match event_id {
        4624 | 4648 | 4625 | 4688 => EventType::Start,
        4634 | 4647 | 4689 => EventType::End,
        _ => EventType::Info,
    }
}

/// Maps an event ID to `event.category`.
pub fn event_category(event_id: i64) -> (r: EventCategory)
    ensures
        r == category_of_id(event_id as int),
{
    match event_id {
        4624 | 4625 | 4634 | 4647 | 4648 => EventCategory::Authentication,
        4688 | 4689 => EventCategory::Process,
        _ => EventCategory::Host,
    }
}

/// True when one of the audit keywords is `keyword`.
fn has_keyword(record: &WindowsRecord, keyword: &str) -> (r: bool)
    ensures
        r == record@.keywords.contains(keyword@),
{
    let mut i: usize = 0;
    while i < record.keywords.len()
        invariant
            i <= record.keywords@.len(),
            forall|j: int| 0 <= j < i ==> #[trigger] record@.keywords[j] != keyword@,
        decreases record.keywords@.len() - i,
    {
        if same(record.keywords[i].as_str(), keyword) {
            assert(record@.keywords[i as int] == keyword@);
            return true;
        }
        i += 1;
    }
    false
}

/// Derives outcome from `RenderingInfo.Keywords`.
pub fn outcome(record: &WindowsRecord) -> (r: EventOutcome)
    ensures
        r == outcome_of_keywords(record@.keywords),
{
    if has_keyword(record, "Audit Success") {
        EventOutcome::Success
    } else if has_keyword(record, "Audit Failure") {
        EventOutcome::Failure
    } else {
        EventOutcome::Unknown
    }
}

/// Prefers `EventData.IpAddress`, falling back to `OpenWEC.IpAddress`.
pub fn source_ip(record: &WindowsRecord) -> (r: Option<String>)
    ensures
        string_option_view(r) == or_else(
            cleaned_option(record@.ip_address),
            cleaned_option(record@.collector_ip_address),
        ),
{
    match clean(&record.ip_address) {
        Some(ip) => Some(ip),
        None => clean(&record.collector_ip_address),
    }
}

/// Prefers `EventData.TargetUserName`, falling back to `EventData.SubjectUserName`.
pub fn user_name(record: &WindowsRecord) -> (r: Option<String>)
    ensures
        string_option_view(r) == or_else(
            cleaned_option(record@.target_user),
            cleaned_option(record@.subject_user),
        ),
{
    match clean(&record.target_user) {
        Some(user) => Some(user),
        None => clean(&record.subject_user),
    }
}

/// Normalizes `RenderingInfo.Level` (`Information` becomes `info`, any other is
/// lowercased).
pub fn log_level(record: &WindowsRecord) -> (r: Option<String>)
    ensures
        string_option_view(r) == level_of(record@.level),
{
    match clean(&record.level) {
        Some(level) => if same(level.as_str(), "Information") {
            Some("info".to_owned())
        } else {
            Some(level.as_str().to_lowercase())
        },
        None => None,
    }
}

/// Uses `RenderingInfo.Message`, falling back to the provider name then a default.
pub fn message(record: &WindowsRecord) -> (r: String)
    ensures
        r@ == message_of(record@),
{
    match own_text(&record.message) {
        Some(text) => text,
        None => match own_text(&record.provider) {
            Some(name) => name,
            None => "Windows event".to_owned(),
        },
    }
}

/// [`clean_message`] of a value that may be absent.
fn own_text(value: &Option<String>) -> (r: Option<String>)
    ensures
        string_option_view(r) == stated_option(string_option_view(*value)),
{
    match value {
        Some(text) => clean_message(text.as_str()),
        None => None,
    }
}

// ---------------------------------------------------------------------------
// Laws
// ---------------------------------------------------------------------------

/// Rendering a rendered timestamp again changes nothing, where its year has four
/// digits: a timestamp that keeps the time it was made of is that time.
pub proof fn rendering_is_idempotent(first: Seq<char>, second: Seq<char>)
    requires
        is_timestamp(first),
        has_iso_shape(first),
        keeps_time(Some(first), second),
    ensures
        second == first,
{
    let t = choose|t: UtcTime| t.valid() && first == #[trigger] iso_text(t);
    timestamps_have_the_iso_shape(t);
}

/// Identity management events, 4720 to 4767, inform about the host.
pub proof fn identity_events_inform_about_the_host(event_id: int)
    requires
        4720 <= event_id <= 4767,
    ensures
        type_of_id(event_id) == EventType::Info,
        category_of_id(event_id) == EventCategory::Host,
{
}

proof fn lemma_lower_levels_are_applicable(level: Seq<char>)
    requires
        cleaned(level) == Some(level),
        is_ascii_text(level),
    ensures
        cleaned(lowercase(level)) == Some(lowercase(level)),
{
    reveal_strlit("-");
    reveal_strlit("S-1-0-0");
    cleaning_is_idempotent(level);
    let lower = lowercase(level);
    let last = level.len() - 1;
    assert(lower[0] == ascii_lower(level[0]));
    assert(lower[last] == ascii_lower(level[last]));
    assert(!is_space(lower[0]) && !is_space(lower.last()));
    if lower == "-"@ {
        assert(level[0] == '-');
        assert(level =~= "-"@);
    }
    assert("S-1-0-0"@[0] == 'S');
    assert(lower[0] != 'S');
    lemma_applicable(lower);
}

/// The optional fields of an event never hold a value that means "not
/// applicable"; a level that means it gives no level, and any other ASCII level
/// is lowercased to an applicable one.
pub proof fn sentinels_are_omitted(record: RecordModel, timestamp: Seq<char>)
    ensures
        normalized(record, timestamp) matches Ok(event) ==> {
            &&& event.log_level is Some <==> cleaned_option(record.level) is Some
            &&& event.log_level matches Some(text) ==> (is_ascii_text(
                cleaned_option(record.level)->Some_0,
            ) ==> cleaned(text) == Some(text))
            &&& event.source_ip matches Some(text) ==> cleaned(text) == Some(text)
            &&& event.user_name matches Some(text) ==> cleaned(text) == Some(text)
            &&& event.host_name matches Some(text) ==> cleaned(text) == Some(text)
        },
{
    if let Some(level) = cleaned_option(record.level) {
        cleaning_is_idempotent(record.level->Some_0);
        reveal_strlit("info");
        reveal_strlit("-");
        reveal_strlit("S-1-0-0");
        assert("info"@[0] == 'i' && "info"@[3] == 'o' && "info"@.len() == 4);
        lemma_applicable("info"@);
        if is_ascii_text(level) {
            lemma_lower_levels_are_applicable(level);
        }
    }
    if let Some(text) = record.ip_address {
        cleaning_is_idempotent(text);
    }
    if let Some(text) = record.collector_ip_address {
        cleaning_is_idempotent(text);
    }
    if let Some(text) = record.target_user {
        cleaning_is_idempotent(text);
    }
    if let Some(text) = record.subject_user {
        cleaning_is_idempotent(text);
    }
    if let Some(text) = record.computer {
        cleaning_is_idempotent(text);
    }
}

/// A line that is not JSON fails, and so does a document without an integer at
/// `System.EventID`; any other document becomes an event.
pub proof fn documents_without_event_id_fail(raw: Seq<char>, current: UtcTime)
    ensures
        parsed_json(raw) is None ==> windows_event(raw, current) == Err::<EventModel, _>(
            TransformError::InvalidJson,
        ),
        parsed_json(raw) matches Some(nodes) ==> {
            let id = integer_at(nodes, "/System/EventID"@);
            &&& id is None ==> windows_event(raw, current) == Err::<EventModel, _>(
                TransformError::MissingEventId,
            )
            &&& id is Some ==> windows_event(raw, current) is Ok
        },
{
}

/// The event ID decides type and category: logons, failed logons and process
/// creation start, logoffs and process exit end, and nothing else does; the former
/// concern authentication or processes, anything else the host.
pub proof fn event_ids_decide(raw: Seq<char>, current: UtcTime, nodes: Map<Seq<char>, JsonNode>)
    requires
        parsed_json(raw) == Some(nodes),
    ensures
        windows_event(raw, current) matches Ok(event) ==> {
            let id = integer_at(nodes, "/System/EventID"@)->Some_0;
            &&& event.event_type == EventType::Start <==> set![4624i64, 4625, 4648, 4688].contains(
                id,
            )
            &&& event.event_type == EventType::End <==> set![4634i64, 4647, 4689].contains(id)
            &&& event.event_type != EventType::Denied && event.event_type != EventType::Allowed
            &&& event.event_category == EventCategory::Process <==> set![4688i64, 4689].contains(id)
            &&& event.event_category == EventCategory::Authentication <==> set![
                4624i64,
                4625,
                4634,
                4647,
                4648,
            ].contains(id)
            &&& event.event_category != EventCategory::Network
        },
{
}

/// The audit keywords decide the outcome, success before failure.
pub proof fn audit_keywords_decide(
    raw: Seq<char>,
    current: UtcTime,
    nodes: Map<Seq<char>, JsonNode>,
)
    requires
        parsed_json(raw) == Some(nodes),
    ensures
        windows_event(raw, current) matches Ok(event) ==> {
            let place = "/RenderingInfo/Keywords"@;
            let keywords = if nodes.contains_key(place) && nodes[place] is List {
                nodes[place]->List_0
            } else {
                Seq::empty()
            };
            let good = keywords.contains(JsonNode::Text("Audit Success"@));
            let bad = keywords.contains(JsonNode::Text("Audit Failure"@));
            &&& good ==> event.event_outcome == EventOutcome::Success
            &&& bad && !good ==> event.event_outcome == EventOutcome::Failure
            &&& !bad && !good ==> event.event_outcome == EventOutcome::Unknown
        },
{
    strings_are_read_from_arrays(nodes, "/RenderingInfo/Keywords"@, "Audit Success"@);
    strings_are_read_from_arrays(nodes, "/RenderingInfo/Keywords"@, "Audit Failure"@);
}

/// An address, a user or a host is the applicable string at its place in the
/// document; where there is none, the address of the collector stands for the
/// address, and the subject for the target.
pub proof fn names_come_from_their_places(
    raw: Seq<char>,
    current: UtcTime,
    nodes: Map<Seq<char>, JsonNode>,
)
    requires
        parsed_json(raw) == Some(nodes),
    ensures
        windows_event(raw, current) matches Ok(event) ==> {
            let ip = cleaned_option(text_at(nodes, "/EventData/IpAddress"@));
            let collector = cleaned_option(text_at(nodes, "/OpenWEC/IpAddress"@));
            let target = cleaned_option(text_at(nodes, "/EventData/TargetUserName"@));
            let subject = cleaned_option(text_at(nodes, "/EventData/SubjectUserName"@));
            &&& ip is Some ==> event.source_ip == ip
            &&& ip is None ==> event.source_ip == collector
            &&& target is Some ==> event.user_name == target
            &&& target is None ==> event.user_name == subject
            &&& event.host_name == cleaned_option(text_at(nodes, "/System/Computer"@))
        },
{
}

/// The message is the one of the document, where it is stated, else the name of
/// the provider, else a default.
pub proof fn messages_come_from_their_places(
    raw: Seq<char>,
    current: UtcTime,
    nodes: Map<Seq<char>, JsonNode>,
)
    requires
        parsed_json(raw) == Some(nodes),
    ensures
        windows_event(raw, current) matches Ok(event) ==> {
            let own = stated_option(text_at(nodes, "/RenderingInfo/Message"@));
            let provider = stated_option(text_at(nodes, "/System/Provider/Name"@));
            &&& own is Some ==> event.message == own->Some_0
            &&& own is None && provider is Some ==> event.message == provider->Some_0
            &&& own is None && provider is None ==> event.message == "Windows event"@
        },
{
}

/// The level `Information` becomes `info`. Any other applicable level is brought
/// to lower case: in ASCII, each of `A` to `Z` becomes the letter of `a` to `z`
/// and any other character stays. A level that is not applicable gives none.
pub proof fn levels_are_lowercased(
    raw: Seq<char>,
    current: UtcTime,
    nodes: Map<Seq<char>, JsonNode>,
)
    requires
        parsed_json(raw) == Some(nodes),
    ensures
        windows_event(raw, current) matches Ok(event) ==> match cleaned_option(
            text_at(nodes, "/RenderingInfo/Level"@),
        ) {
            None => event.log_level is None,
            Some(level) => {
                &&& event.log_level is Some
                &&& level == "Information"@ ==> event.log_level == Some("info"@)
                &&& level != "Information"@ && is_ascii_text(level) ==> {
                    let lower = event.log_level->Some_0;
                    &&& lower.len() == level.len()
                    &&& forall|i: int|
                        0 <= i < level.len() ==> (#[trigger] lower[i] as int) == if 'A' <= level[i]
                            <= 'Z' {
                            level[i] as int + 32
                        } else {
                            level[i] as int
                        }
                }
                &&& level != "Information"@ && !is_ascii_text(level) ==> event.log_level == Some(
                    unicode_lowercase(level),
                )
            },
        },
{
    if let Some(level) = cleaned_option(text_at(nodes, "/RenderingInfo/Level"@)) {
        if is_ascii_text(level) {
            let lower = lowercase(level);
            assert forall|i: int| 0 <= i < level.len() implies (#[trigger] lower[i] as int)
                == if 'A' <= level[i] <= 'Z' {
                level[i] as int + 32
            } else {
                level[i] as int
            } by {
                assert(lower[i] == ascii_lower(level[i]));
            }
        }
    }
}

/// The time of a document is kept, in any spelling of RFC 3339, and brought to
/// UTC.
pub proof fn times_of_a_document_are_kept(
    raw: Seq<char>,
    current: UtcTime,
    nodes: Map<Seq<char>, JsonNode>,
    local: UtcTime,
    offset: int,
)
    requires
        timely(raw, current),
        parsed_json(raw) == Some(nodes),
        text_at(nodes, "/System/TimeCreated"@) matches Some(text) && spells_rfc3339(
            text,
            local,
            offset,
        ),
        local.plain(),
        -1440 < offset < 1440,
    ensures
        windows_event(raw, current) matches Ok(event) ==> event.timestamp == iso_text(
            in_utc(local, offset),
        ),
{
}

/// The timestamp of a document is the current time where it says no time that is
/// spelled in RFC 3339.
pub proof fn documents_without_time_have_the_current_time(
    raw: Seq<char>,
    current: UtcTime,
    nodes: Map<Seq<char>, JsonNode>,
)
    requires
        timely(raw, current),
        parsed_json(raw) == Some(nodes),
        text_at(nodes, "/System/TimeCreated"@) matches Some(text) ==> forall|
            local: UtcTime,
            offset: int,
        |
            local.plain() && -1440 < offset < 1440 ==> !#[trigger] spells_rfc3339(
                text,
                local,
                offset,
            ),
    ensures
        windows_event(raw, current) matches Ok(event) ==> event.timestamp == iso_text(current),
{
}

/// A record is viewed by its fields, each as it is.
pub proof fn records_are_viewed_by_their_fields(record: WindowsRecord)
    ensures
        record@.event_id == record.event_id,
        record@.time_created is Some <==> record.time_created is Some,
        record.time_created matches Some(s) ==> record@.time_created == Some(s@),
        record@.computer is Some <==> record.computer is Some,
        record.computer matches Some(s) ==> record@.computer == Some(s@),
        record@.provider is Some <==> record.provider is Some,
        record.provider matches Some(s) ==> record@.provider == Some(s@),
        record@.ip_address is Some <==> record.ip_address is Some,
        record.ip_address matches Some(s) ==> record@.ip_address == Some(s@),
        record@.collector_ip_address is Some <==> record.collector_ip_address is Some,
        record.collector_ip_address matches Some(s) ==> record@.collector_ip_address == Some(s@),
        record@.target_user is Some <==> record.target_user is Some,
        record.target_user matches Some(s) ==> record@.target_user == Some(s@),
        record@.subject_user is Some <==> record.subject_user is Some,
        record.subject_user matches Some(s) ==> record@.subject_user == Some(s@),
        record@.level is Some <==> record.level is Some,
        record.level matches Some(s) ==> record@.level == Some(s@),
        record@.message is Some <==> record.message is Some,
        record.message matches Some(s) ==> record@.message == Some(s@),
        record@.keywords.len() == record.keywords@.len(),
        forall|i: int|
            0 <= i < record.keywords@.len() ==> #[trigger] record@.keywords[i]
                == record.keywords@[i]@,
{
}

} // verus!
