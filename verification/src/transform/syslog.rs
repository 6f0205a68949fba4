//! RFC 3164 syslog (wrapping CEF) to [`NormalizedEvent`].
//!
//! Wire shape: `<PRI>Mmm dd HH:MM:SS HOST CEF:0|vendor|product|ver|sigid|name|sev|ext`
//! where `ext` is space-separated `key=value` pairs (values may contain spaces).

use vstd::hash_map::StringHashMap;
use vstd::prelude::*;

use crate::clock::{
    behind_year, format_utc, is_short_number, is_timestamp, is_timestamp_in, iso_text, month_name,
    names_month, now, parse_stamp, parsed_stamp, spells_stamp, stamp_of, stamp_text, time_text,
    StampParts, UtcTime, STAMP_LAYOUT, TIMESTAMP_LAYOUT,
};
use crate::number::{
    decimal, digits, is_digit, lemma_digits, numbers_are_read_in_any_spelling,
    other_texts_are_no_numbers, parse_u16, parsed_u16, parsing_inverts_decimal, push_integer,
    value as number_value,
};
use crate::text::{
    absent_text_is_not_found, appended_words_are_split_off, are_gaps, ascii_lower, contains,
    few_pieces_are_split_off, find, first_separator_is_found, found, is_space, is_word, joined,
    lemma_found_from, lowercase, lowercase_option, occurring_text_is_surrounded, occurs_at,
    occurs_in, split_limited, split_n, split_whitespace, splitting_inverts_joining,
    str_option_view, string_option_view, surrounded_text_occurs, the_first_occurrence_is_found,
    to_chars, to_text, trailing_space_adds_no_word, trim, trimmed, views, with_gaps, words,
    words_are_read_back,
};
use crate::transform::{
    clean_message, clean_optional, cleaned, cleaned_option, cleaning_is_idempotent,
    lemma_applicable, or_else, result_view, stated, stated_option, EventCategory, EventModel,
    EventOutcome, EventType, NormalizedEvent, TransformError,
};

verus! {

// ---------------------------------------------------------------------------
// The priority
// ---------------------------------------------------------------------------

/// The priority that leads a line, modulo 256, and what follows it. A line
/// without a priority has priority 13 (user.notice).
pub open spec fn priority_of(raw: Seq<char>) -> (u8, Seq<char>) {
    if raw.len() > 0 && raw[0] == '<' {
        let rest = raw.skip(1);
        match found(rest, seq!['>']) {
            Some(end) => match parsed_u16(rest.take(end)) {
                Some(pri) => ((pri % 256) as u8, rest.skip(end + 1)),
                None => (13, raw),
            },
            None => (13, raw),
        }
    } else {
        (13, raw)
    }
}

/// Splits a leading `<PRI>` off the line, returning the parsed priority (default
/// 13, user.notice) and the remainder.
pub fn strip_pri(raw: &str) -> (r: (u8, &str))
    ensures
        (r.0, r.1@) == priority_of(raw@),
{
    let chars = to_chars(raw);
    if chars.len() > 0 && chars[0] == '<' {
        let n: usize = chars.len();
        let mut rest: Vec<char> = chars;
        let rest = rest.split_off(1);
        assert(rest@ =~= raw@.skip(1));
        let mut close: Vec<char> = Vec::new();
        close.push('>');
        assert(close@ =~= seq!['>']);
        proof {
            lemma_found_from(rest@, close@, 0);
        }
        if let Some(end) = find(&rest, &close) {
            assert(end + 2 <= n);
            let number = to_text(&rest, 0, end);
            assert(number@ =~= rest@.take(end as int));
            if let Some(pri) = parse_u16(number.as_str()) {
                let low: u16 = pri & 0xff;
                assert(pri & 0xff == pri % 256) by (bit_vector);
                let after = raw.substring_char(end + 2, n);
                assert(after@ =~= rest@.skip(end + 1));
                return (low as u8, after);
            }
        }
    }
    (13, raw)
}

/// The standard name of a syslog severity.
pub open spec fn severity_text(severity: int) -> Seq<char> {
    if severity == 0 {
        "emergency"@
    } else if severity == 1 {
        "alert"@
    } else if severity == 2 {
        "critical"@
    } else if severity == 3 {
        "error"@
    } else if severity == 4 {
        "warning"@
    } else if severity == 5 {
        "notice"@
    } else if severity == 6 {
        "info"@
    } else {
        "debug"@
    }
}

/// Maps a syslog severity (PRI & 7) to its standard name.
pub fn severity_name(severity: u8) -> (r: &'static str)
    ensures
        r@ == severity_text(severity as int),
{
    match severity {
        0 => "emergency",
        1 => "alert",
        2 => "critical",
        3 => "error",
        4 => "warning",
        5 => "notice",
        6 => "info",
        _ => "debug",
    }
}

// ---------------------------------------------------------------------------
// The header
// ---------------------------------------------------------------------------

/// The position of the CEF message in a line without its priority.
pub open spec fn cef_position(after: Seq<char>) -> Option<int> {
    found(after, "CEF:"@)
}

/// The RFC 3164 header of a line without its priority: what stands before the
/// CEF message.
pub open spec fn header_of(after: Seq<char>) -> Seq<char> {
    match cef_position(after) {
        Some(at) => after.take(at),
        None => after,
    }
}

/// The timestamp of a header in words: its first three words in the current
/// year, or the current time where they cannot be read as a timestamp.
pub open spec fn header_timestamp(tokens: Seq<Seq<char>>, current: UtcTime) -> Seq<char> {
    if tokens.len() >= 3 {
        match parsed_stamp(
            stamp_text(current.year as int, tokens[0], tokens[1], tokens[2]),
            STAMP_LAYOUT@,
        ) {
            Some(t) => iso_text(t),
            None => iso_text(current),
        }
    } else {
        iso_text(current)
    }
}

/// The host of a header in words: its fourth word.
pub open spec fn header_host(tokens: Seq<Seq<char>>) -> Option<Seq<char>> {
    if tokens.len() >= 4 {
        cleaned(tokens[3])
    } else {
        None
    }
}

/// True when a timestamp keeps the one of a header in words: a well-formed one
/// stands for that second of the current year, in UTC.
pub open spec fn keeps_stamp(
    tokens: Seq<Seq<char>>,
    current: UtcTime,
    timestamp: Seq<char>,
) -> bool {
    &&& forall|t: UtcTime|
        t.plain() && t.whole_second() && t.year == current.year && tokens.len() >= 3
            && #[trigger] stamp_of(t) == stamp_text(
            t.year as int,
            tokens[0],
            tokens[1],
            tokens[2],
        ) ==> timestamp == iso_text(t)
    &&& forall|t: UtcTime|
        t.valid() && t.year == current.year && t.year <= 9999 && tokens.len() >= 3
            && #[trigger] spells_stamp(first_three(tokens), t) ==> timestamp == iso_text(t)
}

/// The first three words, with a space between two.
pub open spec fn first_three(tokens: Seq<Seq<char>>) -> Seq<char> {
    tokens[0] + seq![' '] + tokens[1] + seq![' '] + tokens[2]
}

/// True when a timestamp is the current time where a header in words has none
/// that can be read: fewer than three words, a first word that names no month, a
/// date or time of day that there is not, or any other words that spell no
/// instant of the current year.
pub open spec fn falls_back(
    tokens: Seq<Seq<char>>,
    current: UtcTime,
    timestamp: Seq<char>,
) -> bool {
    &&& tokens.len() < 3 ==> timestamp == iso_text(current)
    &&& tokens.len() >= 3 && is_word(tokens[0]) && !names_month(tokens[0]) ==> timestamp
        == iso_text(current)
    &&& forall|t: UtcTime|
        t.writable() && 1 <= t.month <= 12 && !t.possible() && t.year == current.year
            && tokens.len() >= 3 && #[trigger] stamp_of(t) == stamp_text(
            t.year as int,
            tokens[0],
            tokens[1],
            tokens[2],
        ) ==> timestamp == iso_text(current)
    &&& tokens.len() >= 3 && (current.year > 9999 || forall|t: UtcTime|
        t.valid() && t.year == current.year ==> !#[trigger] spells_stamp(first_three(tokens), t))
        ==> timestamp == iso_text(current)
}

/// Builds an ISO 8601 UTC timestamp from the RFC 3164 `Mmm dd HH:MM:SS` header
/// tokens. RFC 3164 omits the year and timezone, so the current year and UTC are
/// assumed; any parse failure falls back to the current time.
pub fn parse_timestamp(header_tokens: &Vec<String>) -> (r: String)
    ensures
        exists|current: UtcTime|
            #[trigger] current.shown() && r@ == header_timestamp(views(header_tokens@), current)
                && is_timestamp_in(r@, current.year as int) && keeps_stamp(
                views(header_tokens@),
                current,
                r@,
            ) && falls_back(views(header_tokens@), current, r@),
{
    let current = now();
    assert(current.shown());
    parse_timestamp_at(header_tokens, &current)
}

/// [`parse_timestamp`] when the clock shows `current`.
pub fn parse_timestamp_at(header_tokens: &Vec<String>, current: &UtcTime) -> (r: String)
    requires
        current.valid(),
    ensures
        r@ == header_timestamp(views(header_tokens@), *current),
        is_timestamp_in(r@, current.year as int),
        keeps_stamp(views(header_tokens@), *current, r@),
        falls_back(views(header_tokens@), *current, r@),
{
    if header_tokens.len() >= 3 {
        let mut stamp = String::new();
        push_integer(&mut stamp, current.year);
        stamp.push(' ');
        stamp.append(header_tokens[0].as_str());
        stamp.push(' ');
        stamp.append(header_tokens[1].as_str());
        stamp.push(' ');
        stamp.append(header_tokens[2].as_str());
        assert(stamp@ =~= stamp_text(
            current.year as int,
            header_tokens@[0]@,
            header_tokens@[1]@,
            header_tokens@[2]@,
        ));
        assert(stamp@ =~= behind_year(current.year as int, first_three(views(header_tokens@))));
        if let Some(t) = parse_stamp(stamp.as_str(), STAMP_LAYOUT) {
            return format_utc(&t, TIMESTAMP_LAYOUT);
        }
    }
    format_utc(current, TIMESTAMP_LAYOUT)
}

// ---------------------------------------------------------------------------
// Extensions
// ---------------------------------------------------------------------------

/// True for ASCII letters and digits.
pub open spec fn is_alphanumeric(c: char) -> bool {
    'a' <= c <= 'z' || 'A' <= c <= 'Z' || '0' <= c <= '9'
}

/// True for the texts that can be an extension key.
pub open spec fn is_key_text(s: Seq<char>) -> bool {
    s.len() > 0 && forall|i: int| 0 <= i < s.len() ==> is_alphanumeric(#[trigger] s[i])
}

/// Extensions read so far, and the key whose value may go on.
#[verifier::ext_equal]
pub struct ExtensionsModel {
    pub fields: Map<Seq<char>, Seq<char>>,
    pub current: Option<Seq<char>>,
}

/// True when a word starts a field: `key=...`.
pub open spec fn starts_field(word: Seq<char>) -> bool {
    match found(word, seq!['=']) {
        Some(eq) => is_key_text(word.take(eq)),
        None => false,
    }
}

/// Reads one more word: it starts a field, or goes on with the value of the
/// last one, or stands before the first and is passed over.
pub open spec fn read_word(read: ExtensionsModel, word: Seq<char>) -> ExtensionsModel {
    if starts_field(word) {
        let eq = found(word, seq!['='])->Some_0;
        ExtensionsModel {
            fields: read.fields.insert(word.take(eq), word.skip(eq + 1)),
            current: Some(word.take(eq)),
        }
    } else {
        match read.current {
            Some(key) => ExtensionsModel {
                fields: read.fields.insert(key, read.fields[key] + seq![' '] + word),
                current: read.current,
            },
            None => read,
        }
    }
}

/// Reads words from the first to the last.
pub open spec fn read_words(list: Seq<Seq<char>>) -> ExtensionsModel
    decreases list.len(),
{
    if list.len() == 0 {
        ExtensionsModel { fields: Map::empty(), current: None }
    } else {
        read_word(read_words(list.drop_last()), list.last())
    }
}

/// The fields of CEF extensions.
pub open spec fn extensions_of(ext: Seq<char>) -> Map<Seq<char>, Seq<char>> {
    read_words(words(ext)).fields
}

/// The texts of a map of strings.
pub open spec fn map_view(map: Map<Seq<char>, String>) -> Map<Seq<char>, Seq<char>> {
    map.map_values(|s: String| s@)
}

/// True for the texts that can be an extension key.
pub fn is_key(s: &str) -> (r: bool)
    ensures
        r == is_key_text(s@),
        r <==> s@.len() > 0 && forall|i: int|
            0 <= i < s@.len() ==> 'a' <= #[trigger] s@[i] <= 'z' || 'A' <= s@[i] <= 'Z' || '0'
                <= s@[i] <= '9',
{
    let chars = to_chars(s);
    if chars.len() == 0 {
        return false;
    }
    let mut i: usize = 0;
    while i < chars.len()
        invariant
            i <= chars@.len(),
            chars@ == s@,
            forall|j: int| 0 <= j < i ==> is_alphanumeric(#[trigger] chars@[j]),
        decreases chars@.len() - i,
    {
        let c: char = chars[i];
        if !(('a' <= c && c <= 'z') || ('A' <= c && c <= 'Z') || ('0' <= c && c <= '9')) {
            assert(!is_alphanumeric(s@[i as int]));
            return false;
        }
        i += 1;
    }
    true
}

/// Splits a word that starts a field into key and value.
fn split_field(word: &str) -> (r: Option<(String, String)>)
    ensures
        r is Some <==> starts_field(word@),
        r matches Some(field) ==> {
            let eq = found(word@, seq!['='])->Some_0;
            field.0@ == word@.take(eq) && field.1@ == word@.skip(eq + 1)
        },
{
    let chars = to_chars(word);
    let n: usize = chars.len();
    let mut sign: Vec<char> = Vec::new();
    sign.push('=');
    assert(sign@ =~= seq!['=']);
    proof {
        lemma_found_from(chars@, sign@, 0);
    }
    if let Some(eq) = find(&chars, &sign) {
        assert(eq + 1 <= n);
        let key = to_text(&chars, 0, eq);
        assert(key@ =~= word@.take(eq as int));
        if is_key(key.as_str()) {
            let value = to_text(&chars, eq + 1, n);
            assert(value@ =~= word@.skip(eq + 1));
            return Some((key, value));
        }
    }
    None
}

/// Parses CEF extensions, which are space-separated `key=value` pairs whose
/// values may themselves contain spaces. A token of the form `key=...` (with an
/// alphanumeric key) starts a new field; any following token without such a
/// prefix is appended to the current value.
pub fn parse_extensions(ext: &str) -> (r: StringHashMap<String>)
    ensures
        map_view(r@) == extensions_of(ext@),
{
    let tokens = split_whitespace(ext);
    let ghost list = words(ext@);
    let mut map: StringHashMap<String> = StringHashMap::new();
    // The field that may go on is kept out of the map until it is complete.
    let mut open: Option<(String, String)> = None;
    let mut i: usize = 0;
    assert(list.take(0) =~= Seq::empty());
    assert(map_view(map@) =~= Map::empty());
    while i < tokens.len()
        invariant
            i <= tokens@.len(),
            views(tokens@) == list,
            match open {
                Some(field) => read_words(list.take(i as int)) == (ExtensionsModel {
                    fields: map_view(map@).insert(field.0@, field.1@),
                    current: Some(field.0@),
                }),
                None => read_words(list.take(i as int)) == (ExtensionsModel {
                    fields: map_view(map@),
                    current: None,
                }),
            },
        decreases tokens@.len() - i,
    {
        let ghost before = read_words(list.take(i as int));
        let ghost token = tokens@[i as int]@;
        assert(list[i as int] == token);
        assert(list.take(i + 1).drop_last() =~= list.take(i as int));
        assert(read_words(list.take(i + 1)) == read_word(before, token));
        match split_field(tokens[i].as_str()) {
            Some(field) => {
                if let Some((key, value)) = open {
                    let ghost held = map@;
                    map.insert(key, value);
                    assert(map_view(map@) =~= map_view(held).insert(key@, value@));
                }
                open = Some(field);
            },
            None => {
                if let Some((key, value)) = open {
                    let mut longer = value;
                    longer.push(' ');
                    longer.append(tokens[i].as_str());
                    assert(longer@ =~= value@ + seq![' '] + token);
                    assert(before.fields.insert(key@, longer@) =~= map_view(map@).insert(
                        key@,
                        longer@,
                    ));
                    open = Some((key, longer));
                }
            },
        }
        i += 1;
    }
    assert(list.take(i as int) =~= list);
    if let Some((key, value)) = open {
        let ghost held = map@;
        map.insert(key, value);
        assert(map_view(map@) =~= map_view(held).insert(key@, value@));
    }
    map
}

// ---------------------------------------------------------------------------
// The CEF message
// ---------------------------------------------------------------------------

/// A parsed CEF message: the header's signature id and name, plus the extension
/// key/value map. Other header fields aren't needed for the current mapping.
pub struct CefMessage {
    pub signature_id: String,
    pub name: String,
    pub extensions: StringHashMap<String>,
}

/// The contents of a [`CefMessage`].
#[verifier::ext_equal]
pub struct CefModel {
    pub signature_id: Seq<char>,
    pub name: Seq<char>,
    pub extensions: Map<Seq<char>, Seq<char>>,
}

impl View for CefMessage {
    type V = CefModel;

    open spec fn view(&self) -> CefModel {
        CefModel {
            signature_id: self.signature_id@,
            name: self.name@,
            extensions: map_view(self.extensions@),
        }
    }
}

/// The field at a position, or nothing where there are fewer.
pub open spec fn field_at(fields: Seq<Seq<char>>, i: int) -> Seq<char> {
    if i < fields.len() {
        fields[i]
    } else {
        Seq::empty()
    }
}

/// The CEF message of a text: the fifth and sixth of its fields between bars,
/// and the extensions in the eighth, which may hold further bars.
pub open spec fn cef_of(text: Seq<char>) -> CefModel {
    let fields = split_limited(text, '|', 8);
    CefModel {
        signature_id: field_at(fields, 4),
        name: field_at(fields, 5),
        extensions: extensions_of(field_at(fields, 7)),
    }
}

/// The CEF message of a line without its priority, if there is one.
pub open spec fn cef_message_of(after: Seq<char>) -> Option<CefModel> {
    match cef_position(after) {
        Some(at) => Some(cef_of(after.skip(at))),
        None => None,
    }
}

fn take_field(fields: &Vec<String>, i: usize) -> (r: String)
    ensures
        r@ == field_at(views(fields@), i as int),
{
    if i < fields.len() {
        fields[i].clone()
    } else {
        String::new()
    }
}

impl CefMessage {
    /// Parses `CEF:0|vendor|product|ver|sigid|name|sev|ext...`.
    pub fn parse(cef: &str) -> (r: Self)
        ensures
            r@ == cef_of(cef@),
    {
        let fields = split_n(cef, '|', 8);
        let ext = take_field(&fields, 7);
        CefMessage {
            signature_id: take_field(&fields, 4),
            name: take_field(&fields, 5),
            extensions: parse_extensions(ext.as_str()),
        }
    }
}

/// The value of an extension.
pub open spec fn extension_of(cef: Option<CefModel>, key: Seq<char>) -> Option<Seq<char>> {
    match cef {
        Some(message) => if message.extensions.contains_key(key) {
            Some(message.extensions[key])
        } else {
            None
        },
        None => None,
    }
}

/// The view of an optional CEF message.
pub open spec fn cef_option_view(cef: Option<CefMessage>) -> Option<CefModel> {
    match cef {
        Some(message) => Some(message@),
        None => None,
    }
}

fn extension<'a>(cef: &'a Option<CefMessage>, key: &str) -> (r: Option<&'a str>)
    ensures
        str_option_view(r) == extension_of(cef_option_view(*cef), key@),
{
    match cef {
        Some(message) => match message.extensions.get(key) {
            Some(value) => Some(value.as_str()),
            None => None,
        },
        None => None,
    }
}

fn clean_str(value: Option<&str>) -> (r: Option<String>)
    ensures
        string_option_view(r) == cleaned_option(str_option_view(value)),
{
    match value {
        Some(text) => clean_optional(text),
        None => None,
    }
}

// ---------------------------------------------------------------------------
// Classification
// ---------------------------------------------------------------------------

/// True when a lowercased text carries authentication-related wording.
pub open spec fn is_auth_text(haystack: Seq<char>) -> bool {
    ||| occurs_in(haystack, "logon"@)
    ||| occurs_in(haystack, "login"@)
    ||| occurs_in(haystack, "log on"@)
    ||| occurs_in(haystack, "logged on"@)
    ||| occurs_in(haystack, "auth"@)
}

/// True when a lowercased text speaks of the end of a session.
pub open spec fn is_logoff_text(haystack: Seq<char>) -> bool {
    ||| occurs_in(haystack, "logoff"@)
    ||| occurs_in(haystack, "logout"@)
    ||| occurs_in(haystack, "log off"@)
}

/// True when a lowercased text speaks of a refusal.
pub open spec fn is_denial_text(haystack: Seq<char>) -> bool {
    ||| occurs_in(haystack, "deny"@)
    ||| occurs_in(haystack, "denied"@)
    ||| occurs_in(haystack, "block"@)
}

/// `event.type` of a lowercased action and message: the action decides where it
/// allows or denies, then the message.
pub open spec fn type_of_texts(act: Option<Seq<char>>, message: Seq<char>) -> EventType {
    if act is Some && occurs_in(act->Some_0, "allow"@) {
        EventType::Allowed
    } else if act is Some && is_denial_text(act->Some_0) {
        EventType::Denied
    } else if is_auth_text(message) {
        if is_logoff_text(message) {
            EventType::End
        } else {
            EventType::Start
        }
    } else {
        EventType::Info
    }
}

/// `event.category` of a lowercased text.
pub open spec fn category_of_text(haystack: Seq<char>) -> EventCategory {
    if is_auth_text(haystack) {
        EventCategory::Authentication
    } else if occurs_in(haystack, "traffic"@) || occurs_in(haystack, "connection"@) {
        EventCategory::Network
    } else {
        EventCategory::Host
    }
}

/// `event.outcome` of a lowercased text; success goes before failure.
pub open spec fn outcome_of_text(haystack: Seq<char>) -> EventOutcome {
    if occurs_in(haystack, "success"@) || occurs_in(haystack, "allow"@) {
        EventOutcome::Success
    } else if occurs_in(haystack, "failure"@) || occurs_in(haystack, "fail"@) || is_denial_text(
        haystack,
    ) {
        EventOutcome::Failure
    } else {
        EventOutcome::Unknown
    }
}

/// The text that decides the category: the message, then the signature id and
/// the name of the CEF message.
pub open spec fn category_text(cef: Option<CefModel>, message: Seq<char>) -> Seq<char> {
    match cef {
        Some(c) => lowercase(message) + seq![' '] + lowercase(c.signature_id) + seq![' ']
            + lowercase(c.name),
        None => lowercase(message),
    }
}

/// The text that decides the outcome: action, outcome and message.
pub open spec fn outcome_text(
    act: Option<Seq<char>>,
    result: Option<Seq<char>>,
    message: Seq<char>,
) -> Seq<char> {
    let first = match act {
        Some(text) => text,
        None => Seq::empty(),
    };
    let second = match result {
        Some(text) => text,
        None => Seq::empty(),
    };
    lowercase(first + seq![' '] + second + seq![' '] + message)
}

/// True when the text carries authentication-related wording (tolerant of the
/// "logon" / "log on" / "logged on" spelling variants seen in CEF names).
pub fn is_auth(haystack: &str) -> (r: bool)
    ensures
        r == is_auth_text(haystack@),
{
    contains(haystack, "logon") || contains(haystack, "login") || contains(haystack, "log on")
        || contains(haystack, "logged on") || contains(haystack, "auth")
}

fn is_denial(haystack: &str) -> (r: bool)
    ensures
        r == is_denial_text(haystack@),
{
    contains(haystack, "deny") || contains(haystack, "denied") || contains(haystack, "block")
}

/// Maps a lowercased action and message to `event.type`.
pub fn type_from_texts(act: Option<&str>, message: &str) -> (r: EventType)
    ensures
        r == type_of_texts(str_option_view(act), message@),
{
    if let Some(act) = act {
        if contains(act, "allow") {
            return EventType::Allowed;
        }
        if is_denial(act) {
            return EventType::Denied;
        }
    }
    if is_auth(message) {
        if contains(message, "logoff") || contains(message, "logout") || contains(
            message,
            "log off",
        ) {
            EventType::End
        } else {
            EventType::Start
        }
    } else {
        EventType::Info
    }
}

/// Maps a lowercased text to `event.category`.
pub fn category_from_text(haystack: &str) -> (r: EventCategory)
    ensures
        r == category_of_text(haystack@),
{
    if is_auth(haystack) {
        EventCategory::Authentication
    } else if contains(haystack, "traffic") || contains(haystack, "connection") {
        EventCategory::Network
    } else {
        EventCategory::Host
    }
}

/// Maps a lowercased text to `event.outcome`.
pub fn outcome_from_text(haystack: &str) -> (r: EventOutcome)
    ensures
        r == outcome_of_text(haystack@),
{
    if contains(haystack, "success") || contains(haystack, "allow") {
        EventOutcome::Success
    } else if contains(haystack, "failure") || contains(haystack, "fail") || is_denial(haystack) {
        EventOutcome::Failure
    } else {
        EventOutcome::Unknown
    }
}

/// Maps the action and message of an event to `event.type`, in any case.
pub fn event_type(act: Option<&str>, message: &str) -> (r: EventType)
    ensures
        r == type_of_texts(lowercase_option(str_option_view(act)), lowercase(message@)),
{
    let msg = message.to_lowercase();
    match act {
        Some(text) => {
            let act = text.to_lowercase();
            type_from_texts(Some(act.as_str()), msg.as_str())
        },
        None => type_from_texts(None, msg.as_str()),
    }
}

/// Maps the CEF message and message text of an event to `event.category`, in
/// any case.
pub fn event_category(cef: &Option<CefMessage>, message: &str) -> (r: EventCategory)
    ensures
        r == category_of_text(category_text(cef_option_view(*cef), message@)),
{
    let mut haystack = message.to_lowercase();
    if let Some(cef) = cef {
        haystack.push(' ');
        haystack.append(cef.signature_id.as_str().to_lowercase().as_str());
        haystack.push(' ');
        haystack.append(cef.name.as_str().to_lowercase().as_str());
        assert(haystack@ =~= category_text(Some(cef@), message@));
    }
    category_from_text(haystack.as_str())
}

/// Maps the action, outcome and message of an event to `event.outcome`, in any
/// case.
pub fn outcome(act: Option<&str>, result: Option<&str>, message: &str) -> (r: EventOutcome)
    ensures
        r == outcome_of_text(
            outcome_text(str_option_view(act), str_option_view(result), message@),
        ),
{
    let mut haystack = String::new();
    if let Some(text) = act {
        haystack.append(text);
    }
    haystack.push(' ');
    if let Some(text) = result {
        haystack.append(text);
    }
    haystack.push(' ');
    haystack.append(message);
    let ghost whole = haystack@;
    let haystack = haystack.as_str().to_lowercase();
    proof {
        let first = match str_option_view(act) {
            Some(text) => text,
            None => Seq::empty(),
        };
        let second = match str_option_view(result) {
            Some(text) => text,
            None => Seq::empty(),
        };
        assert(whole =~= first + seq![' '] + second + seq![' '] + message@);
    }
    outcome_from_text(haystack.as_str())
}

// ---------------------------------------------------------------------------
// The event
// ---------------------------------------------------------------------------

/// `message` of a line without its priority: the extension `msg`, else the name
/// of the CEF message, else the whole text.
pub open spec fn message_of(after: Seq<char>) -> Seq<char> {
    let cef = cef_message_of(after);
    let name = match cef {
        Some(c) => stated(c.name),
        None => None,
    };
    match or_else(stated_option(extension_of(cef, "msg"@)), name) {
        Some(text) => text,
        None => trimmed(after),
    }
}

/// The words of the header of a line.
pub open spec fn header_words(raw: Seq<char>) -> Seq<Seq<char>> {
    words(header_of(priority_of(raw).1))
}

/// The event that a line is mapped to when the clock shows `current`.
pub open spec fn syslog_event(raw: Seq<char>, current: UtcTime) -> EventModel {
    let (pri, after) = priority_of(raw);
    let tokens = header_words(raw);
    let cef = cef_message_of(after);
    let act = extension_of(cef, "act"@);
    let message = message_of(after);
    EventModel {
        timestamp: header_timestamp(tokens, current),
        event_type: type_of_texts(lowercase_option(act), lowercase(message)),
        event_category: category_of_text(category_text(cef, message)),
        event_outcome: outcome_of_text(
            outcome_text(act, extension_of(cef, "outcome"@), message),
        ),
        source_ip: cleaned_option(extension_of(cef, "src"@)),
        user_name: cleaned_option(extension_of(cef, "suser"@)),
        host_name: header_host(tokens),
        log_level: Some(severity_text(pri as int % 8)),
        message,
    }
}

/// True when the timestamp of a line, mapped while the clock shows `current`, is
/// the one of an instant of the current year and keeps the one of the header, or
/// is the current time where the header has none.
pub open spec fn timely(raw: Seq<char>, current: UtcTime) -> bool {
    let timestamp = syslog_event(raw, current).timestamp;
    is_timestamp_in(timestamp, current.year as int) && keeps_stamp(
        header_words(raw),
        current,
        timestamp,
    ) && falls_back(header_words(raw), current, timestamp)
}

/// Maps one syslog line. Every line can be mapped.
pub fn parse(raw: &str) -> (r: Result<NormalizedEvent, TransformError>)
    ensures
        r is Ok,
        exists|current: UtcTime|
            #[trigger] current.shown() && result_view(r) == Ok::<_, TransformError>(
                syslog_event(raw@, current),
            ) && timely(raw@, current),
        is_timestamp(r->Ok_0.timestamp@),
{
    let current = now();
    assert(current.shown());
    parse_at(raw, &current)
}

/// [`parse`] when the clock shows `current`.
pub fn parse_at(raw: &str, current: &UtcTime) -> (r: Result<NormalizedEvent, TransformError>)
    requires
        current.valid(),
    ensures
        result_view(r) == Ok::<_, TransformError>(syslog_event(raw@, *current)),
        timely(raw@, *current),
{
    let (pri, after_pri) = strip_pri(raw);
    let ghost after = after_pri@;

    // Split the line at the CEF marker: before it is the RFC 3164 header
    // (timestamp + hostname), from it onwards is the CEF message.
    let chars = to_chars(after_pri);
    let marker = to_chars("CEF:");
    let n: usize = chars.len();
    proof {
        lemma_found_from(after, marker@, 0);
    }
    let (header, cef) = match find(&chars, &marker) {
        Some(at) => {
            let header = to_text(&chars, 0, at);
            assert(header@ =~= after.take(at as int));
            let message = to_text(&chars, at, n);
            assert(message@ =~= after.skip(at as int));
            (header, Some(CefMessage::parse(message.as_str())))
        },
        None => (after_pri.to_owned(), None),
    };
    assert(header@ == header_of(after));
    assert(cef_option_view(cef) == cef_message_of(after));

    let header_tokens = split_whitespace(header.as_str());
    let timestamp = parse_timestamp_at(&header_tokens, current);
    let host_name = if header_tokens.len() >= 4 {
        assert(views(header_tokens@)[3] == header_tokens@[3]@);
        clean_optional(header_tokens[3].as_str())
    } else {
        None
    };

    let own = match extension(&cef, "msg") {
        Some(text) => clean_message(text),
        None => None,
    };
    let message = match own {
        Some(text) => text,
        None => {
            let name = match &cef {
                Some(c) => clean_message(c.name.as_str()),
                None => None,
            };
            match name {
                Some(text) => text,
                None => trim(after_pri),
            }
        },
    };
    assert(message@ == message_of(after));

    assert(pri & 7 == pri % 8) by (bit_vector);
    Ok(
        NormalizedEvent {
            timestamp,
            event_type: event_type(extension(&cef, "act"), message.as_str()),
            event_category: event_category(&cef, message.as_str()),
            event_outcome: outcome(
                extension(&cef, "act"),
                extension(&cef, "outcome"),
                message.as_str(),
            ),
            source_ip: clean_str(extension(&cef, "src")),
            user_name: clean_str(extension(&cef, "suser")),
            host_name,
            log_level: Some(severity_name(pri & 7).to_owned()),
            message,
        },
    )
}

// ---------------------------------------------------------------------------
// Laws
// ---------------------------------------------------------------------------

/// A priority is read back as it was written, modulo 256, and leaves what
/// follows it.
pub proof fn priorities_are_read_back(pri: u16, rest: Seq<char>)
    ensures
        priority_of(seq!['<'] + decimal(pri as nat) + seq!['>'] + rest) == (
            (pri % 256) as u8,
            rest,
        ),
{
    let raw = seq!['<'] + decimal(pri as nat) + seq!['>'] + rest;
    let number = decimal(pri as nat);
    lemma_digits(1, pri as nat);
    assert forall|i: int| 0 <= i < number.len() implies #[trigger] number[i] != '>' by {
        assert(is_digit(number[i]));
    }
    assert(raw.skip(1) =~= number + seq!['>'] + rest);
    first_separator_is_found(number, '>', rest);
    assert(raw.skip(1).take(number.len() as int) =~= number);
    assert(raw.skip(1).skip(number.len() as int + 1) =~= rest);
    parsing_inverts_decimal(pri);
}

/// A line that does not start with a priority has the default one and stays
/// whole.
pub proof fn lines_without_priority_stay_whole(raw: Seq<char>)
    requires
        raw.len() == 0 || raw[0] != '<',
    ensures
        priority_of(raw) == (13u8, raw),
{
}

/// A key is one or more ASCII letters and digits, of whatever length, and nothing
/// else.
pub proof fn keys_are_letters_and_digits(s: Seq<char>)
    ensures
        is_key_text(s) <==> s.len() > 0 && forall|i: int|
            0 <= i < s.len() ==> 'a' <= #[trigger] s[i] <= 'z' || 'A' <= s[i] <= 'Z' || '0' <= s[i]
                <= '9',
{
    assert(forall|i: int|
        0 <= i < s.len() ==> (is_alphanumeric(#[trigger] s[i]) <==> 'a' <= s[i] <= 'z' || 'A'
            <= s[i] <= 'Z' || '0' <= s[i] <= '9'));
}

/// A word that starts a field adds it, in place of an earlier field of the same
/// key.
pub proof fn a_field_is_added(ext: Seq<char>, key: Seq<char>, value: Seq<char>)
    requires
        ext.len() == 0 || is_space(ext.last()),
        key.len() > 0,
        forall|i: int|
            0 <= i < key.len() ==> 'a' <= #[trigger] key[i] <= 'z' || 'A' <= key[i] <= 'Z' || '0'
                <= key[i] <= '9',
        forall|i: int| 0 <= i < value.len() ==> !is_space(#[trigger] value[i]),
    ensures
        extensions_of(ext + (key + seq!['='] + value)) == extensions_of(ext).insert(key, value),
        read_words(words(ext + (key + seq!['='] + value))).current == Some(key),
{
    let word = key + seq!['='] + value;
    keys_are_letters_and_digits(key);
    lemma_field_word(key, value);
    appended_words_are_split_off(ext, word);
    assert(words(ext).push(word).drop_last() =~= words(ext));
}

/// A word that starts no field, having no `=` behind a key, goes on with the value
/// of the field before it, behind one space.
pub proof fn a_value_goes_on(ext: Seq<char>, word: Seq<char>)
    requires
        ext.len() == 0 || is_space(ext.last()),
        is_word(word),
        forall|at: int|
            0 <= at < word.len() && #[trigger] word[at] == '=' ==> at == 0 || exists|i: int|
                0 <= i < at && !('a' <= #[trigger] word[i] <= 'z' || 'A' <= word[i] <= 'Z' || '0'
                    <= word[i] <= '9'),
    ensures
        ({
            let before = read_words(words(ext));
            match before.current {
                Some(key) => extensions_of(ext + word) == before.fields.insert(
                    key,
                    before.fields[key] + seq![' '] + word,
                ),
                None => extensions_of(ext + word) == before.fields,
            }
        }),
        read_words(words(ext + word)).current == read_words(words(ext)).current,
{
    if starts_field(word) {
        lemma_found_from(word, seq!['='], 0);
        let at = found(word, seq!['='])->Some_0;
        assert(word.subrange(at, at + 1)[0] == word[at]);
        assert(seq!['='][0] == '=');
        keys_are_letters_and_digits(word.take(at));
        assert(forall|i: int| 0 <= i < at ==> word.take(at)[i] == word[i]);
    }
    appended_words_are_split_off(ext, word);
    assert(words(ext).push(word).drop_last() =~= words(ext));
}

/// An extension: a key, the first word of its value, which may be empty, and the
/// further words.
pub struct Extension {
    pub key: Seq<char>,
    pub first: Seq<char>,
    pub more: Seq<Seq<char>>,
}

/// Words behind a text, each with a space before it.
pub open spec fn spaced(first: Seq<char>, more: Seq<Seq<char>>) -> Seq<char>
    decreases more.len(),
{
    if more.len() == 0 {
        first
    } else {
        spaced(first, more.drop_last()) + seq![' '] + more.last()
    }
}

impl Extension {
    /// True for the extensions that can be written: no word but the first looks
    /// like the start of a field.
    pub open spec fn valid(self) -> bool {
        &&& is_key_text(self.key)
        &&& forall|i: int| 0 <= i < self.first.len() ==> !is_space(#[trigger] self.first[i])
        &&& forall|i: int|
            0 <= i < self.more.len() ==> is_word(#[trigger] self.more[i]) && !starts_field(
                self.more[i],
            )
    }

    /// The value: its words, with one space between two.
    pub open spec fn value(self) -> Seq<char> {
        spaced(self.first, self.more)
    }

    /// The words of `key=value`.
    pub open spec fn text_words(self) -> Seq<Seq<char>> {
        seq![self.key + seq!['='] + self.first] + self.more
    }
}

/// The words of extensions, in order.
pub open spec fn extension_words(list: Seq<Extension>) -> Seq<Seq<char>>
    decreases list.len(),
{
    if list.len() == 0 {
        Seq::empty()
    } else {
        extension_words(list.drop_last()) + list.last().text_words()
    }
}

/// The fields of extensions; of two with the same key the later one counts.
pub open spec fn extensions_map(list: Seq<Extension>) -> Map<Seq<char>, Seq<char>>
    decreases list.len(),
{
    if list.len() == 0 {
        Map::empty()
    } else {
        extensions_map(list.drop_last()).insert(list.last().key, list.last().value())
    }
}

proof fn lemma_field_word(key: Seq<char>, value: Seq<char>)
    requires
        is_key_text(key),
        forall|i: int| 0 <= i < value.len() ==> !is_space(#[trigger] value[i]),
    ensures
        is_word(key + seq!['='] + value),
        starts_field(key + seq!['='] + value),
        found(key + seq!['='] + value, seq!['=']) == Some(key.len() as int),
        (key + seq!['='] + value).take(key.len() as int) == key,
        (key + seq!['='] + value).skip(key.len() as int + 1) == value,
{
    let word = key + seq!['='] + value;
    assert forall|i: int| 0 <= i < key.len() implies #[trigger] key[i] != '=' by {
        assert(is_alphanumeric(key[i]));
    }
    assert forall|i: int| 0 <= i < word.len() implies !is_space(#[trigger] word[i]) by {
        if i < key.len() {
            assert(word[i] == key[i]);
            assert(is_alphanumeric(key[i]));
        } else if i > key.len() {
            assert(word[i] == value[i - key.len() - 1]);
        }
    }
    first_separator_is_found(key, '=', value);
    assert(word.take(key.len() as int) =~= key);
    assert(word.skip(key.len() as int + 1) =~= value);
}

proof fn lemma_extension_is_read(before: Seq<Seq<char>>, item: Extension)
    requires
        item.valid(),
    ensures
        read_words(before + item.text_words()) == (ExtensionsModel {
            fields: read_words(before).fields.insert(item.key, item.value()),
            current: Some(item.key),
        }),
        forall|i: int|
            0 <= i < item.text_words().len() ==> is_word(#[trigger] item.text_words()[i]),
    decreases item.more.len(),
{
    let list = before + item.text_words();
    lemma_field_word(item.key, item.first);
    if item.more.len() == 0 {
        assert(list.drop_last() =~= before);
        assert(list.last() == item.key + seq!['='] + item.first);
    } else {
        let word = item.more.last();
        let shorter = Extension { more: item.more.drop_last(), ..item };
        assert(is_word(item.more[item.more.len() - 1]) && !starts_field(
            item.more[item.more.len() - 1],
        ));
        assert forall|i: int| 0 <= i < shorter.more.len() implies is_word(
            #[trigger] shorter.more[i],
        ) && !starts_field(shorter.more[i]) by {
            assert(is_word(item.more[i]) && !starts_field(item.more[i]));
        }
        lemma_extension_is_read(before, shorter);
        assert(list.drop_last() =~= before + shorter.text_words());
        assert(list.last() == word);
        assert(read_words(before).fields.insert(item.key, shorter.value()).insert(
            item.key,
            item.value(),
        ) =~= read_words(before).fields.insert(item.key, item.value()));
        assert forall|i: int| 0 <= i < item.text_words().len() implies is_word(
            #[trigger] item.text_words()[i],
        ) by {
            if i < shorter.text_words().len() {
                assert(item.text_words()[i] == shorter.text_words()[i]);
            } else {
                assert(item.text_words()[i] == word);
            }
        }
    }
}

proof fn lemma_extensions_are_read(list: Seq<Extension>)
    requires
        forall|i: int| 0 <= i < list.len() ==> (#[trigger] list[i]).valid(),
    ensures
        read_words(extension_words(list)).fields == extensions_map(list),
        forall|i: int|
            0 <= i < extension_words(list).len() ==> is_word(#[trigger] extension_words(list)[i]),
    decreases list.len(),
{
    if list.len() > 0 {
        let front = list.drop_last();
        let item = list.last();
        assert(list[list.len() - 1].valid());
        assert forall|i: int| 0 <= i < front.len() implies (#[trigger] front[i]).valid() by {
            assert(list[i].valid());
        }
        lemma_extensions_are_read(front);
        lemma_extension_is_read(extension_words(front), item);
        let before = extension_words(front);
        assert forall|i: int| 0 <= i < extension_words(list).len() implies is_word(
            #[trigger] extension_words(list)[i],
        ) by {
            if i < before.len() {
                assert(extension_words(list)[i] == before[i]);
            } else {
                assert(extension_words(list)[i] == item.text_words()[i - before.len()]);
            }
        }
    }
}

/// Extensions are read back as they were written, whatever whitespace parts
/// their words; inside a value it becomes one space.
pub proof fn extensions_are_read_back(list: Seq<Extension>, gaps: Seq<Seq<char>>)
    requires
        forall|i: int| 0 <= i < list.len() ==> (#[trigger] list[i]).valid(),
        are_gaps(gaps, extension_words(list).len()),
    ensures
        extensions_of(with_gaps(extension_words(list), gaps)) == extensions_map(list),
{
    lemma_extensions_are_read(list);
    words_are_read_back(extension_words(list), gaps);
}

/// Extensions with distinct keys give exactly their pairs of key and value.
pub proof fn distinct_extensions_are_kept(list: Seq<Extension>)
    requires
        forall|i: int, j: int|
            0 <= i < j < list.len() ==> (#[trigger] list[i]).key != (#[trigger] list[j]).key,
    ensures
        forall|key: Seq<char>| #[trigger]
            extensions_map(list).contains_key(key) <==> exists|i: int|
                0 <= i < list.len() && (#[trigger] list[i]).key == key,
        forall|i: int|
            0 <= i < list.len() ==> extensions_map(list)[(#[trigger] list[i]).key]
                == list[i].value(),
    decreases list.len(),
{
    if list.len() > 0 {
        let front = list.drop_last();
        let n = list.len() - 1;
        assert forall|i: int, j: int| 0 <= i < j < front.len() implies (#[trigger] front[i]).key
            != (#[trigger] front[j]).key by {
            assert(list[i].key != list[j].key);
        }
        distinct_extensions_are_kept(front);
        assert forall|key: Seq<char>| #[trigger]
            extensions_map(list).contains_key(key) implies exists|i: int|
            0 <= i < list.len() && (#[trigger] list[i]).key == key by {
            if key == list.last().key {
                assert(list[n].key == key);
            } else {
                assert(extensions_map(front).contains_key(key));
                let i = choose|i: int| 0 <= i < front.len() && (#[trigger] front[i]).key == key;
                assert(list[i].key == key);
            }
        }
        assert forall|i: int| 0 <= i < list.len() implies extensions_map(list).contains_key(
            (#[trigger] list[i]).key,
        ) && extensions_map(list)[list[i].key] == list[i].value() by {
            if i < n {
                assert(list[i].key != list[n].key);
                assert(front[i] == list[i]);
                assert(extensions_map(front).contains_key(front[i].key));
            }
        }
    }
}

/// The fields of a CEF message are read back as they were written: seven without
/// bars, then the extensions.
pub proof fn cef_messages_are_read_back(fields: Seq<Seq<char>>, ext: Seq<char>)
    requires
        fields.len() == 7,
        forall|i: int, j: int|
            0 <= i < fields.len() && 0 <= j < fields[i].len() ==> #[trigger] fields[i][j] != '|',
    ensures
        cef_of(joined(fields, '|', ext)) == (CefModel {
            signature_id: fields[4],
            name: fields[5],
            extensions: extensions_of(ext),
        }),
{
    splitting_inverts_joining(fields, '|', ext);
}

/// The header of a line: a timestamp in three words, and the host.
pub open spec fn header_text(
    month: Seq<char>,
    day: Seq<char>,
    time: Seq<char>,
    host: Seq<char>,
) -> Seq<char> {
    month.push(' ') + day.push(' ') + time.push(' ') + host.push(' ')
}

proof fn lemma_header_words(month: Seq<char>, day: Seq<char>, time: Seq<char>, host: Seq<char>)
    requires
        is_word(month),
        is_word(day),
        is_word(time),
        is_word(host),
    ensures
        words(header_text(month, day, time, host)) == seq![month, day, time, host],
{
    let none = Seq::<char>::empty();
    appended_words_are_split_off(none, month);
    assert(none + month =~= month);
    trailing_space_adds_no_word(month, ' ');
    let a = month.push(' ');
    appended_words_are_split_off(a, day);
    trailing_space_adds_no_word(a + day, ' ');
    let b = (a + day).push(' ');
    appended_words_are_split_off(b, time);
    trailing_space_adds_no_word(b + time, ' ');
    let c = (b + time).push(' ');
    appended_words_are_split_off(c, host);
    trailing_space_adds_no_word(c + host, ' ');
    assert((c + host).push(' ') =~= header_text(month, day, time, host));
    assert(words(header_text(month, day, time, host)) =~= seq![month, day, time, host]);
}

proof fn lemma_marker_is_found(header: Seq<char>, message: Seq<char>)
    requires
        header.len() > 0,
        header.last() == ' ',
        !occurs_in(header, "CEF:"@),
        occurs_at(message, "CEF:"@, 0),
    ensures
        cef_position(header + message) == Some(header.len() as int),
{
    let marker = "CEF:"@;
    reveal_strlit("CEF:");
    let whole = header + message;
    let n = header.len() as int;
    lemma_found_from(whole, marker, 0);
    assert(whole.subrange(n, n + 4) =~= message.subrange(0, 4));
    assert(occurs_at(whole, marker, n));
    if let Some(at) = found(whole, marker) {
        if at < n {
            if at + 4 <= n {
                assert(header.subrange(at, at + 4) =~= whole.subrange(at, at + 4));
                assert(occurs_at(header, marker, at));
            } else {
                assert(whole.subrange(at, at + 4)[n - 1 - at] == whole[n - 1]);
                assert(whole[n - 1] == ' ');
                assert(marker[n - 1 - at] != ' ');
            }
        }
    }
}

/// The line `<PRI>Mmm dd HH:MM:SS HOST CEF:0|vendor|product|ver|sigid|name|sev|ext`,
/// given by its parts.
pub struct LineParts {
    pub pri: u16,
    pub month: Seq<char>,
    pub day: Seq<char>,
    pub time: Seq<char>,
    pub host: Seq<char>,
    /// The CEF header, from the version to the severity.
    pub fields: Seq<Seq<char>>,
    pub ext: Seq<char>,
}

impl LineParts {
    /// The header.
    pub open spec fn header(self) -> Seq<char> {
        header_text(self.month, self.day, self.time, self.host)
    }

    /// What follows the priority.
    pub open spec fn after(self) -> Seq<char> {
        self.header() + joined(self.fields, '|', self.ext)
    }

    /// The line.
    pub open spec fn text(self) -> Seq<char> {
        seq!['<'] + decimal(self.pri as nat) + seq!['>'] + self.after()
    }

    /// The CEF message.
    pub open spec fn message(self) -> CefModel {
        CefModel {
            signature_id: self.fields[4],
            name: self.fields[5],
            extensions: extensions_of(self.ext),
        }
    }

    /// True for the parts that can be told apart: words without a CEF marker,
    /// and seven fields without bars, the first of which has the marker.
    pub open spec fn valid(self) -> bool {
        &&& is_word(self.month)
        &&& is_word(self.day)
        &&& is_word(self.time)
        &&& is_word(self.host)
        &&& !occurs_in(self.header(), "CEF:"@)
        &&& self.fields.len() == 7
        &&& forall|i: int, j: int|
            0 <= i < self.fields.len() && 0 <= j < self.fields[i].len() ==> #[trigger]
                self.fields[i][j] != '|'
        &&& occurs_at(self.fields[0], "CEF:"@, 0)
    }
}

/// A line of the documented shape is taken apart as written: priority, header and
/// CEF message.
pub proof fn lines_are_taken_apart(line: LineParts)
    requires
        line.valid(),
    ensures
        priority_of(line.text()) == ((line.pri % 256) as u8, line.after()),
        header_words(line.text()) == seq![line.month, line.day, line.time, line.host],
        cef_message_of(line.after()) == Some(line.message()),
{
    let header = line.header();
    let message = joined(line.fields, '|', line.ext);
    let after = line.after();
    priorities_are_read_back(line.pri, after);
    reveal_strlit("CEF:");
    assert(message.subrange(0, 4) =~= line.fields[0].subrange(0, 4));
    lemma_marker_is_found(header, message);
    assert(after.take(header.len() as int) =~= header);
    assert(after.skip(header.len() as int) =~= message);
    lemma_header_words(line.month, line.day, line.time, line.host);
    cef_messages_are_read_back(line.fields, line.ext);
}

/// The event of a line of the documented shape has the severity, timestamp and
/// host that stand in the line, the source, user and message that its extensions
/// name, and the type, category and outcome of these.
pub proof fn events_hold_what_lines_say(line: LineParts, current: UtcTime)
    requires
        line.valid(),
    ensures
        ({
            let event = syslog_event(line.text(), current);
            let message = Some(line.message());
            &&& event.log_level == Some(severity_text(line.pri as int % 8))
            &&& event.timestamp == header_timestamp(
                seq![line.month, line.day, line.time, line.host],
                current,
            )
            &&& event.host_name == cleaned(line.host)
            &&& event.source_ip == cleaned_option(extension_of(message, "src"@))
            &&& event.user_name == cleaned_option(extension_of(message, "suser"@))
            &&& event.message == match or_else(
                stated_option(extension_of(message, "msg"@)),
                stated(line.fields[5]),
            ) {
                Some(text) => text,
                None => trimmed(line.after()),
            }
            &&& event.event_type == type_of_texts(
                lowercase_option(extension_of(message, "act"@)),
                lowercase(event.message),
            )
            &&& event.event_category == category_of_text(category_text(message, event.message))
            &&& event.event_outcome == outcome_of_text(
                outcome_text(
                    extension_of(message, "act"@),
                    extension_of(message, "outcome"@),
                    event.message,
                ),
            )
        }),
{
    lines_are_taken_apart(line);
    assert((line.pri % 256) as int % 8 == line.pri as int % 8);
}

/// The action decides `event.type` before the message: one that allows, then one
/// that denies or blocks.
pub proof fn the_action_goes_before_the_message(act: Seq<char>, message: Seq<char>)
    ensures
        occurs_in(act, "allow"@) ==> type_of_texts(Some(act), message) == EventType::Allowed,
        !occurs_in(act, "allow"@) && is_denial_text(act) ==> type_of_texts(Some(act), message)
            == EventType::Denied,
        !occurs_in(act, "allow"@) && !is_denial_text(act) ==> type_of_texts(Some(act), message)
            == type_of_texts(None, message),
{
}

proof fn lemma_severities_are_stated(severity: int)
    ensures
        cleaned(severity_text(severity)) == Some(severity_text(severity)),
{
    reveal_strlit("emergency");
    reveal_strlit("alert");
    reveal_strlit("critical");
    reveal_strlit("error");
    reveal_strlit("warning");
    reveal_strlit("notice");
    reveal_strlit("info");
    reveal_strlit("debug");
    reveal_strlit("-");
    reveal_strlit("S-1-0-0");
    let text = severity_text(severity);
    assert(text.len() > 1);
    assert('a' <= text[0] <= 'z' && 'a' <= text.last() <= 'z');
    assert("S-1-0-0"@[0] == 'S');
    lemma_applicable(text);
}

/// The optional fields of an event never hold a value that means "not
/// applicable".
pub proof fn sentinels_are_omitted(raw: Seq<char>, current: UtcTime)
    ensures
        ({
            let event = syslog_event(raw, current);
            &&& event.source_ip matches Some(text) ==> cleaned(text) == Some(text)
            &&& event.user_name matches Some(text) ==> cleaned(text) == Some(text)
            &&& event.host_name matches Some(text) ==> cleaned(text) == Some(text)
            &&& event.log_level matches Some(text) ==> cleaned(text) == Some(text)
        }),
{
    lemma_severities_are_stated(priority_of(raw).0 as int % 8);
    let after = priority_of(raw).1;
    let tokens = header_words(raw);
    let cef = cef_message_of(after);
    if let Some(text) = extension_of(cef, "src"@) {
        cleaning_is_idempotent(text);
    }
    if let Some(text) = extension_of(cef, "suser"@) {
        cleaning_is_idempotent(text);
    }
    if tokens.len() >= 4 {
        cleaning_is_idempotent(tokens[3]);
    }
}

// ---------------------------------------------------------------------------
// Laws of the priority and the parts of a line
// ---------------------------------------------------------------------------

/// A priority is read in any spelling of a number, modulo 256, where it fits in 16
/// bits; behind a larger number the line stays whole, with the default priority.
pub proof fn priorities_are_read_in_any_spelling(
    signed: bool,
    width: nat,
    pri: nat,
    rest: Seq<char>,
)
    requires
        width + pri > 0,
    ensures
        ({
            let number = if signed {
                seq!['+'] + digits(width, pri)
            } else {
                digits(width, pri)
            };
            let raw = seq!['<'] + number + seq!['>'] + rest;
            if pri <= 65535 {
                priority_of(raw) == ((pri % 256) as u8, rest)
            } else {
                priority_of(raw) == (13u8, raw)
            }
        }),
{
    let number = if signed {
        seq!['+'] + digits(width, pri)
    } else {
        digits(width, pri)
    };
    let raw = seq!['<'] + number + seq!['>'] + rest;
    lemma_digits(width, pri);
    assert forall|i: int| 0 <= i < number.len() implies #[trigger] number[i] != '>' by {
        if signed && i > 0 {
            assert(number[i] == digits(width, pri)[i - 1]);
            assert(is_digit(digits(width, pri)[i - 1]));
        } else if !signed {
            assert(is_digit(digits(width, pri)[i]));
        }
    }
    assert(raw.skip(1) =~= number + seq!['>'] + rest);
    first_separator_is_found(number, '>', rest);
    assert(raw.skip(1).take(number.len() as int) =~= number);
    assert(raw.skip(1).skip(number.len() as int + 1) =~= rest);
    numbers_are_read_in_any_spelling(signed, width, pri);
}

/// A line whose leading brackets hold no number, or are not closed, stays whole,
/// with the default priority.
pub proof fn malformed_priorities_stay(inside: Seq<char>, rest: Seq<char>)
    requires
        forall|i: int| 0 <= i < inside.len() ==> #[trigger] inside[i] != '>',
    ensures
        ({
            let raw = seq!['<'] + inside;
            priority_of(raw) == (13u8, raw)
        }),
        inside.len() == 0 || inside == seq!['+'] || (exists|i: int|
            0 <= i < inside.len() && !('0' <= #[trigger] inside[i] <= '9') && !(i == 0
                && inside[0] == '+')) ==> {
            let raw = seq!['<'] + inside + seq!['>'] + rest;
            priority_of(raw) == (13u8, raw)
        },
{
    let open = seq!['<'] + inside;
    assert(open.skip(1) =~= inside);
    assert forall|j: int| 0 <= j && j + 1 <= inside.len() implies #[trigger] inside.subrange(
        j,
        j + 1,
    ) != seq!['>'] by {
        assert(inside.subrange(j, j + 1)[0] == inside[j]);
        assert(seq!['>'][0] == '>');
    }
    absent_text_is_not_found(inside, seq!['>']);
    if inside.len() == 0 || inside == seq!['+'] || exists|i: int|
        0 <= i < inside.len() && !('0' <= #[trigger] inside[i] <= '9') && !(i == 0 && inside[0]
            == '+') {
        let raw = seq!['<'] + inside + seq!['>'] + rest;
        assert(raw.skip(1) =~= inside + seq!['>'] + rest);
        first_separator_is_found(inside, '>', rest);
        assert(raw.skip(1).take(inside.len() as int) =~= inside);
        other_texts_are_no_numbers(inside);
    }
}

/// The severity is the priority modulo 8, by its standard name.
pub proof fn severities_have_their_names(raw: Seq<char>, current: UtcTime)
    ensures
        ({
            let pri = priority_of(raw).0;
            let level = syslog_event(raw, current).log_level;
            &&& pri % 8 == 0 ==> level == Some("emergency"@)
            &&& pri % 8 == 1 ==> level == Some("alert"@)
            &&& pri % 8 == 2 ==> level == Some("critical"@)
            &&& pri % 8 == 3 ==> level == Some("error"@)
            &&& pri % 8 == 4 ==> level == Some("warning"@)
            &&& pri % 8 == 5 ==> level == Some("notice"@)
            &&& pri % 8 == 6 ==> level == Some("info"@)
            &&& pri % 8 == 7 ==> level == Some("debug"@)
        }),
{
}

/// The first CEF marker behind the priority divides a line into the header and
/// the CEF message, which starts with the marker.
pub proof fn the_first_marker_divides(raw: Seq<char>, header: Seq<char>, rest: Seq<char>)
    requires
        priority_of(raw).1 == header + "CEF:"@ + rest,
        forall|j: int|
            0 <= j < header.len() ==> #[trigger] (header + "CEF:"@ + rest).subrange(j, j + 4)
                != "CEF:"@,
    ensures
        header_words(raw) == words(header),
        cef_message_of(priority_of(raw).1) == Some(cef_of("CEF:"@ + rest)),
{
    reveal_strlit("CEF:");
    let after = header + "CEF:"@ + rest;
    assert("CEF:"@.len() == 4);
    the_first_occurrence_is_found(header, "CEF:"@, rest);
    assert(after.take(header.len() as int) =~= header);
    assert(after.skip(header.len() as int) =~= "CEF:"@ + rest);
}

/// A line without a CEF marker is all header, and its text is its message.
pub proof fn lines_without_marker_are_their_message(raw: Seq<char>, current: UtcTime)
    requires
        !occurs_in(priority_of(raw).1, "CEF:"@),
    ensures
        ({
            let event = syslog_event(raw, current);
            &&& header_words(raw) == words(priority_of(raw).1)
            &&& cef_message_of(priority_of(raw).1) is None
            &&& event.message == trimmed(priority_of(raw).1)
            &&& event.source_ip is None
            &&& event.user_name is None
        }),
{
    lemma_found_from(priority_of(raw).1, "CEF:"@, 0);
}

/// A CEF message with at most seven fields has those that are there, and no
/// extensions.
pub proof fn short_cef_messages_lack_fields(fields: Seq<Seq<char>>, last: Seq<char>)
    requires
        fields.len() < 7,
        forall|i: int, j: int|
            0 <= i < fields.len() && 0 <= j < fields[i].len() ==> #[trigger] fields[i][j] != '|',
        forall|j: int| 0 <= j < last.len() ==> #[trigger] last[j] != '|',
    ensures
        ({
            let all = fields.push(last);
            let cef = cef_of(joined(fields, '|', last));
            &&& cef.signature_id == if all.len() > 4 {
                all[4]
            } else {
                Seq::empty()
            }
            &&& cef.name == if all.len() > 5 {
                all[5]
            } else {
                Seq::empty()
            }
            &&& cef.extensions == Map::<Seq<char>, Seq<char>>::empty()
        }),
{
    few_pieces_are_split_off(fields, '|', last, 8);
    assert(words(Seq::<char>::empty()) =~= Seq::empty());
}

/// The host is the fourth word of the header, where there is one and it is
/// applicable.
pub proof fn the_host_is_the_fourth_word(raw: Seq<char>, current: UtcTime)
    ensures
        header_words(raw).len() < 4 ==> syslog_event(raw, current).host_name is None,
        header_words(raw).len() >= 4 ==> syslog_event(raw, current).host_name == cleaned(
            header_words(raw)[3],
        ),
{
}

/// The source, the user and the message of an event are those of the extensions
/// `src`, `suser` and `msg`, where these are there; without an applicable `msg`
/// the name of the CEF message stands for it, and then the whole text.
pub proof fn extensions_reach_the_event(raw: Seq<char>, current: UtcTime, cef: CefModel)
    requires
        cef_message_of(priority_of(raw).1) == Some(cef),
    ensures
        ({
            let event = syslog_event(raw, current);
            let own = if cef.extensions.contains_key("msg"@) {
                stated(cef.extensions["msg"@])
            } else {
                None
            };
            &&& cef.extensions.contains_key("src"@) ==> event.source_ip == cleaned(
                cef.extensions["src"@],
            )
            &&& !cef.extensions.contains_key("src"@) ==> event.source_ip is None
            &&& cef.extensions.contains_key("suser"@) ==> event.user_name == cleaned(
                cef.extensions["suser"@],
            )
            &&& !cef.extensions.contains_key("suser"@) ==> event.user_name is None
            &&& own is Some ==> event.message == own->Some_0
            &&& own is None && stated(cef.name) is Some ==> event.message == stated(
                cef.name,
            )->Some_0
            &&& own is None && stated(cef.name) is None ==> event.message == trimmed(
                priority_of(raw).1,
            )
        }),
{
}

/// A field that is added to the extensions of a line reaches the event: a source,
/// a user or a message, in place of an earlier one.
#[verifier::spinoff_prover]
#[verifier::rlimit(40)]
pub proof fn added_fields_reach_the_event(
    line: LineParts,
    ext: Seq<char>,
    value: Seq<char>,
    current: UtcTime,
)
    requires
        line.valid(),
        ext.len() == 0 || is_space(ext.last()),
        forall|i: int| 0 <= i < value.len() ==> !is_space(#[trigger] value[i]),
    ensures
        syslog_event(
            (LineParts { ext: ext + ("src"@ + seq!['='] + value), ..line }).text(),
            current,
        ).source_ip == cleaned(value),
        syslog_event(
            (LineParts { ext: ext + ("suser"@ + seq!['='] + value), ..line }).text(),
            current,
        ).user_name == cleaned(value),
        stated(value) is Some ==> syslog_event(
            (LineParts { ext: ext + ("msg"@ + seq!['='] + value), ..line }).text(),
            current,
        ).message == stated(value)->Some_0,
{
    reveal_strlit("src");
    reveal_strlit("suser");
    reveal_strlit("msg");
    a_field_is_added(ext, "src"@, value);
    a_field_is_added(ext, "suser"@, value);
    a_field_is_added(ext, "msg"@, value);
    let source = LineParts { ext: ext + ("src"@ + seq!['='] + value), ..line };
    let user = LineParts { ext: ext + ("suser"@ + seq!['='] + value), ..line };
    let message = LineParts { ext: ext + ("msg"@ + seq!['='] + value), ..line };
    assert(source.valid() && user.valid() && message.valid());
    lines_are_taken_apart(source);
    lines_are_taken_apart(user);
    lines_are_taken_apart(message);
}

// ---------------------------------------------------------------------------
// Laws of classification
// ---------------------------------------------------------------------------

/// Each wording of authentication makes a text one of authentication, and a
/// message with it the start or the end of something, where no action decides:
/// the end, if it also speaks of logging off.
pub proof fn authentication_wording_decides(
    before: Seq<char>,
    wording: Seq<char>,
    behind: Seq<char>,
)
    requires
        wording == "logon"@ || wording == "login"@ || wording == "log on"@ || wording
            == "logged on"@ || wording == "auth"@,
    ensures
        ({
            let text = before + wording + behind;
            let off = occurs_in(text, "logoff"@) || occurs_in(text, "logout"@) || occurs_in(
                text,
                "log off"@,
            );
            &&& is_auth_text(text)
            &&& category_of_text(text) == EventCategory::Authentication
            &&& off ==> type_of_texts(None, text) == EventType::End
            &&& !off ==> type_of_texts(None, text) == EventType::Start
        }),
{
    surrounded_text_occurs(before, wording, behind);
}

/// A text without any wording of authentication is not one of authentication: it
/// is one of the network where it speaks of traffic or a connection, else of the
/// host, and a message of that kind informs, where no action decides.
pub proof fn other_texts_are_no_authentication(text: Seq<char>)
    requires
        !occurs_in(text, "logon"@),
        !occurs_in(text, "login"@),
        !occurs_in(text, "log on"@),
        !occurs_in(text, "logged on"@),
        !occurs_in(text, "auth"@),
    ensures
        !is_auth_text(text),
        occurs_in(text, "traffic"@) || occurs_in(text, "connection"@) ==> category_of_text(text)
            == EventCategory::Network,
        !occurs_in(text, "traffic"@) && !occurs_in(text, "connection"@) ==> category_of_text(text)
            == EventCategory::Host,
        type_of_texts(None, text) == EventType::Info,
{
}

/// Each wording of a decision in an action decides `event.type`: one that allows
/// before one that denies or blocks, and either before the message. An action
/// with none of them leaves it to the message.
pub proof fn wordings_of_an_action_decide(
    before: Seq<char>,
    wording: Seq<char>,
    behind: Seq<char>,
    message: Seq<char>,
)
    ensures
        ({
            let act = before + wording + behind;
            let kind = type_of_texts(Some(act), message);
            &&& wording == "allow"@ ==> kind == EventType::Allowed
            &&& (wording == "deny"@ || wording == "denied"@ || wording == "block"@) && !occurs_in(
                act,
                "allow"@,
            ) ==> kind == EventType::Denied
            &&& !occurs_in(act, "allow"@) && !occurs_in(act, "deny"@) && !occurs_in(act, "denied"@)
                && !occurs_in(act, "block"@) ==> kind == type_of_texts(None, message)
        }),
{
    surrounded_text_occurs(before, wording, behind);
}

/// Each wording of success or failure decides `event.outcome`, success before
/// failure; a text with none of them leaves it unknown.
pub proof fn wordings_of_a_result_decide(
    before: Seq<char>,
    wording: Seq<char>,
    behind: Seq<char>,
)
    ensures
        ({
            let text = before + wording + behind;
            let result = outcome_of_text(text);
            let good = occurs_in(text, "success"@) || occurs_in(text, "allow"@);
            &&& wording == "success"@ || wording == "allow"@ ==> result == EventOutcome::Success
            &&& (wording == "failure"@ || wording == "fail"@ || wording == "deny"@ || wording
                == "denied"@ || wording == "block"@) && !good ==> result == EventOutcome::Failure
            &&& !good && !occurs_in(text, "failure"@) && !occurs_in(text, "fail"@) && !occurs_in(
                text,
                "deny"@,
            ) && !occurs_in(text, "denied"@) && !occurs_in(text, "block"@) ==> result
                == EventOutcome::Unknown
        }),
{
    surrounded_text_occurs(before, wording, behind);
}

/// What decides on an event: its action and message on the type; its message, and
/// the signature id and name of its CEF message, on the category; its action,
/// outcome and message on the outcome, each in lower case.
pub proof fn events_are_classified_by_their_texts(raw: Seq<char>, current: UtcTime)
    ensures
        ({
            let event = syslog_event(raw, current);
            let message = event.message;
            let space = seq![' '];
            match cef_message_of(priority_of(raw).1) {
                Some(cef) => {
                    let act = if cef.extensions.contains_key("act"@) {
                        cef.extensions["act"@]
                    } else {
                        Seq::empty()
                    };
                    let told = if cef.extensions.contains_key("outcome"@) {
                        cef.extensions["outcome"@]
                    } else {
                        Seq::empty()
                    };
                    &&& cef.extensions.contains_key("act"@) ==> event.event_type == type_of_texts(
                        Some(lowercase(act)),
                        lowercase(message),
                    )
                    &&& !cef.extensions.contains_key("act"@) ==> event.event_type == type_of_texts(
                        None,
                        lowercase(message),
                    )
                    &&& event.event_category == category_of_text(
                        lowercase(message) + space + lowercase(cef.signature_id) + space
                            + lowercase(cef.name),
                    )
                    &&& event.event_outcome == outcome_of_text(
                        lowercase(act + space + told + space + message),
                    )
                },
                None => {
                    &&& event.event_type == type_of_texts(None, lowercase(message))
                    &&& event.event_category == category_of_text(lowercase(message))
                    &&& event.event_outcome == outcome_of_text(
                        lowercase(seq![' ', ' '] + message),
                    )
                },
            }
        }),
{
    let message = syslog_event(raw, current).message;
    assert(Seq::<char>::empty() + seq![' '] + Seq::<char>::empty() + seq![' '] + message =~= seq![
        ' ',
        ' ',
    ] + message);
}

/// Authentication wording in the message, the signature id or the name, in any
/// case, makes an event one of authentication.
pub proof fn authentication_wording_reaches_the_event(
    raw: Seq<char>,
    current: UtcTime,
    cef: CefModel,
    wording: Seq<char>,
)
    requires
        cef_message_of(priority_of(raw).1) == Some(cef),
        wording == "logon"@ || wording == "login"@ || wording == "log on"@ || wording
            == "logged on"@ || wording == "auth"@,
        occurs_in(lowercase(syslog_event(raw, current).message), wording) || occurs_in(
            lowercase(cef.signature_id),
            wording,
        ) || occurs_in(lowercase(cef.name), wording),
    ensures
        syslog_event(raw, current).event_category == EventCategory::Authentication,
{
    let event = syslog_event(raw, current);
    let a = lowercase(event.message);
    let b = lowercase(cef.signature_id);
    let c = lowercase(cef.name);
    let whole = a + seq![' '] + b + seq![' '] + c;
    if occurs_in(a, wording) {
        let (x, y) = occurring_text_is_surrounded(a, wording);
        let behind = y + seq![' '] + b + seq![' '] + c;
        assert(whole =~= x + wording + behind);
        authentication_wording_decides(x, wording, behind);
    } else if occurs_in(b, wording) {
        let (x, y) = occurring_text_is_surrounded(b, wording);
        let before = a + seq![' '] + x;
        let behind = y + seq![' '] + c;
        assert(whole =~= before + wording + behind);
        authentication_wording_decides(before, wording, behind);
    } else {
        let (x, y) = occurring_text_is_surrounded(c, wording);
        let before = a + seq![' '] + b + seq![' '] + x;
        assert(whole =~= before + wording + y);
        authentication_wording_decides(before, wording, y);
    }
    events_are_classified_by_their_texts(raw, current);
}

// ---------------------------------------------------------------------------
// Laws of the timestamp
// ---------------------------------------------------------------------------

/// A timestamp in the header is kept in any spelling: the month in any case, the
/// numbers in one digit or two.
pub proof fn stamps_are_kept_in_any_spelling(
    tokens: Seq<Seq<char>>,
    current: UtcTime,
    timestamp: Seq<char>,
    t: UtcTime,
    hour: Seq<char>,
    minute: Seq<char>,
    second: Seq<char>,
)
    requires
        keeps_stamp(tokens, current, timestamp),
        t.plain(),
        t.whole_second(),
        t.year == current.year,
        tokens.len() >= 3,
        tokens[0].map_values(|c: char| ascii_lower(c)) == month_name(t.month as int).map_values(
            |c: char| ascii_lower(c),
        ),
        is_short_number(tokens[1]),
        number_value(tokens[1]) == t.day,
        tokens[2] == hour + seq![':'] + minute + seq![':'] + second,
        is_short_number(hour),
        number_value(hour) == t.hour,
        is_short_number(minute),
        number_value(minute) == t.minute,
        is_short_number(second),
        number_value(second) == t.written_second(),
    ensures
        timestamp == iso_text(t),
{
    let none = Seq::<char>::empty();
    let parts = StampParts {
        month: tokens[0],
        day: tokens[1],
        hour,
        minute,
        second,
        gaps: seq![none, seq![' '], seq![' '], none, none],
    };
    lemma_month_names(t.month as int);
    assert(tokens[0].map_values(|c: char| ascii_lower(c)).len() == tokens[0].len());
    assert(parts.told_apart());
    assert(parts.tells(t));
    assert(parts.text() =~= first_three(tokens));
    assert(spells_stamp(first_three(tokens), t));
}

proof fn lemma_month_names(month: int)
    ensures
        month_name(month).len() == 3,
{
    reveal_strlit("Jan");
    reveal_strlit("Feb");
    reveal_strlit("Mar");
    reveal_strlit("Apr");
    reveal_strlit("May");
    reveal_strlit("Jun");
    reveal_strlit("Jul");
    reveal_strlit("Aug");
    reveal_strlit("Sep");
    reveal_strlit("Oct");
    reveal_strlit("Nov");
    reveal_strlit("Dec");
}

proof fn lemma_short_digits(width: nat, v: nat)
    requires
        width == 1 && v < 10 || width == 2 && v < 100,
    ensures
        is_short_number(digits(width, v)),
        number_value(digits(width, v)) == v,
        width == 1 ==> digits(width, v) == seq![(48 + v) as char],
{
    lemma_digits(width, v);
    reveal_with_fuel(digits, 3);
    assert(width == 1 ==> digits(width, v) =~= seq![(48 + v) as char]);
}

/// A day below ten is read in one digit as it is in two: either way the timestamp
/// is that second of the current year.
pub proof fn days_are_read_in_one_digit_or_two(
    tokens: Seq<Seq<char>>,
    current: UtcTime,
    timestamp: Seq<char>,
    t: UtcTime,
)
    requires
        keeps_stamp(tokens, current, timestamp),
        t.plain(),
        t.whole_second(),
        t.year == current.year,
        tokens.len() >= 3,
        tokens[0] == month_name(t.month as int),
        tokens[1] == digits(2, t.day as nat) || t.day < 10 && tokens[1] == seq![
            (48 + t.day) as char,
        ],
        tokens[2] == time_text(t),
    ensures
        timestamp == iso_text(t),
{
    let hour = digits(2, t.hour as nat);
    let minute = digits(2, t.minute as nat);
    let second = digits(2, t.written_second() as nat);
    assert(t.written_second() <= 60);
    lemma_short_digits(2, t.hour as nat);
    lemma_short_digits(2, t.minute as nat);
    lemma_short_digits(2, t.written_second() as nat);
    lemma_short_digits(2, t.day as nat);
    if t.day < 10 {
        lemma_short_digits(1, t.day as nat);
    }
    assert(tokens[2] =~= hour + seq![':'] + minute + seq![':'] + second);
    stamps_are_kept_in_any_spelling(tokens, current, timestamp, t, hour, minute, second);
}

/// The event of a line of the documented shape has the time that stands in the
/// line, in the current year, the day in one digit or two.
pub proof fn lines_keep_their_time(line: LineParts, t: UtcTime, current: UtcTime)
    requires
        line.valid(),
        timely(line.text(), current),
        t.plain(),
        t.whole_second(),
        t.year == current.year,
        line.month == month_name(t.month as int),
        line.day == digits(2, t.day as nat) || t.day < 10 && line.day == seq![
            (48 + t.day) as char,
        ],
        line.time == time_text(t),
    ensures
        syslog_event(line.text(), current).timestamp == iso_text(t),
{
    lines_are_taken_apart(line);
    days_are_read_in_one_digit_or_two(
        header_words(line.text()),
        current,
        syslog_event(line.text(), current).timestamp,
        t,
    );
}

/// The timestamp of a line is the current time where its header has fewer than
/// three words, or the first three spell no second of the current year.
pub proof fn lines_without_time_have_the_current_time(raw: Seq<char>, current: UtcTime)
    requires
        timely(raw, current),
        header_words(raw).len() < 3 || current.year > 9999 || forall|t: UtcTime|
            t.valid() && t.year == current.year ==> !#[trigger] spells_stamp(
                first_three(header_words(raw)),
                t,
            ),
    ensures
        syslog_event(raw, current).timestamp == iso_text(current),
{
}

/// A timestamp is one of the current year, and keeps any second of it that the
/// first three words spell.
pub proof fn times_of_a_header_are_kept(raw: Seq<char>, t: UtcTime, current: UtcTime)
    requires
        timely(raw, current),
        header_words(raw).len() >= 3,
        t.valid(),
        t.year == current.year,
        t.year <= 9999,
        spells_stamp(first_three(header_words(raw)), t),
    ensures
        syslog_event(raw, current).timestamp == iso_text(t),
{
}

// ---------------------------------------------------------------------------
// Laws of words without a field
// ---------------------------------------------------------------------------

proof fn lemma_words_without_field(list: Seq<Seq<char>>)
    requires
        forall|i: int| 0 <= i < list.len() ==> !starts_field(#[trigger] list[i]),
    ensures
        read_words(list) == (ExtensionsModel { fields: Map::empty(), current: None }),
    decreases list.len(),
{
    if list.len() > 0 {
        assert(!starts_field(list[list.len() - 1]));
        assert forall|i: int| 0 <= i < list.drop_last().len() implies !starts_field(
            #[trigger] list.drop_last()[i],
        ) by {
            assert(!starts_field(list[i]));
        }
        lemma_words_without_field(list.drop_last());
    }
}

/// Words without `=` give no field: those before the first field are passed over.
pub proof fn words_before_the_first_field_are_passed_over(
    list: Seq<Seq<char>>,
    gaps: Seq<Seq<char>>,
)
    requires
        forall|i: int| 0 <= i < list.len() ==> is_word(#[trigger] list[i]),
        forall|i: int, j: int|
            0 <= i < list.len() && 0 <= j < list[i].len() ==> #[trigger] list[i][j] != '=',
        are_gaps(gaps, list.len()),
    ensures
        extensions_of(with_gaps(list, gaps)) == Map::<Seq<char>, Seq<char>>::empty(),
        read_words(words(with_gaps(list, gaps))).current is None,
{
    words_are_read_back(list, gaps);
    assert forall|i: int| 0 <= i < list.len() implies !starts_field(#[trigger] list[i]) by {
        let word = list[i];
        assert forall|j: int| 0 <= j && j + 1 <= word.len() implies #[trigger] word.subrange(
            j,
            j + 1,
        ) != seq!['='] by {
            assert(word.subrange(j, j + 1)[0] == list[i][j]);
            assert(seq!['='][0] == '=');
        }
        absent_text_is_not_found(word, seq!['=']);
    }
    lemma_words_without_field(list);
}

/// A CEF message is viewed by its fields, each as it is.
pub proof fn cef_messages_are_viewed_by_their_fields(message: CefMessage)
    ensures
        message@.signature_id == message.signature_id@,
        message@.name == message.name@,
        message@.extensions.dom() == message.extensions@.dom(),
        forall|key: Seq<char>|
            message.extensions@.contains_key(key) ==> #[trigger] message@.extensions[key]
                == message.extensions@[key]@,
{
}

} // verus!
