//! The output schema: one flat JSON object per event, on one line.
//!
//! Records use flat, dotted top-level keys, in a fixed order. Required fields
//! are always present; optional fields are omitted when unavailable.

use vstd::prelude::*;

use crate::json::{escaped, escaped_char, hex_digit, json_string, to_json_string};
use crate::transform::{EventCategory, EventModel, EventOutcome, EventType, NormalizedEvent};

verus! {

/// A member of a JSON object whose value is a string: key and value.
pub type Member = (Seq<char>, Seq<char>);

/// An optional member: omitted where there is no value.
pub open spec fn optional_member(key: Seq<char>, value: Option<Seq<char>>) -> Seq<Member> {
    match value {
        Some(text) => seq![(key, text)],
        None => Seq::empty(),
    }
}

/// The members of the record of an event, in order.
pub open spec fn members(event: EventModel) -> Seq<Member> {
    seq![
        ("@timestamp"@, event.timestamp),
        ("event.type"@, event.event_type.text()),
        ("event.category"@, event.event_category.text()),
        ("event.outcome"@, event.event_outcome.text()),
    ] + optional_member("source.ip"@, event.source_ip) + optional_member(
        "user.name"@,
        event.user_name,
    ) + optional_member("host.name"@, event.host_name) + optional_member(
        "log.level"@,
        event.log_level,
    ) + seq![("message"@, event.message)]
}

/// A member as JSON text.
pub open spec fn member_text(member: Member) -> Seq<char> {
    json_string(member.0) + seq![':'] + json_string(member.1)
}

/// Members as JSON text, with commas between them.
pub open spec fn members_text(list: Seq<Member>) -> Seq<char>
    decreases list.len(),
{
    if list.len() == 0 {
        Seq::empty()
    } else if list.len() == 1 {
        member_text(list[0])
    } else {
        members_text(list.drop_last()) + seq![','] + member_text(list.last())
    }
}

/// The record of an event: a compact JSON object.
pub open spec fn record_text(event: EventModel) -> Seq<char> {
    seq!['{'] + members_text(members(event)) + seq!['}']
}

/// A record that is being written: the members it holds already.
struct RecordWriter {
    text: String,
    list: Ghost<Seq<Member>>,
}

impl RecordWriter {
    spec fn wf(self) -> bool {
        self.text@ == seq!['{'] + members_text(self.list@)
    }

    /// Starts a record with a first member.
    fn start(key: &str, value: &str) -> (r: Self)
        ensures
            r.wf(),
            r.list@ == seq![(key@, value@)],
    {
        let mut text = String::new();
        text.push('{');
        push_member(&mut text, key, value);
        let ghost list = seq![(key@, value@)];
        assert(text@ =~= seq!['{'] + members_text(list));
        RecordWriter { text, list: Ghost(list) }
    }

    /// Writes a further member.
    fn member(&mut self, key: &str, value: &str)
        requires
            old(self).wf(),
            old(self).list@.len() > 0,
        ensures
            final(self).wf(),
            final(self).list@ == old(self).list@.push((key@, value@)),
    {
        let ghost longer = self.list@.push((key@, value@));
        self.text.push(',');
        push_member(&mut self.text, key, value);
        assert(longer.drop_last() =~= self.list@);
        assert(self.text@ =~= seq!['{'] + members_text(longer));
        self.list = Ghost(longer);
    }

    /// Writes a further member where there is a value.
    fn optional(&mut self, key: &str, value: &Option<String>)
        requires
            old(self).wf(),
            old(self).list@.len() > 0,
        ensures
            final(self).wf(),
            final(self).list@ == old(self).list@ + optional_member(
                key@,
                crate::text::string_option_view(*value),
            ),
    {
        match value {
            Some(text) => {
                self.member(key, text.as_str());
                assert(self.list@ =~= old(self).list@ + optional_member(key@, Some(text@)));
            },
            None => {
                assert(self.list@ =~= old(self).list@ + optional_member(key@, None));
            },
        }
    }
}

fn push_member(text: &mut String, key: &str, value: &str)
    ensures
        final(text)@ == old(text)@ + member_text((key@, value@)),
{
    push_string(text, key);
    text.push(':');
    push_string(text, value);
    assert(text@ =~= old(text)@ + member_text((key@, value@)));
}

fn push_string(text: &mut String, s: &str)
    ensures
        final(text)@ == old(text)@ + json_string(s@),
{
    if let Ok(quoted) = to_json_string(s) {
        text.append(quoted.as_str());
    }
}

/// Writes an event as one line of NDJSON, without the line end.
pub fn to_json(event: &NormalizedEvent) -> (r: String)
    ensures
        r@ == record_text(event@),
{
    let mut record = RecordWriter::start("@timestamp", event.timestamp.as_str());
    record.member("event.type", event.event_type.name());
    record.member("event.category", event.event_category.name());
    record.member("event.outcome", event.event_outcome.name());
    assert(record.list@ =~= seq![
        ("@timestamp"@, event.timestamp@),
        ("event.type"@, event.event_type.text()),
        ("event.category"@, event.event_category.text()),
        ("event.outcome"@, event.event_outcome.text()),
    ]);
    record.optional("source.ip", &event.source_ip);
    record.optional("user.name", &event.user_name);
    record.optional("host.name", &event.host_name);
    record.optional("log.level", &event.log_level);
    record.member("message", event.message.as_str());
    assert(record.list@ =~= members(event@));
    let mut text = record.text;
    text.push('}');
    assert(text@ =~= record_text(event@));
    text
}

// ---------------------------------------------------------------------------
// Laws
// ---------------------------------------------------------------------------

/// True when a text has no control character below the space, so in particular
/// no line end.
pub open spec fn is_one_line(s: Seq<char>) -> bool {
    forall|i: int| 0 <= i < s.len() ==> (#[trigger] s[i] as int) >= 32
}

proof fn lemma_one_line_concat(a: Seq<char>, b: Seq<char>)
    requires
        is_one_line(a),
        is_one_line(b),
    ensures
        is_one_line(a + b),
{
    assert forall|i: int| 0 <= i < (a + b).len() implies (#[trigger] (a + b)[i] as int) >= 32 by {
        if i < a.len() {
            assert((a + b)[i] == a[i]);
        } else {
            assert((a + b)[i] == b[i - a.len()]);
        }
    }
}

/// A JSON string is on one line, whatever it stands for.
pub proof fn json_strings_are_one_line(s: Seq<char>)
    ensures
        is_one_line(json_string(s)),
{
    lemma_escaped_is_one_line(s);
    lemma_one_line_concat(seq!['"'], escaped(s));
    lemma_one_line_concat(seq!['"'] + escaped(s), seq!['"']);
}

proof fn lemma_escaped_char_is_one_line(c: char)
    ensures
        is_one_line(escaped_char(c)),
{
    if (c as int) < 32 {
        let code: u32 = c as u32;
        assert(code / 16 < 2 && code % 16 < 16);
        assert(hex_digit(c as int / 16) as int >= 48);
        assert(hex_digit(c as int % 16) as int >= 48);
    }
}

proof fn lemma_escaped_is_one_line(s: Seq<char>)
    ensures
        is_one_line(escaped(s)),
    decreases s.len(),
{
    if s.len() > 0 {
        lemma_escaped_is_one_line(s.drop_last());
        lemma_escaped_char_is_one_line(s.last());
        lemma_one_line_concat(escaped(s.drop_last()), escaped_char(s.last()));
    }
}

proof fn lemma_members_are_one_line(list: Seq<Member>)
    ensures
        is_one_line(members_text(list)),
    decreases list.len(),
{
    if list.len() > 0 {
        let last = list.last();
        json_strings_are_one_line(last.0);
        json_strings_are_one_line(last.1);
        lemma_one_line_concat(json_string(last.0), seq![':']);
        lemma_one_line_concat(json_string(last.0) + seq![':'], json_string(last.1));
        if list.len() > 1 {
            lemma_members_are_one_line(list.drop_last());
            lemma_one_line_concat(members_text(list.drop_last()), seq![',']);
            lemma_one_line_concat(
                members_text(list.drop_last()) + seq![','],
                member_text(last),
            );
        }
    }
}

/// A record is on one line, whatever the event holds.
pub proof fn records_are_one_line(event: EventModel)
    ensures
        is_one_line(record_text(event)),
{
    lemma_members_are_one_line(members(event));
    lemma_one_line_concat(seq!['{'], members_text(members(event)));
    lemma_one_line_concat(seq!['{'] + members_text(members(event)), seq!['}']);
}

/// The value that the record of an event has under a key: required fields always
/// have one, optional fields where they are available, other keys none.
pub open spec fn field(event: EventModel, key: Seq<char>) -> Option<Seq<char>> {
    if key == "@timestamp"@ {
        Some(event.timestamp)
    } else if key == "event.type"@ {
        Some(event.event_type.text())
    } else if key == "event.category"@ {
        Some(event.event_category.text())
    } else if key == "event.outcome"@ {
        Some(event.event_outcome.text())
    } else if key == "source.ip"@ {
        event.source_ip
    } else if key == "user.name"@ {
        event.user_name
    } else if key == "host.name"@ {
        event.host_name
    } else if key == "log.level"@ {
        event.log_level
    } else if key == "message"@ {
        Some(event.message)
    } else {
        None
    }
}

/// The place of a key in the schema.
pub open spec fn rank(key: Seq<char>) -> int {
    if key == "@timestamp"@ {
        0
    } else if key == "event.type"@ {
        1
    } else if key == "event.category"@ {
        2
    } else if key == "event.outcome"@ {
        3
    } else if key == "source.ip"@ {
        4
    } else if key == "user.name"@ {
        5
    } else if key == "host.name"@ {
        6
    } else if key == "log.level"@ {
        7
    } else {
        8
    }
}

proof fn lemma_ranks()
    ensures
        rank("@timestamp"@) == 0,
        rank("event.type"@) == 1,
        rank("event.category"@) == 2,
        rank("event.outcome"@) == 3,
        rank("source.ip"@) == 4,
        rank("user.name"@) == 5,
        rank("host.name"@) == 6,
        rank("log.level"@) == 7,
        rank("message"@) == 8,
{
    reveal_strlit("@timestamp");
    reveal_strlit("event.type");
    reveal_strlit("event.category");
    reveal_strlit("event.outcome");
    reveal_strlit("source.ip");
    reveal_strlit("user.name");
    reveal_strlit("host.name");
    reveal_strlit("log.level");
    reveal_strlit("message");
    assert("@timestamp"@.len() == 10);
    assert("event.type"@.len() == 10);
    assert("event.category"@.len() == 14);
    assert("event.outcome"@.len() == 13);
    assert("source.ip"@.len() == 9);
    assert("user.name"@.len() == 9);
    assert("host.name"@.len() == 9);
    assert("log.level"@.len() == 9);
    assert("message"@.len() == 7);
    assert("@timestamp"@[0] != "event.type"@[0]);
    assert("source.ip"@[0] != "user.name"@[0]);
    assert("source.ip"@[0] != "host.name"@[0]);
    assert("source.ip"@[0] != "log.level"@[0]);
    assert("user.name"@[0] != "host.name"@[0]);
    assert("user.name"@[0] != "log.level"@[0]);
    assert("host.name"@[0] != "log.level"@[0]);
}

/// The record of an event holds the schema: its members are the fields that the
/// event has, no others, each once, in the order of the schema.
pub proof fn records_follow_the_schema(event: EventModel)
    ensures
        forall|key: Seq<char>, value: Seq<char>| #[trigger]
            members(event).contains((key, value)) <==> field(event, key) == Some(value),
        forall|i: int, j: int|
            0 <= i < j < members(event).len() ==> rank(#[trigger] members(event)[i].0) < rank(
                #[trigger] members(event)[j].0,
            ),
{
    lemma_ranks();
    let list = members(event);
    assert forall|key: Seq<char>, value: Seq<char>| #[trigger]
        list.contains((key, value)) implies field(event, key) == Some(value) by {
        let i = choose|i: int| 0 <= i < list.len() && list[i] == (key, value);
        assert(list[i] == (key, value));
    }
    assert forall|key: Seq<char>, value: Seq<char>|
        field(event, key) == Some(value) implies #[trigger] list.contains((key, value)) by {
        let a: int = if event.source_ip is Some { 1 } else { 0 };
        let b: int = if event.user_name is Some { 1 } else { 0 };
        let c: int = if event.host_name is Some { 1 } else { 0 };
        let d: int = if event.log_level is Some { 1 } else { 0 };
        let r = rank(key);
        let i = if r <= 4 {
            r
        } else if r == 5 {
            4 + a
        } else if r == 6 {
            4 + a + b
        } else if r == 7 {
            4 + a + b + c
        } else {
            4 + a + b + c + d
        };
        assert(list[i] == (key, value));
    }
}

// ---------------------------------------------------------------------------
// Reading records back
// ---------------------------------------------------------------------------

/// The value of a hexadecimal digit, where it is one.
pub open spec fn hex_value(c: char) -> Option<int> {
    if '0' <= c <= '9' {
        Some(c as int - '0' as int)
    } else if 'a' <= c <= 'f' {
        Some(c as int - 'a' as int + 10)
    } else {
        None
    }
}

/// The character that leads a text inside a JSON string, and the number of
/// characters that stand for it. Of the escapes by code it knows those below 256.
pub open spec fn read_char(s: Seq<char>) -> Option<(char, int)> {
    if s.len() == 0 || (s[0] as int) < 32 {
        None
    } else if s[0] != '\\' {
        Some((s[0], 1))
    } else if s.len() < 2 {
        None
    } else if s[1] == '"' || s[1] == '\\' || s[1] == '/' {
        Some((s[1], 2))
    } else if s[1] == 'b' {
        Some(('\u{8}', 2))
    } else if s[1] == 't' {
        Some(('\t', 2))
    } else if s[1] == 'n' {
        Some(('\n', 2))
    } else if s[1] == 'f' {
        Some(('\u{c}', 2))
    } else if s[1] == 'r' {
        Some(('\r', 2))
    } else if s[1] == 'u' && s.len() >= 6 && s[2] == '0' && s[3] == '0' {
        match (hex_value(s[4]), hex_value(s[5])) {
            (Some(high), Some(low)) => Some(((high * 16 + low) as char, 6)),
            _ => None,
        }
    } else {
        None
    }
}

/// Reads a JSON string behind its opening quote: what it stands for, and what
/// follows its closing quote.
pub open spec fn read_string(s: Seq<char>) -> Option<(Seq<char>, Seq<char>)>
    decreases s.len(),
{
    if s.len() > 0 && s[0] == '"' {
        Some((Seq::empty(), s.skip(1)))
    } else {
        match read_char(s) {
            Some((c, size)) => match read_string(s.skip(size)) {
                Some((text, rest)) => Some((seq![c] + text, rest)),
                None => None,
            },
            None => None,
        }
    }
}

/// Reads a member of a JSON object whose value is a string: the member, and what
/// follows it.
pub open spec fn read_member(s: Seq<char>) -> Option<(Member, Seq<char>)> {
    if s.len() > 0 && s[0] == '"' {
        match read_string(s.skip(1)) {
            Some((key, rest)) => if rest.len() >= 2 && rest[0] == ':' && rest[1] == '"' {
                match read_string(rest.skip(2)) {
                    Some((value, rest)) => Some(((key, value), rest)),
                    None => None,
                }
            } else {
                None
            },
            None => None,
        }
    } else {
        None
    }
}

/// Reads one or more members up to the closing brace that ends the text.
pub open spec fn read_members(s: Seq<char>) -> Option<Seq<Member>>
    decreases s.len(),
{
    match read_member(s) {
        Some((member, rest)) => if rest == seq!['}'] {
            Some(seq![member])
        } else if 0 < rest.len() <= s.len() && rest[0] == ',' {
            match read_members(rest.skip(1)) {
                Some(more) => Some(seq![member] + more),
                None => None,
            }
        } else {
            None
        },
        None => None,
    }
}

/// Reads a compact JSON object of strings: its members, in order.
pub open spec fn read_object(s: Seq<char>) -> Option<Seq<Member>> {
    if s.len() > 0 && s[0] == '{' {
        read_members(s.skip(1))
    } else {
        None
    }
}

proof fn lemma_char_is_read(c: char, rest: Seq<char>)
    ensures
        read_char(escaped_char(c) + rest) == Some((c, escaped_char(c).len() as int)),
        escaped_char(c)[0] != '"',
        escaped_char(c).len() > 0,
{
    let text = escaped_char(c) + rest;
    if (c as int) < 32 {
        let code: u32 = c as u32;
        assert(code / 16 < 2 && code % 16 < 16);
        assert(hex_value(hex_digit(c as int / 16)) == Some(c as int / 16));
        assert(hex_value(hex_digit(c as int % 16)) == Some(c as int % 16));
        assert(((c as int / 16) * 16 + c as int % 16) as char == c);
    }
    assert(forall|i: int| 0 <= i < escaped_char(c).len() ==> text[i] == escaped_char(c)[i]);
}

proof fn lemma_escaped_from_the_front(s: Seq<char>)
    requires
        s.len() > 0,
    ensures
        escaped(s) == escaped_char(s.first()) + escaped(s.drop_first()),
    decreases s.len(),
{
    if s.len() == 1 {
        assert(s.drop_last() =~= Seq::empty());
        assert(s.drop_first() =~= Seq::empty());
        assert(escaped(s) =~= escaped_char(s.first()) + escaped(s.drop_first()));
    } else {
        lemma_escaped_from_the_front(s.drop_last());
        assert(s.drop_last().drop_first() =~= s.drop_first().drop_last());
        assert(escaped(s) =~= escaped_char(s.first()) + escaped(s.drop_first()));
    }
}

/// A JSON string is read back as the text it was written for, whatever follows.
pub proof fn strings_are_read_back(s: Seq<char>, rest: Seq<char>)
    ensures
        json_string(s)[0] == '"',
        read_string((json_string(s) + rest).skip(1)) == Some((s, rest)),
    decreases s.len(),
{
    let text = (json_string(s) + rest).skip(1);
    assert(text =~= escaped(s) + (seq!['"'] + rest));
    if s.len() == 0 {
        assert(text[0] == '"');
        assert(text.skip(1) =~= rest);
        assert(s =~= Seq::empty());
    } else {
        let c = s.first();
        let front = s.drop_first();
        lemma_escaped_from_the_front(s);
        let behind = escaped(front) + (seq!['"'] + rest);
        assert(text =~= escaped_char(c) + behind);
        lemma_char_is_read(c, behind);
        assert(text[0] == escaped_char(c)[0]);
        assert(text.skip(escaped_char(c).len() as int) =~= behind);
        strings_are_read_back(front, rest);
        assert((json_string(front) + rest).skip(1) =~= behind);
        assert(seq![c] + front =~= s);
    }
}

proof fn lemma_member_is_read(member: Member, rest: Seq<char>)
    ensures
        read_member(member_text(member) + rest) == Some((member, rest)),
        member_text(member).len() > 0,
{
    let text = member_text(member) + rest;
    let behind = seq![':'] + json_string(member.1) + rest;
    assert(text =~= json_string(member.0) + behind);
    strings_are_read_back(member.0, behind);
    assert(text[0] == '"');
    strings_are_read_back(member.1, rest);
    assert(behind[0] == ':');
    assert(behind[1] == '"');
    assert(behind.skip(2) =~= (json_string(member.1) + rest).skip(1));
}

proof fn lemma_members_from_the_front(list: Seq<Member>)
    requires
        list.len() > 1,
    ensures
        members_text(list) == member_text(list.first()) + seq![','] + members_text(
            list.drop_first(),
        ),
    decreases list.len(),
{
    if list.len() == 2 {
        assert(members_text(list.drop_last()) == member_text(list.first()));
        assert(members_text(list.drop_first()) == member_text(list.last()));
    } else {
        lemma_members_from_the_front(list.drop_last());
        assert(list.drop_last().drop_first() =~= list.drop_first().drop_last());
        assert(members_text(list) =~= member_text(list.first()) + seq![','] + members_text(
            list.drop_first(),
        ));
    }
}

proof fn lemma_members_are_read(list: Seq<Member>)
    requires
        list.len() > 0,
    ensures
        read_members(members_text(list) + seq!['}']) == Some(list),
    decreases list.len(),
{
    let text = members_text(list) + seq!['}'];
    if list.len() == 1 {
        lemma_member_is_read(list[0], seq!['}']);
        assert(list =~= seq![list[0]]);
    } else {
        let more = list.drop_first();
        lemma_members_from_the_front(list);
        let rest = seq![','] + members_text(more) + seq!['}'];
        assert(text =~= member_text(list.first()) + rest);
        lemma_member_is_read(list.first(), rest);
        assert(rest[0] == ',');
        assert(seq!['}'][0] == '}');
        assert(rest.skip(1) =~= members_text(more) + seq!['}']);
        lemma_members_are_read(more);
        assert(seq![list.first()] + more =~= list);
    }
}

/// A record is a JSON object that is read back as its members, whatever the
/// event holds.
pub proof fn records_are_read_back(event: EventModel)
    ensures
        read_object(record_text(event)) == Some(members(event)),
{
    lemma_members_are_read(members(event));
    assert(record_text(event).skip(1) =~= members_text(members(event)) + seq!['}']);
}

/// True when a text is a JSON object that holds an event: under each key of the
/// schema the value that the event has, each key once, and nothing else.
#[verifier::opaque]
pub open spec fn holds_event(text: Seq<char>, event: EventModel) -> bool {
    let list = read_object(text)->Some_0;
    let kind = match event.event_type {
        EventType::Start => "start"@,
        EventType::End => "end"@,
        EventType::Info => "info"@,
        EventType::Denied => "denied"@,
        EventType::Allowed => "allowed"@,
    };
    let category = match event.event_category {
        EventCategory::Authentication => "authentication"@,
        EventCategory::Network => "network"@,
        EventCategory::Process => "process"@,
        EventCategory::Host => "host"@,
    };
    let result = match event.event_outcome {
        EventOutcome::Success => "success"@,
        EventOutcome::Failure => "failure"@,
        EventOutcome::Unknown => "unknown"@,
    };
    &&& read_object(text) is Some
    &&& list.contains(("@timestamp"@, event.timestamp))
    &&& list.contains(("event.type"@, kind))
    &&& list.contains(("event.category"@, category))
    &&& list.contains(("event.outcome"@, result))
    &&& list.contains(("message"@, event.message))
    &&& forall|ip: Seq<char>| #[trigger]
        list.contains(("source.ip"@, ip)) <==> event.source_ip == Some(ip)
    &&& forall|user: Seq<char>| #[trigger]
        list.contains(("user.name"@, user)) <==> event.user_name == Some(user)
    &&& forall|host: Seq<char>| #[trigger]
        list.contains(("host.name"@, host)) <==> event.host_name == Some(host)
    &&& forall|level: Seq<char>| #[trigger]
        list.contains(("log.level"@, level)) <==> event.log_level == Some(level)
    &&& forall|i: int, j: int|
        0 <= i < j < list.len() ==> (#[trigger] list[i]).0 != (#[trigger] list[j]).0
    &&& forall|i: int|
        0 <= i < list.len() ==> {
            let key = (#[trigger] list[i]).0;
            ||| key == "@timestamp"@
            ||| key == "event.type"@
            ||| key == "event.category"@
            ||| key == "event.outcome"@
            ||| key == "source.ip"@
            ||| key == "user.name"@
            ||| key == "host.name"@
            ||| key == "log.level"@
            ||| key == "message"@
        }
}

/// The record of an event holds the event.
pub proof fn records_hold_their_event(event: EventModel)
    ensures
        holds_event(record_text(event), event),
{
    reveal(holds_event);
    records_are_read_back(event);
    records_follow_the_schema(event);
    lemma_ranks();
    let list = members(event);
    assert(field(event, "@timestamp"@) == Some(event.timestamp));
    assert(field(event, "event.type"@) == Some(event.event_type.text()));
    assert(field(event, "event.category"@) == Some(event.event_category.text()));
    assert(field(event, "event.outcome"@) == Some(event.event_outcome.text()));
    assert(field(event, "source.ip"@) == event.source_ip);
    assert(field(event, "user.name"@) == event.user_name);
    assert(field(event, "host.name"@) == event.host_name);
    assert(field(event, "log.level"@) == event.log_level);
    assert(field(event, "message"@) == Some(event.message));
    assert forall|i: int| 0 <= i < list.len() implies field(event, (#[trigger] list[i]).0)
        is Some by {
        assert(list.contains((list[i].0, list[i].1)));
    }
    assert forall|i: int, j: int| 0 <= i < j < list.len() implies (#[trigger] list[i]).0 != (
    #[trigger] list[j]).0 by {
        assert(rank(list[i].0) < rank(list[j].0));
    }
}

} // verus!
