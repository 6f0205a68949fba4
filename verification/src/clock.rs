//! Instants in UTC: the boundary to `chrono`, and how instants are written.

use chrono::{Datelike, TimeZone, Timelike};
use vstd::arithmetic::power::pow;
use vstd::prelude::*;

use crate::number::{digits, integer_text, is_digit, is_number, value};
use crate::text::{ascii_lower, is_blank, is_word};

verus! {

/// The layout of the timestamps that are written: ISO 8601 in UTC with
/// milliseconds.
pub const TIMESTAMP_LAYOUT: &'static str = "%Y-%m-%dT%H:%M:%S%.3fZ";

/// The layout of an RFC 3164 timestamp behind a year.
pub const STAMP_LAYOUT: &'static str = "%Y %b %d %H:%M:%S";

/// An instant in UTC, by the proleptic Gregorian calendar.
#[derive(Debug, Clone, Copy, PartialEq, Eq, Structural)]
pub struct UtcTime {
    pub year: i32,
    /// From 1.
    pub month: u32,
    /// From 1.
    pub day: u32,
    pub hour: u32,
    pub minute: u32,
    pub second: u32,
    /// Nanoseconds since the second; a billion and more in a leap second, which
    /// only second 59 has.
    pub nanos: u32,
}

/// True for the years with a 29th of February.
pub open spec fn is_leap_year(year: int) -> bool {
    year % 4 == 0 && (year % 100 != 0 || year % 400 == 0)
}

/// The number of days of a month.
pub open spec fn days_in_month(year: int, month: int) -> int {
    if month == 2 {
        if is_leap_year(year) {
            29
        } else {
            28
        }
    } else if month == 4 || month == 6 || month == 9 || month == 11 {
        30
    } else {
        31
    }
}

impl UtcTime {
    /// True for the instants there are, within the years that `chrono` covers.
    pub open spec fn valid(self) -> bool {
        &&& -262143 <= self.year <= 262142
        &&& 1 <= self.month <= 12
        &&& 1 <= self.day <= days_in_month(self.year as int, self.month as int)
        &&& self.hour < 24
        &&& self.minute < 60
        &&& self.second < 60
        &&& self.nanos < 1_000_000_000 || (self.second == 59 && self.nanos < 2_000_000_000)
    }

    /// The instants whose year is written with four digits.
    pub open spec fn plain(self) -> bool {
        self.valid() && 0 <= self.year <= 9999
    }

    /// The instants that the system clock can show, from 1970 on.
    pub open spec fn shown(self) -> bool {
        self.valid() && 1970 <= self.year
    }

    /// The second as it is written: a leap second is second 60.
    pub open spec fn written_second(self) -> int {
        self.second + self.nanos / 1_000_000_000
    }

    /// The fields that can be written in their places: four digits for the year,
    /// two for each of the others.
    pub open spec fn writable(self) -> bool {
        &&& 0 <= self.year <= 9999
        &&& self.month < 100
        &&& self.day < 100
        &&& self.hour < 100
        &&& self.minute < 100
        &&& self.written_second() < 100
    }

    /// True when there is such a date and, as it is written, such a time of day.
    pub open spec fn possible(self) -> bool {
        &&& 1 <= self.month <= 12
        &&& 1 <= self.day <= days_in_month(self.year as int, self.month as int)
        &&& self.hour < 24
        &&& self.minute < 60
        &&& self.written_second() <= 60
    }

    /// True at the start of a second, leap seconds included.
    pub open spec fn whole_second(self) -> bool {
        self.nanos % 1_000_000_000 == 0
    }
}

/// The start of 1970.
pub open spec fn epoch() -> UtcTime {
    UtcTime { year: 1970, month: 1, day: 1, hour: 0, minute: 0, second: 0, nanos: 0 }
}

// ---------------------------------------------------------------------------
// How instants are written
// ---------------------------------------------------------------------------

/// A year: four digits, or a sign and at least four.
pub open spec fn year_text(year: int) -> Seq<char> {
    if year < 0 {
        seq!['-'] + digits(4, (-year) as nat)
    } else if year > 9999 {
        seq!['+'] + digits(4, year as nat)
    } else {
        digits(4, year as nat)
    }
}

/// The date of an instant, `YYYY-MM-DD`.
pub open spec fn date_text(t: UtcTime) -> Seq<char> {
    year_text(t.year as int) + seq!['-'] + digits(2, t.month as nat) + seq!['-'] + digits(
        2,
        t.day as nat,
    )
}

/// The time of day of an instant, `HH:MM:SS`; a leap second is second 60.
pub open spec fn time_text(t: UtcTime) -> Seq<char> {
    digits(2, t.hour as nat) + seq![':'] + digits(2, t.minute as nat) + seq![':'] + digits(
        2,
        t.written_second() as nat,
    )
}

/// A date and time of day in RFC 3339, to the second.
pub open spec fn head_text(t: UtcTime) -> Seq<char> {
    date_text(t) + seq!['T'] + time_text(t)
}

/// True when a text starts with the shape of an RFC 3339 date and time of day,
/// `YYYY-MM-DDTHH:MM:SS`; `t` and a space may stand for `T`.
pub open spec fn has_head_shape(text: Seq<char>) -> bool {
    &&& text.len() >= 19
    &&& forall|i: int|
        0 <= i < 19 ==> if i == 4 || i == 7 {
            #[trigger] text[i] == '-'
        } else if i == 10 {
            text[i] == 'T' || text[i] == 't' || text[i] == ' '
        } else if i == 13 || i == 16 {
            text[i] == ':'
        } else {
            is_digit(text[i])
        }
}

/// An instant in ISO 8601 with milliseconds, `YYYY-MM-DDTHH:MM:SS.mmmZ`.
pub open spec fn iso_text(t: UtcTime) -> Seq<char> {
    head_text(t) + seq!['.'] + digits(3, ((t.nanos / 1_000_000) % 1000) as nat) + seq!['Z']
}

/// A date and time of day in RFC 3339 with the given number of decimal places,
/// before the offset.
pub open spec fn date_time_text(t: UtcTime, places: nat) -> Seq<char> {
    let fraction = if places == 0 {
        Seq::empty()
    } else {
        seq!['.'] + digits(
            places,
            (t.nanos as int % 1_000_000_000 / pow(10, (9 - places) as nat)) as nat,
        )
    };
    head_text(t) + fraction
}

/// An instant in RFC 3339 with the given number of decimal places.
pub open spec fn rfc3339_text(t: UtcTime, places: nat) -> Seq<char> {
    date_time_text(t, places) + seq!['Z']
}

/// An offset from UTC in minutes, `+HH:MM` or `-HH:MM`.
pub open spec fn offset_text(offset: int) -> Seq<char> {
    let size = if offset < 0 {
        -offset
    } else {
        offset
    };
    seq![
        if offset < 0 {
            '-'
        } else {
            '+'
        },
    ] + digits(2, (size / 60) as nat) + seq![':'] + digits(2, (size % 60) as nat)
}

/// A local date and time in RFC 3339, with its offset from UTC in minutes.
pub open spec fn rfc3339_local_text(local: UtcTime, places: nat, offset: int) -> Seq<char> {
    date_time_text(local, places) + offset_text(offset)
}

/// The same time of the next day.
pub open spec fn next_day(t: UtcTime) -> UtcTime {
    if t.day < days_in_month(t.year as int, t.month as int) {
        UtcTime { day: (t.day + 1) as u32, ..t }
    } else if t.month < 12 {
        UtcTime { month: (t.month + 1) as u32, day: 1, ..t }
    } else {
        UtcTime { year: (t.year + 1) as i32, month: 1, day: 1, ..t }
    }
}

/// The same time of the day before.
pub open spec fn previous_day(t: UtcTime) -> UtcTime {
    if t.day > 1 {
        UtcTime { day: (t.day - 1) as u32, ..t }
    } else if t.month > 1 {
        UtcTime {
            month: (t.month - 1) as u32,
            day: days_in_month(t.year as int, t.month - 1) as u32,
            ..t
        }
    } else {
        UtcTime { year: (t.year - 1) as i32, month: 12, day: 31, ..t }
    }
}

/// A local date and time whose offset from UTC is less than a day, brought to
/// UTC.
pub open spec fn in_utc(local: UtcTime, offset: int) -> UtcTime {
    let minutes = local.hour * 60 + local.minute - offset;
    let day = if minutes < 0 {
        previous_day(local)
    } else if minutes >= 1440 {
        next_day(local)
    } else {
        local
    };
    UtcTime {
        hour: (minutes % 1440 / 60) as u32,
        minute: (minutes % 60) as u32,
        ..day
    }
}

/// True when an instant is a whole number of units of the last of the given
/// decimal places.
pub open spec fn has_places(t: UtcTime, places: nat) -> bool {
    places <= 9 && t.nanos as int % pow(10, (9 - places) as nat) == 0
}

/// The abbreviated English name of a month.
pub open spec fn month_name(month: int) -> Seq<char> {
    if month == 1 {
        "Jan"@
    } else if month == 2 {
        "Feb"@
    } else if month == 3 {
        "Mar"@
    } else if month == 4 {
        "Apr"@
    } else if month == 5 {
        "May"@
    } else if month == 6 {
        "Jun"@
    } else if month == 7 {
        "Jul"@
    } else if month == 8 {
        "Aug"@
    } else if month == 9 {
        "Sep"@
    } else if month == 10 {
        "Oct"@
    } else if month == 11 {
        "Nov"@
    } else {
        "Dec"@
    }
}

/// True when a word starts with the abbreviated name of a month, in any case.
pub open spec fn names_month(word: Seq<char>) -> bool {
    word.len() >= 3 && exists|month: int|
        1 <= month <= 12 && word.take(3).map_values(|c: char| ascii_lower(c))
            == (#[trigger] month_name(month)).map_values(|c: char| ascii_lower(c))
}

/// A year with the three parts of an RFC 3164 timestamp behind it.
pub open spec fn stamp_text(
    year: int,
    month: Seq<char>,
    day: Seq<char>,
    time: Seq<char>,
) -> Seq<char> {
    integer_text(year) + seq![' '] + month + seq![' '] + day + seq![' '] + time
}

/// The year and RFC 3164 timestamp of an instant.
pub open spec fn stamp_of(t: UtcTime) -> Seq<char> {
    stamp_text(
        t.year as int,
        month_name(t.month as int),
        digits(2, t.day as nat),
        time_text(t),
    )
}

/// A text behind a year and a space.
pub open spec fn behind_year(year: int, rest: Seq<char>) -> Seq<char> {
    integer_text(year) + seq![' '] + rest
}

/// True for a number of one or two digits.
pub open spec fn is_short_number(s: Seq<char>) -> bool {
    is_number(s) && s.len() <= 2
}

/// The parts of an RFC 3164 timestamp, and the whitespace before each of them.
pub struct StampParts {
    pub month: Seq<char>,
    pub day: Seq<char>,
    pub hour: Seq<char>,
    pub minute: Seq<char>,
    pub second: Seq<char>,
    pub gaps: Seq<Seq<char>>,
}

impl StampParts {
    /// The text of the parts.
    pub open spec fn text(self) -> Seq<char> {
        self.gaps[0] + self.month + self.gaps[1] + self.day + self.gaps[2] + self.hour + seq![':']
            + self.gaps[3] + self.minute + seq![':'] + self.gaps[4] + self.second
    }

    /// True for parts that can be told apart: the numbers have one or two digits,
    /// and a day of one digit is parted from the hour.
    pub open spec fn told_apart(self) -> bool {
        &&& self.month.len() == 3
        &&& is_short_number(self.day)
        &&& is_short_number(self.hour)
        &&& is_short_number(self.minute)
        &&& is_short_number(self.second)
        &&& self.gaps.len() == 5
        &&& forall|i: int| 0 <= i < 5 ==> is_blank(#[trigger] self.gaps[i])
        &&& self.day.len() == 2 || self.gaps[2].len() > 0
    }

    /// True when the parts name an instant; the month may be in any case.
    pub open spec fn tells(self, t: UtcTime) -> bool {
        &&& self.month.map_values(|c: char| ascii_lower(c)) == month_name(
            t.month as int,
        ).map_values(|c: char| ascii_lower(c))
        &&& value(self.day) == t.day
        &&& value(self.hour) == t.hour
        &&& value(self.minute) == t.minute
        &&& value(self.second) == t.written_second()
    }
}

/// True when a text spells the month, day and time of a second.
pub open spec fn spells_stamp(text: Seq<char>, t: UtcTime) -> bool {
    t.whole_second() && exists|parts: StampParts|
        parts.told_apart() && #[trigger] parts.tells(t) && text == parts.text()
}

/// True when a text spells a fraction of a second in nanoseconds: nothing, or a
/// point and at least one digit, of which those behind the ninth do not count.
pub open spec fn spells_fraction(text: Seq<char>, nanos: int) -> bool {
    if text.len() == 0 {
        nanos == 0
    } else {
        let places = text.skip(1);
        &&& text[0] == '.'
        &&& is_number(places)
        &&& nanos == if places.len() <= 9 {
            value(places) * pow(10, (9 - places.len()) as nat)
        } else {
            value(places.take(9)) as int
        }
    }
}

/// True when a text spells an offset from UTC in minutes: `Z`, or a sign, hours
/// and minutes.
pub open spec fn spells_offset(text: Seq<char>, offset: int) -> bool {
    if text == seq!['Z'] || text == seq!['z'] {
        offset == 0
    } else {
        let minutes = value(text.subrange(1, 3)) * 60 + value(text.subrange(4, 6));
        &&& text.len() == 6
        &&& is_number(text.subrange(1, 3))
        &&& text[3] == ':'
        &&& is_number(text.subrange(4, 6))
        &&& value(text.subrange(4, 6)) < 60
        &&& text[0] == '+' && offset == minutes || (text[0] == '-' || text[0] == '\u{2212}')
            && offset == -minutes
    }
}

/// True when a text spells a local date and time, and its offset from UTC in
/// minutes, in RFC 3339; `t` and a space may stand for `T`, and `z` for `Z`.
pub open spec fn spells_rfc3339(text: Seq<char>, local: UtcTime, offset: int) -> bool {
    exists|separator: char, fraction: Seq<char>, zone: Seq<char>|
        {
            &&& separator == 'T' || separator == 't' || separator == ' '
            &&& #[trigger] spells_fraction(fraction, local.nanos as int % 1_000_000_000)
            &&& #[trigger] spells_offset(zone, offset)
            &&& text == #[trigger] date_text(local).push(separator) + time_text(local) + fraction
                + zone
        }
}

// ---------------------------------------------------------------------------
// `chrono`
// ---------------------------------------------------------------------------

/// What `chrono::NaiveDateTime::parse_from_str` makes of a text with a layout,
/// taken as UTC.
pub uninterp spec fn parsed_stamp(text: Seq<char>, layout: Seq<char>) -> Option<UtcTime>;

/// What `chrono::DateTime::parse_from_rfc3339` makes of a text, in UTC.
pub uninterp spec fn parsed_rfc3339(text: Seq<char>) -> Option<UtcTime>;

/// `chrono::NaiveDateTime::parse_from_str` with [`STAMP_LAYOUT`] reads an instant
/// from a text. The result is a function of the text and a valid instant, in the
/// year that leads the text. The stamp of a whole second, its year in at most
/// four digits, reads back as that second; second 60 is the leap second behind
/// second 59. A stamp of a date or time of day that there is not cannot be read,
/// nor can one whose first word names no month. Behind a year below 10000, the
/// texts that can be read are those that spell an instant of that year (see
/// [`spells_stamp`]), numbers below ten in one digit or two, and they read as that
/// instant; behind a later year none can.
#[verifier::external_body]
pub(crate) fn parse_stamp(text: &str, layout: &str) -> (r: Option<UtcTime>)
    requires
        layout@ == STAMP_LAYOUT@,
    ensures
        r == parsed_stamp(text@, layout@),
        r matches Some(t) ==> t.valid(),
        forall|t: UtcTime|
            t.plain() && t.whole_second() && text@ == #[trigger] stamp_of(t) ==> r == Some(t),
        forall|year: int, month: Seq<char>, day: Seq<char>, time: Seq<char>|
            text@ == #[trigger] stamp_text(year, month, day, time) && r is Some
                ==> r->Some_0.year == year,
        forall|t: UtcTime|
            t.writable() && 1 <= t.month <= 12 && !t.possible() && text@ == #[trigger] stamp_of(t)
                ==> r is None,
        forall|year: int, month: Seq<char>, day: Seq<char>, time: Seq<char>|
            text@ == #[trigger] stamp_text(year, month, day, time) && is_word(month)
                && !names_month(month) ==> r is None,
        forall|rest: Seq<char>, t: UtcTime|
            t.valid() && t.year <= 9999 && #[trigger] spells_stamp(rest, t) && text@
                == behind_year(t.year as int, rest) ==> r == Some(t),
        forall|year: int, rest: Seq<char>|
            text@ == #[trigger] behind_year(year, rest) && r is Some ==> {
                &&& year <= 9999
                &&& r->Some_0.year == year
                &&& spells_stamp(rest, r->Some_0)
            },
{
    let t = chrono::NaiveDateTime::parse_from_str(text, layout).ok()?;
    Some(
        UtcTime {
            year: t.year(),
            month: t.month(),
            day: t.day(),
            hour: t.hour(),
            minute: t.minute(),
            second: t.second(),
            nanos: t.nanosecond(),
        },
    )
}

/// `chrono::DateTime::parse_from_rfc3339`, with the instant brought to UTC by
/// `with_timezone`. The result is a function of the text and a valid instant.
/// An instant that is written in UTC, with a year of four digits and up to nine
/// decimal places, reads back as that instant; second 60 is the leap second
/// behind second 59. One that is written with an offset of less than a day reads
/// as the instant in UTC. A text that does not start with the shape of a date
/// and time of day cannot be read, nor can one with a date or time of day that
/// there is not, whatever follows. The texts that can be read are those that
/// spell a local date and time in a year of four digits and an offset of less
/// than a day (see [`spells_rfc3339`]), and they read as that time in UTC.
#[verifier::external_body]
pub(crate) fn parse_rfc3339(text: &str) -> (r: Option<UtcTime>)
    ensures
        r == parsed_rfc3339(text@),
        r matches Some(t) ==> t.valid(),
        forall|t: UtcTime, places: nat|
            t.plain() && has_places(t, places) && text@ == #[trigger] rfc3339_text(t, places)
                ==> r == Some(t),
        forall|local: UtcTime, places: nat, offset: int|
            local.plain() && has_places(local, places) && -1440 < offset < 1440 && text@
                == #[trigger] rfc3339_local_text(local, places, offset) ==> r == Some(
                in_utc(local, offset),
            ),
        !has_head_shape(text@) ==> r is None,
        forall|t: UtcTime|
            t.writable() && !t.possible() && text@.len() >= 19 && text@.take(19)
                == #[trigger] head_text(t) ==> r is None,
        forall|local: UtcTime, offset: int|
            local.plain() && -1440 < offset < 1440 && #[trigger] spells_rfc3339(
                text@,
                local,
                offset,
            ) ==> r == Some(in_utc(local, offset)),
        r is Some ==> exists|local: UtcTime, offset: int|
            local.plain() && -1440 < offset < 1440 && #[trigger] spells_rfc3339(
                text@,
                local,
                offset,
            ),
{
    let parsed = chrono::DateTime::parse_from_rfc3339(text).ok()?;
    let t = parsed.with_timezone(&chrono::Utc);
    Some(
        UtcTime {
            year: t.year(),
            month: t.month(),
            day: t.day(),
            hour: t.hour(),
            minute: t.minute(),
            second: t.second(),
            nanos: t.nanosecond(),
        },
    )
}

/// `chrono::DateTime::format` with [`TIMESTAMP_LAYOUT`] writes an instant in
/// ISO 8601 with its milliseconds cut off, not rounded.
#[verifier::external_body]
pub(crate) fn format_utc(t: &UtcTime, layout: &str) -> (r: String)
    requires
        t.valid(),
        layout@ == TIMESTAMP_LAYOUT@,
    ensures
        r@ == iso_text(*t),
{
    let date = chrono::NaiveDate::from_ymd_opt(t.year, t.month, t.day).unwrap();
    let naive = date.and_hms_nano_opt(t.hour, t.minute, t.second, t.nanos).unwrap();
    chrono::Utc.from_utc_datetime(&naive).format(layout).to_string()
}

/// `chrono::Utc::now` reads the system clock, which has to stand at 1970 or
/// later. Nothing more is claimed of the instant but that it is one.
#[verifier::external_body]
pub(crate) fn now() -> (r: UtcTime)
    ensures
        r.shown(),
{
    let t = chrono::Utc::now();
    UtcTime {
        year: t.year(),
        month: t.month(),
        day: t.day(),
        hour: t.hour(),
        minute: t.minute(),
        second: t.second(),
        nanos: t.nanosecond(),
    }
}

// ---------------------------------------------------------------------------
// Laws
// ---------------------------------------------------------------------------

/// True for the timestamps of instants.
pub open spec fn is_timestamp(text: Seq<char>) -> bool {
    exists|t: UtcTime| t.valid() && text == #[trigger] iso_text(t)
}

/// True for the timestamps of instants in a year.
pub open spec fn is_timestamp_in(text: Seq<char>, year: int) -> bool {
    exists|t: UtcTime| t.valid() && t.year == year && text == #[trigger] iso_text(t)
}

/// True for texts of the shape `YYYY-MM-DDTHH:MM:SS.mmmZ`.
pub open spec fn has_iso_shape(text: Seq<char>) -> bool {
    &&& text.len() == 24
    &&& forall|i: int|
        0 <= i < 24 ==> if i == 4 || i == 7 {
            #[trigger] text[i] == '-'
        } else if i == 10 {
            text[i] == 'T'
        } else if i == 13 || i == 16 {
            text[i] == ':'
        } else if i == 19 {
            text[i] == '.'
        } else if i == 23 {
            text[i] == 'Z'
        } else {
            is_digit(text[i])
        }
}

proof fn lemma_two_digits(v: nat)
    requires
        v < 100,
    ensures
        digits(2, v).len() == 2,
        is_digit(digits(2, v)[0]),
        is_digit(digits(2, v)[1]),
{
    reveal_with_fuel(digits, 3);
}

proof fn lemma_three_digits(v: nat)
    requires
        v < 1000,
    ensures
        digits(3, v).len() == 3,
        is_digit(digits(3, v)[0]),
        is_digit(digits(3, v)[1]),
        is_digit(digits(3, v)[2]),
{
    lemma_two_digits(v / 10);
}

proof fn lemma_four_digits(v: nat)
    requires
        v < 10000,
    ensures
        digits(4, v).len() == 4,
        is_digit(digits(4, v)[0]),
        is_digit(digits(4, v)[1]),
        is_digit(digits(4, v)[2]),
        is_digit(digits(4, v)[3]),
{
    lemma_three_digits(v / 10);
}

/// The timestamps of the years 0 to 9999, and no others, have the shape
/// `YYYY-MM-DDTHH:MM:SS.mmmZ`.
pub proof fn timestamps_have_the_iso_shape(t: UtcTime)
    requires
        t.valid(),
    ensures
        has_iso_shape(iso_text(t)) <==> 0 <= t.year <= 9999,
{
    let text = iso_text(t);
    if 0 <= t.year <= 9999 {
        let second = t.written_second() as nat;
        lemma_four_digits(t.year as nat);
        lemma_two_digits(t.month as nat);
        lemma_two_digits(t.day as nat);
        lemma_two_digits(t.hour as nat);
        lemma_two_digits(t.minute as nat);
        assert(second <= 60);
        lemma_two_digits(second);
        lemma_three_digits(((t.nanos / 1_000_000) % 1000) as nat);
    } else {
        assert(!is_digit(year_text(t.year as int)[0]));
        assert(text[0] == year_text(t.year as int)[0]);
    }
}

proof fn lemma_days_in_turn(t: UtcTime)
    requires
        t.plain(),
    ensures
        next_day(t).valid(),
        previous_day(t).valid(),
        previous_day(next_day(t)) == t,
        next_day(previous_day(t)) == t,
{
}

proof fn lemma_minutes(minutes: int)
    requires
        -1440 < minutes < 2880,
    ensures
        minutes % 1440 == if minutes < 0 {
            minutes + 1440
        } else if minutes >= 1440 {
            minutes - 1440
        } else {
            minutes
        },
        minutes % 1440 / 60 * 60 + minutes % 60 == minutes % 1440,
        0 <= minutes % 1440 / 60 < 24,
        0 <= minutes % 60 < 60,
{
}

/// Bringing a local time to UTC gives an instant, and the opposite offset brings
/// it back.
pub proof fn offsets_are_undone(local: UtcTime, offset: int)
    requires
        local.plain(),
        -1440 < offset < 1440,
    ensures
        in_utc(local, offset).valid(),
        in_utc(in_utc(local, offset), -offset) == local,
        in_utc(local, 0) == local,
{
    lemma_days_in_turn(local);
    let here = local.hour * 60 + local.minute;
    let minutes = here - offset;
    let utc = in_utc(local, offset);
    lemma_minutes(minutes);
    lemma_minutes(here as int);
    assert(utc.hour * 60 + utc.minute == minutes % 1440);
    let back = utc.hour * 60 + utc.minute + offset;
    let day = UtcTime { hour: local.hour, minute: local.minute, ..utc };
    if minutes < 0 {
        assert(back == here + 1440);
        assert(day == previous_day(local));
        assert(next_day(utc) == (UtcTime { hour: utc.hour, minute: utc.minute, ..next_day(day) }));
    } else if minutes >= 1440 {
        assert(back == here - 1440);
        assert(day == next_day(local));
        assert(previous_day(utc) == (UtcTime {
            hour: utc.hour,
            minute: utc.minute,
            ..previous_day(day)
        }));
    } else {
        assert(back == here);
    }
    lemma_minutes(back);
    assert(back % 1440 == here);
}

/// An instant cut off to its millisecond.
pub open spec fn truncated(t: UtcTime) -> UtcTime {
    UtcTime { nanos: (t.nanos / 1_000_000 * 1_000_000) as u32, ..t }
}

/// The timestamps that are written are RFC 3339 for the instant cut off to its
/// millisecond.
pub proof fn timestamps_are_rfc3339(t: UtcTime)
    requires
        t.plain(),
    ensures
        truncated(t).plain(),
        has_places(truncated(t), 3),
        rfc3339_text(truncated(t), 3) == iso_text(t),
        iso_text(truncated(t)) == iso_text(t),
{
    reveal_with_fuel(pow, 7);
    assert(pow(10, 6) == 1_000_000);
    let cut = truncated(t);
    assert(cut.nanos / 1_000_000 == t.nanos / 1_000_000);
    assert(cut.written_second() == t.written_second());
    assert(head_text(cut) == head_text(t));
    assert(cut.nanos as int % 1_000_000_000 / 1_000_000 == (t.nanos / 1_000_000) % 1000);
    assert(rfc3339_text(cut, 3) =~= iso_text(t));
}

/// A local time is spelled with `T`, `t` or a space between date and time of day,
/// with a fraction of a second or without, and with `Z`, `z` or an offset behind.
pub proof fn times_are_spelled_in_rfc3339(
    local: UtcTime,
    separator: char,
    fraction: Seq<char>,
    zone: Seq<char>,
    offset: int,
)
    requires
        separator == 'T' || separator == 't' || separator == ' ',
        spells_fraction(fraction, local.nanos as int % 1_000_000_000),
        spells_offset(zone, offset),
    ensures
        spells_rfc3339(
            date_text(local) + seq![separator] + time_text(local) + fraction + zone,
            local,
            offset,
        ),
{
    assert(date_text(local).push(separator) =~= date_text(local) + seq![separator]);
}

} // verus!
