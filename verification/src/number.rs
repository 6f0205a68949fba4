//! Decimal numbers in text.

use vstd::prelude::*;

use crate::text::to_chars;

verus! {

/// The character of a digit.
pub open spec fn digit_char(v: nat) -> char {
    (v + '0' as nat) as char
}

/// A number in decimal digits, padded with zeros to at least `width`.
pub open spec fn digits(width: nat, v: nat) -> Seq<char>
    decreases width + v,
{
    if width == 0 && v == 0 {
        Seq::empty()
    } else {
        digits(
            if width == 0 {
                0
            } else {
                (width - 1) as nat
            },
            v / 10,
        ).push(digit_char(v % 10))
    }
}

/// A number in decimal digits, at least one.
pub open spec fn decimal(v: nat) -> Seq<char> {
    digits(1, v)
}

/// An integer in decimal digits, with a sign where it is negative.
pub open spec fn integer_text(v: int) -> Seq<char> {
    if v < 0 {
        seq!['-'] + decimal((-v) as nat)
    } else {
        decimal(v as nat)
    }
}

/// True for `0` to `9`.
pub open spec fn is_digit(c: char) -> bool {
    '0' <= c <= '9'
}

/// True when a text is one or more digits.
pub open spec fn is_number(s: Seq<char>) -> bool {
    s.len() > 0 && forall|i: int| 0 <= i < s.len() ==> is_digit(#[trigger] s[i])
}

/// The value of a sequence of digits.
pub open spec fn value(s: Seq<char>) -> nat
    decreases s.len(),
{
    if s.len() == 0 {
        0
    } else {
        (value(s.drop_last()) * 10 + (s.last() as int - '0' as int)) as nat
    }
}

/// A number without the plus sign that may lead it.
pub open spec fn unsigned_part(s: Seq<char>) -> Seq<char> {
    if s.len() > 0 && s[0] == '+' {
        s.skip(1)
    } else {
        s
    }
}

/// The `u16` that a text denotes: digits, with an optional plus sign, whose
/// value fits.
pub open spec fn parsed_u16(s: Seq<char>) -> Option<u16> {
    let number = unsigned_part(s);
    if is_number(number) && value(number) <= u16::MAX {
        Some(value(number) as u16)
    } else {
        None
    }
}

/// Numbers in decimal digits are made of digits and keep their value.
pub proof fn lemma_digits(width: nat, v: nat)
    ensures
        value(digits(width, v)) == v,
        forall|i: int| 0 <= i < digits(width, v).len() ==> is_digit(#[trigger] digits(width, v)[i]),
        width + v > 0 ==> digits(width, v).len() > 0,
    decreases width + v,
{
    if width + v > 0 {
        let narrower: nat = if width == 0 {
            0
        } else {
            (width - 1) as nat
        };
        lemma_digits(narrower, v / 10);
        let front = digits(narrower, v / 10);
        assert(digits(width, v).drop_last() =~= front);
        assert forall|i: int| 0 <= i < digits(width, v).len() implies is_digit(
            #[trigger] digits(width, v)[i],
        ) by {
            if i < front.len() {
                assert(digits(width, v)[i] == front[i]);
            }
        }
    }
}

/// Reading a number back gives the number that was written.
pub proof fn parsing_inverts_decimal(v: u16)
    ensures
        parsed_u16(decimal(v as nat)) == Some(v),
{
    lemma_digits(1, v as nat);
    assert(is_digit(decimal(v as nat)[0]));
}

proof fn lemma_value_of_prefix(s: Seq<char>, n: int)
    requires
        0 <= n <= s.len(),
        forall|i: int| 0 <= i < s.len() ==> is_digit(#[trigger] s[i]),
    ensures
        value(s.take(n)) <= value(s),
    decreases s.len(),
{
    if n < s.len() {
        lemma_value_of_prefix(s.drop_last(), n);
        assert(s.drop_last().take(n) =~= s.take(n));
    } else {
        assert(s.take(n) =~= s);
    }
}

/// Appends a number in decimal digits, padded with zeros to at least `width`.
pub fn push_digits(text: &mut String, width: usize, v: u32)
    ensures
        final(text)@ == old(text)@ + digits(width as nat, v as nat),
    decreases width + v,
{
    if width == 0 && v == 0 {
        assert(text@ =~= old(text)@ + digits(0, 0));
    } else {
        push_digits(text, if width == 0 { 0 } else { width - 1 }, v / 10);
        let digit: u8 = (v % 10) as u8 + 48;
        text.push(digit as char);
        assert(text@ =~= old(text)@ + digits(width as nat, v as nat));
    }
}

/// Appends an integer in decimal digits, with a sign where it is negative.
pub fn push_integer(text: &mut String, v: i32)
    ensures
        final(text)@ == old(text)@ + integer_text(v as int),
{
    if v < 0 {
        text.push('-');
        push_digits(text, 1, (-(v as i64)) as u32);
        assert(text@ =~= old(text)@ + integer_text(v as int));
    } else {
        push_digits(text, 1, v as u32);
    }
}

/// Reads a `u16` from digits with an optional plus sign.
pub fn parse_u16(s: &str) -> (r: Option<u16>)
    ensures
        r == parsed_u16(s@),
{
    let chars = to_chars(s);
    let from: usize = if chars.len() > 0 && chars[0] == '+' { 1 } else { 0 };
    let ghost number = unsigned_part(s@);
    assert(number =~= chars@.skip(from as int));
    if from == chars.len() {
        return None;
    }
    let mut sum: u32 = 0;
    let mut i: usize = from;
    assert(number.take(0) =~= Seq::empty());
    while i < chars.len()
        invariant
            from <= i <= chars@.len(),
            number == chars@.skip(from as int),
            number == unsigned_part(s@),
            sum == value(number.take(i - from)),
            sum <= u16::MAX,
            forall|j: int| 0 <= j < i - from ==> is_digit(#[trigger] number[j]),
        decreases chars@.len() - i,
    {
        let c: char = chars[i];
        assert(number[i - from] == c);
        if c < '0' || c > '9' {
            return None;
        }
        assert(number.take(i + 1 - from).drop_last() =~= number.take(i - from));
        sum = sum * 10 + (c as u32 - 48);
        i += 1;
        if sum > 65535 {
            proof {
                if is_number(number) {
                    lemma_value_of_prefix(number, i - from);
                }
            }
            return None;
        }
    }
    assert(number.take(i - from) =~= number);
    Some(sum as u16)
}

// ---------------------------------------------------------------------------
// Laws
// ---------------------------------------------------------------------------

/// A number is read back in any spelling, with leading zeros and a plus sign or
/// without, where it fits; a larger one is refused.
pub proof fn numbers_are_read_in_any_spelling(signed: bool, width: nat, v: nat)
    requires
        width + v > 0,
    ensures
        ({
            let text = if signed {
                seq!['+'] + digits(width, v)
            } else {
                digits(width, v)
            };
            parsed_u16(text) == if v <= 65535 {
                Some(v as u16)
            } else {
                None
            }
        }),
{
    let number = digits(width, v);
    lemma_digits(width, v);
    assert(is_digit(number[0]));
    if signed {
        assert((seq!['+'] + number).skip(1) =~= number);
    }
}

/// A text with any other character is no number; the plus sign may lead, but not
/// stand alone.
pub proof fn other_texts_are_no_numbers(text: Seq<char>)
    requires
        text.len() == 0 || text == seq!['+'] || exists|i: int|
            0 <= i < text.len() && !('0' <= #[trigger] text[i] <= '9') && !(i == 0 && text[0]
                == '+'),
    ensures
        parsed_u16(text) is None,
{
    if text == seq!['+'] {
        assert(text.skip(1).len() == 0);
    } else if text.len() > 0 {
        let i = choose|i: int|
            0 <= i < text.len() && !('0' <= #[trigger] text[i] <= '9') && !(i == 0 && text[0]
                == '+');
        if text[0] == '+' {
            assert(text.skip(1)[i - 1] == text[i]);
        }
    }
}

} // verus!
