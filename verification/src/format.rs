//! Wire-format detection for a connection.
//!
//! Both supported formats are line-delimited, so framing is identical; detection
//! only decides which transform each line is routed to. A connection locks the
//! format it detected first (see [`crate::pipeline`]).

use vstd::prelude::*;

use crate::text::{is_space, leading_space, to_chars, trimmed_start};

verus! {

/// A supported input format on a connection.
#[derive(Debug, Clone, Copy, PartialEq, Eq, Structural)]
pub enum Format {
    /// RFC 3164 syslog, e.g. `<134>Dec 05 10:30:45 host ...`.
    Syslog,
    /// Newline-delimited JSON: one compact JSON object per line.
    Ndjson,
}

/// The format of a line, by the first character that is not whitespace.
pub open spec fn detected(line: Seq<char>) -> Option<Format> {
    let start = trimmed_start(line);
    if start.len() > 0 && start[0] == '<' {
        Some(Format::Syslog)
    } else if start.len() > 0 && start[0] == '{' {
        Some(Format::Ndjson)
    } else {
        None
    }
}

/// Detects the format of a single line from its first non-whitespace character.
///
/// Returns `None` when the line is empty/whitespace-only or starts with a
/// character that matches neither format.
pub fn detect(line: &str) -> (r: Option<Format>)
    ensures
        r == detected(line@),
{
    let chars = to_chars(line);
    let start: usize = leading_space(&chars);
    if start == chars.len() {
        None
    } else if chars[start] == '<' {
        Some(Format::Syslog)
    } else if chars[start] == '{' {
        Some(Format::Ndjson)
    } else {
        None
    }
}

/// Whitespace before a line does not change its format.
pub proof fn detection_ignores_leading_whitespace(space: Seq<char>, line: Seq<char>)
    requires
        forall|i: int| 0 <= i < space.len() ==> is_space(#[trigger] space[i]),
    ensures
        detected(space + line) == detected(line),
    decreases space.len(),
{
    if space.len() == 0 {
        assert(space + line =~= line);
    } else {
        assert(is_space(space[0]));
        assert((space + line).drop_first() =~= space.drop_first() + line);
        detection_ignores_leading_whitespace(space.drop_first(), line);
    }
}

/// What follows the first character that is not whitespace does not change the
/// format of a line.
pub proof fn detection_reads_one_character(c: char, rest: Seq<char>, other: Seq<char>)
    requires
        !is_space(c),
    ensures
        detected(seq![c] + rest) == detected(seq![c] + other),
        detected(seq![c] + rest) == if c == '<' {
            Some(Format::Syslog)
        } else if c == '{' {
            Some(Format::Ndjson)
        } else {
            None
        },
{
    assert((seq![c] + rest).first() == c);
    assert((seq![c] + other).first() == c);
}

/// A blank line has no format.
pub proof fn blank_lines_have_no_format(line: Seq<char>)
    requires
        crate::text::is_blank(line),
    ensures
        detected(line) is None,
    decreases line.len(),
{
    if line.len() > 0 {
        assert(is_space(line[0]));
        assert forall|i: int| 0 <= i < line.drop_first().len() implies is_space(
            #[trigger] line.drop_first()[i],
        ) by {
            assert(is_space(line[i + 1]));
        }
        blank_lines_have_no_format(line.drop_first());
    }
}

} // verus!
