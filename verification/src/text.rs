//! Text as sequences of characters: whitespace, words, substrings and lower case.
//!
//! Strings are read through their view, a `Seq<char>`. The executable functions
//! work on a `Vec<char>` obtained once per string with [`to_chars`].

use vstd::prelude::*;

verus! {

// ---------------------------------------------------------------------------
// The standard library
// ---------------------------------------------------------------------------

/// `String::push` appends one character to the end of the string.
pub assume_specification[ String::push ](s: &mut String, c: char)
    ensures
        final(s)@ == old(s)@.push(c),
;

/// What `str::to_lowercase` makes of a text that is not plain ASCII.
pub uninterp spec fn unicode_lowercase(s: Seq<char>) -> Seq<char>;

/// `str::to_lowercase` maps `A` to `Z` of a plain ASCII text to `a` to `z` and
/// keeps its other characters. Of any other text no more is claimed than that
/// the result is a function of the text.
pub assume_specification[ str::to_lowercase ](s: &str) -> (r: String)
    ensures
        r@ == if is_ascii_text(s@) {
            s@.map_values(|c: char| ascii_lower(c))
        } else {
            unicode_lowercase(s@)
        },
;

/// True when every character is ASCII.
pub open spec fn is_ascii_text(s: Seq<char>) -> bool {
    forall|i: int| 0 <= i < s.len() ==> (#[trigger] s[i] as u32) < 128
}

/// The lower case of an ASCII character.
pub open spec fn ascii_lower(c: char) -> char {
    if 'A' <= c <= 'Z' {
        ((c as u32) + 32) as char
    } else {
        c
    }
}

/// The lower case of a text.
pub open spec fn lowercase(s: Seq<char>) -> Seq<char> {
    if is_ascii_text(s) {
        s.map_values(|c: char| ascii_lower(c))
    } else {
        unicode_lowercase(s)
    }
}

/// [`lowercase`] of an optional text.
pub open spec fn lowercase_option(s: Option<Seq<char>>) -> Option<Seq<char>> {
    match s {
        Some(text) => Some(lowercase(text)),
        None => None,
    }
}

// ---------------------------------------------------------------------------
// Between strings and characters
// ---------------------------------------------------------------------------

/// The characters of a string, in order.
pub fn to_chars(s: &str) -> (r: Vec<char>)
    ensures
        r@ == s@,
{
    let mut chars: Vec<char> = Vec::new();
    for c in it: s.chars()
        invariant
            it.seq() == s@,
            chars@ == s@.take(it.index() as int),
    {
        chars.push(c);
    }
    chars
}

/// The string of the characters at positions `from..to`.
pub fn to_text(chars: &Vec<char>, from: usize, to: usize) -> (r: String)
    requires
        from <= to <= chars@.len(),
    ensures
        r@ == chars@.subrange(from as int, to as int),
{
    let mut text = String::new();
    let mut i: usize = from;
    while i < to
        invariant
            from <= i <= to <= chars@.len(),
            text@ == chars@.subrange(from as int, i as int),
        decreases to - i,
    {
        text.push(chars[i]);
        i += 1;
    }
    text
}

/// The view of an optional string slice.
pub open spec fn str_option_view(s: Option<&str>) -> Option<Seq<char>> {
    match s {
        Some(text) => Some(text@),
        None => None,
    }
}

/// The view of an optional string.
pub open spec fn string_option_view(s: Option<String>) -> Option<Seq<char>> {
    match s {
        Some(text) => Some(text@),
        None => None,
    }
}

/// The views of a vector of strings, in order.
pub open spec fn views(strings: Seq<String>) -> Seq<Seq<char>> {
    strings.map_values(|s: String| s@)
}

/// True when two strings have the same characters.
pub fn same(a: &str, b: &str) -> (r: bool)
    ensures
        r == (a@ == b@),
{
    let x = to_chars(a);
    let y = to_chars(b);
    if x.len() != y.len() {
        return false;
    }
    let mut i: usize = 0;
    while i < x.len()
        invariant
            i <= x@.len() == y@.len(),
            x@ == a@,
            y@ == b@,
            forall|j: int| 0 <= j < i ==> x@[j] == y@[j],
        decreases x@.len() - i,
    {
        if x[i] != y[i] {
            assert(a@[i as int] != b@[i as int]);
            return false;
        }
        i += 1;
    }
    assert(a@ =~= b@);
    true
}

// ---------------------------------------------------------------------------
// Whitespace
// ---------------------------------------------------------------------------

/// The characters with the Unicode `White_Space` property.
pub open spec fn is_space(c: char) -> bool {
    ||| '\u{9}' <= c <= '\u{d}'
    ||| c == ' '
    ||| c == '\u{85}'
    ||| c == '\u{a0}'
    ||| c == '\u{1680}'
    ||| '\u{2000}' <= c <= '\u{200a}'
    ||| c == '\u{2028}'
    ||| c == '\u{2029}'
    ||| c == '\u{202f}'
    ||| c == '\u{205f}'
    ||| c == '\u{3000}'
}

/// Tests for the Unicode `White_Space` property.
pub fn is_whitespace(c: char) -> (r: bool)
    ensures
        r == is_space(c),
{
    ('\u{9}' <= c && c <= '\u{d}') || c == ' ' || c == '\u{85}' || c == '\u{a0}' || c == '\u{1680}'
        || ('\u{2000}' <= c && c <= '\u{200a}') || c == '\u{2028}' || c == '\u{2029}'
        || c == '\u{202f}' || c == '\u{205f}' || c == '\u{3000}'
}

/// True when a text holds nothing but whitespace.
pub open spec fn is_blank(s: Seq<char>) -> bool {
    forall|i: int| 0 <= i < s.len() ==> is_space(#[trigger] s[i])
}

/// A text without its leading whitespace.
pub open spec fn trimmed_start(s: Seq<char>) -> Seq<char>
    decreases s.len(),
{
    if s.len() > 0 && is_space(s.first()) {
        trimmed_start(s.drop_first())
    } else {
        s
    }
}

/// A text without its trailing whitespace.
pub open spec fn trimmed_end(s: Seq<char>) -> Seq<char>
    decreases s.len(),
{
    if s.len() > 0 && is_space(s.last()) {
        trimmed_end(s.drop_last())
    } else {
        s
    }
}

/// A text without its leading and trailing whitespace.
pub open spec fn trimmed(s: Seq<char>) -> Seq<char> {
    trimmed_end(trimmed_start(s))
}

/// The position of the first character that is not whitespace, or the length.
pub fn leading_space(chars: &Vec<char>) -> (r: usize)
    ensures
        r <= chars@.len(),
        trimmed_start(chars@) == chars@.skip(r as int),
        forall|j: int| 0 <= j < r ==> is_space(#[trigger] chars@[j]),
        r < chars@.len() ==> !is_space(chars@[r as int]),
{
    let mut i: usize = 0;
    assert(chars@.skip(0) =~= chars@);
    while i < chars.len() && is_whitespace(chars[i])
        invariant
            i <= chars@.len(),
            trimmed_start(chars@) == trimmed_start(chars@.skip(i as int)),
            forall|j: int| 0 <= j < i ==> is_space(#[trigger] chars@[j]),
        decreases chars@.len() - i,
    {
        assert(chars@.skip(i as int).drop_first() =~= chars@.skip(i + 1));
        i += 1;
    }
    i
}

/// A text without its leading and trailing whitespace.
pub fn trim(s: &str) -> (r: String)
    ensures
        r@ == trimmed(s@),
{
    let chars = to_chars(s);
    let from: usize = leading_space(&chars);
    let mut to: usize = chars.len();
    assert(chars@.subrange(from as int, to as int) =~= chars@.skip(from as int));
    while from < to && is_whitespace(chars[to - 1])
        invariant
            from <= to <= chars@.len(),
            trimmed(chars@) == trimmed_end(chars@.subrange(from as int, to as int)),
        decreases to - from,
    {
        assert(chars@.subrange(from as int, to as int).drop_last() =~= chars@.subrange(
            from as int,
            to - 1,
        ));
        to -= 1;
    }
    to_text(&chars, from, to)
}

/// True when a text holds nothing but whitespace.
pub fn blank(s: &str) -> (r: bool)
    ensures
        r == is_blank(s@),
{
    let chars = to_chars(s);
    let from: usize = leading_space(&chars);
    from == chars.len()
}

/// The words of a text: its maximal runs of characters other than whitespace.
pub open spec fn words(s: Seq<char>) -> Seq<Seq<char>>
    decreases s.len(),
{
    if s.len() == 0 {
        Seq::empty()
    } else {
        let before = words(s.drop_last());
        if is_space(s.last()) {
            before
        } else if s.len() >= 2 && !is_space(s[s.len() - 2]) {
            before.drop_last().push(before.last().push(s.last()))
        } else {
            before.push(seq![s.last()])
        }
    }
}

/// Splits a text into its words.
pub fn split_whitespace(s: &str) -> (r: Vec<String>)
    ensures
        views(r@) == words(s@),
{
    let chars = to_chars(s);
    let mut list: Vec<String> = Vec::new();
    let mut word = String::new();
    let mut open: bool = false;
    let mut i: usize = 0;
    assert(views(list@) =~= words(chars@.take(0)));
    while i < chars.len()
        invariant
            i <= chars@.len(),
            open == (i > 0 && !is_space(chars@[i - 1])),
            open ==> words(chars@.take(i as int)) == views(list@).push(word@),
            !open ==> words(chars@.take(i as int)) == views(list@) && word@.len() == 0,
        decreases chars@.len() - i,
    {
        let c: char = chars[i];
        let ghost here = chars@.take(i + 1);
        assert(here.drop_last() =~= chars@.take(i as int));
        if is_whitespace(c) {
            if open {
                let ghost before = views(list@);
                list.push(word);
                assert(views(list@) =~= before.push(word@));
                word = String::new();
                open = false;
            }
        } else {
            let ghost before = word@;
            word.push(c);
            if open {
                assert(views(list@).push(before).drop_last() =~= views(list@));
            } else {
                assert(word@ =~= seq![c]);
            }
            open = true;
        }
        i += 1;
    }
    assert(chars@.take(i as int) =~= chars@);
    if open {
        let ghost before = views(list@);
        list.push(word);
        assert(views(list@) =~= before.push(word@));
    }
    list
}

// ---------------------------------------------------------------------------
// Substrings
// ---------------------------------------------------------------------------

/// True when `needle` stands at position `at` of `text`.
pub open spec fn occurs_at(text: Seq<char>, needle: Seq<char>, at: int) -> bool {
    0 <= at && at + needle.len() <= text.len() && text.subrange(at, at + needle.len()) == needle
}

/// True when `needle` stands somewhere in `text`.
pub open spec fn occurs_in(text: Seq<char>, needle: Seq<char>) -> bool {
    exists|at: int| occurs_at(text, needle, at)
}

/// The first position of `needle` in `text` from position `from` on.
pub open spec fn found_from(text: Seq<char>, needle: Seq<char>, from: int) -> Option<int>
    decreases text.len() + 1 - from,
{
    if from + needle.len() > text.len() {
        None
    } else if occurs_at(text, needle, from) {
        Some(from)
    } else {
        found_from(text, needle, from + 1)
    }
}

/// The first position of `needle` in `text`.
pub open spec fn found(text: Seq<char>, needle: Seq<char>) -> Option<int> {
    found_from(text, needle, 0)
}

/// [`found_from`] is the least position at or after `from`.
pub proof fn lemma_found_from(text: Seq<char>, needle: Seq<char>, from: int)
    requires
        0 <= from,
    ensures
        match found_from(text, needle, from) {
            Some(at) => from <= at && occurs_at(text, needle, at) && forall|j: int|
                from <= j < at ==> !#[trigger] occurs_at(text, needle, j),
            None => forall|j: int| from <= j ==> !#[trigger] occurs_at(text, needle, j),
        },
    decreases text.len() + 1 - from,
{
    if from + needle.len() <= text.len() && !occurs_at(text, needle, from) {
        lemma_found_from(text, needle, from + 1);
    }
}

proof fn lemma_first_is_found(text: Seq<char>, needle: Seq<char>, from: int, at: int)
    requires
        0 <= from <= at,
        occurs_at(text, needle, at),
        forall|j: int| from <= j < at ==> !#[trigger] occurs_at(text, needle, j),
    ensures
        found_from(text, needle, from) == Some(at),
    decreases at - from,
{
    if from < at {
        assert(!occurs_at(text, needle, from));
        lemma_first_is_found(text, needle, from + 1, at);
    }
}

fn matches_at(text: &Vec<char>, needle: &Vec<char>, at: usize) -> (r: bool)
    requires
        at + needle@.len() <= text@.len(),
    ensures
        r == occurs_at(text@, needle@, at as int),
{
    let size: usize = text.len();
    let mut i: usize = 0;
    while i < needle.len()
        invariant
            i <= needle@.len(),
            size == text@.len(),
            at + needle@.len() <= size,
            forall|j: int| 0 <= j < i ==> text@[at + j] == needle@[j],
        decreases needle@.len() - i,
    {
        if text[at + i] != needle[i] {
            assert(text@.subrange(at as int, at + needle@.len())[i as int] != needle@[i as int]);
            return false;
        }
        i += 1;
    }
    assert(text@.subrange(at as int, at + needle@.len()) =~= needle@);
    true
}

/// The first position of `needle` in `text`.
pub fn find(text: &Vec<char>, needle: &Vec<char>) -> (r: Option<usize>)
    ensures
        match r {
            Some(at) => found(text@, needle@) == Some(at as int),
            None => found(text@, needle@) is None,
        },
{
    if needle.len() > text.len() {
        return None;
    }
    let last: usize = text.len() - needle.len();
    let mut at: usize = 0;
    loop
        invariant
            at <= last,
            last + needle@.len() == text@.len(),
            found(text@, needle@) == found_from(text@, needle@, at as int),
        decreases last - at,
    {
        if matches_at(text, needle, at) {
            return Some(at);
        }
        if at == last {
            assert(found_from(text@, needle@, at + 1) is None);
            return None;
        }
        at += 1;
    }
}

/// True when `needle` stands somewhere in `text`.
pub fn contains(text: &str, needle: &str) -> (r: bool)
    ensures
        r == occurs_in(text@, needle@),
{
    let t = to_chars(text);
    let n = to_chars(needle);
    proof {
        lemma_found_from(text@, needle@, 0);
    }
    match find(&t, &n) {
        Some(at) => {
            assert(occurs_at(text@, needle@, at as int));
            true
        },
        None => false,
    }
}

/// Splits a text at the first `limit - 1` occurrences of a separator.
pub open spec fn split_limited(s: Seq<char>, separator: char, limit: nat) -> Seq<Seq<char>>
    decreases limit,
{
    if limit == 0 {
        Seq::empty()
    } else if limit == 1 {
        seq![s]
    } else {
        match found(s, seq![separator]) {
            Some(at) => seq![s.take(at)] + split_limited(
                s.skip(at + 1),
                separator,
                (limit - 1) as nat,
            ),
            None => seq![s],
        }
    }
}

/// Splits a text at the first `limit - 1` occurrences of a separator.
pub fn split_n(s: &str, separator: char, limit: usize) -> (r: Vec<String>)
    ensures
        views(r@) == split_limited(s@, separator, limit as nat),
{
    let mut list: Vec<String> = Vec::new();
    if limit == 0 {
        assert(views(list@) =~= Seq::empty());
        return list;
    }
    let mut needle: Vec<char> = Vec::new();
    needle.push(separator);
    assert(needle@ =~= seq![separator]);
    let mut rest = to_chars(s);
    let mut left: usize = limit;
    assert(views(list@) + split_limited(rest@, separator, left as nat) =~= split_limited(
        s@,
        separator,
        limit as nat,
    ));
    while left > 1
        invariant
            1 <= left,
            needle@ == seq![separator],
            views(list@) + split_limited(rest@, separator, left as nat) == split_limited(
                s@,
                separator,
                limit as nat,
            ),
        decreases left,
    {
        let ghost before = views(list@);
        let size: usize = rest.len();
        proof {
            lemma_found_from(rest@, needle@, 0);
        }
        match find(&rest, &needle) {
            Some(at) => {
                assert(at + 1 <= size);
                let piece = to_text(&rest, 0, at);
                assert(piece@ =~= rest@.take(at as int));
                list.push(piece);
                assert(views(list@) =~= before.push(piece@));
                let tail = rest.split_off(at + 1);
                rest = tail;
                left -= 1;
                assert(views(list@) + split_limited(rest@, separator, left as nat) =~= before + (
                seq![piece@] + split_limited(rest@, separator, left as nat)));
            },
            None => {
                left = 1;
            },
        }
    }
    let ghost before = views(list@);
    let n: usize = rest.len();
    let piece = to_text(&rest, 0, n);
    assert(piece@ =~= rest@);
    list.push(piece);
    assert(views(list@) =~= before + seq![rest@]);
    list
}

// ---------------------------------------------------------------------------
// Laws
// ---------------------------------------------------------------------------

/// True for a word: one or more characters, none of them whitespace.
pub open spec fn is_word(s: Seq<char>) -> bool {
    s.len() > 0 && forall|i: int| 0 <= i < s.len() ==> !is_space(#[trigger] s[i])
}

/// A word behind whitespace, or at the start, is a word of its own.
pub proof fn appended_words_are_split_off(s: Seq<char>, word: Seq<char>)
    requires
        s.len() == 0 || is_space(s.last()),
        is_word(word),
    ensures
        words(s + word) == words(s).push(word),
    decreases word.len(),
{
    let whole = s + word;
    assert(!is_space(word[word.len() - 1]));
    assert(whole.drop_last() =~= s + word.drop_last());
    if word.len() == 1 {
        assert(whole.drop_last() =~= s);
        assert(word =~= seq![whole.last()]);
        if whole.len() >= 2 {
            assert(whole[whole.len() - 2] == s.last());
        }
    } else {
        assert(!is_space(word[word.len() - 2]));
        assert(whole[whole.len() - 2] == word[word.len() - 2]);
        assert forall|i: int| 0 <= i < word.drop_last().len() implies !is_space(
            #[trigger] word.drop_last()[i],
        ) by {
            assert(!is_space(word[i]));
        }
        appended_words_are_split_off(s, word.drop_last());
        let before = words(s).push(word.drop_last());
        assert(before.drop_last() =~= words(s));
        assert(word.drop_last().push(word.last()) =~= word);
    }
}

/// Whitespace at the end adds no word.
pub proof fn trailing_space_adds_no_word(s: Seq<char>, c: char)
    requires
        is_space(c),
    ensures
        words(s.push(c)) == words(s),
{
    assert(s.push(c).drop_last() =~= s);
}

/// Blank text at the end adds no word.
pub proof fn trailing_blanks_add_no_word(s: Seq<char>, gap: Seq<char>)
    requires
        is_blank(gap),
    ensures
        words(s + gap) == words(s),
    decreases gap.len(),
{
    if gap.len() == 0 {
        assert(s + gap =~= s);
    } else {
        assert(is_space(gap[gap.len() - 1]));
        assert forall|i: int| 0 <= i < gap.drop_last().len() implies is_space(
            #[trigger] gap.drop_last()[i],
        ) by {
            assert(is_space(gap[i]));
        }
        trailing_blanks_add_no_word(s, gap.drop_last());
        trailing_space_adds_no_word(s + gap.drop_last(), gap.last());
        assert((s + gap.drop_last()).push(gap.last()) =~= s + gap);
    }
}

/// Words with gaps around them: a gap before each word, and one behind the last.
pub open spec fn with_gaps(list: Seq<Seq<char>>, gaps: Seq<Seq<char>>) -> Seq<char>
    decreases list.len(),
{
    if list.len() == 0 {
        gaps[0]
    } else {
        with_gaps(list.drop_last(), gaps) + list.last() + gaps[list.len() as int]
    }
}

/// True for the gaps that part a number of words: whitespace, of which there is
/// some between two words, and may be none before the first and behind the last.
pub open spec fn are_gaps(gaps: Seq<Seq<char>>, words: nat) -> bool {
    &&& gaps.len() == words + 1
    &&& forall|i: int| 0 <= i < gaps.len() ==> is_blank(#[trigger] gaps[i])
    &&& forall|i: int| 0 < i < words ==> (#[trigger] gaps[i]).len() > 0
}

proof fn lemma_words_with_gaps(list: Seq<Seq<char>>, gaps: Seq<Seq<char>>)
    requires
        list.len() < gaps.len(),
        forall|i: int| 0 <= i < list.len() ==> is_word(#[trigger] list[i]),
        forall|i: int| 0 <= i < gaps.len() ==> is_blank(#[trigger] gaps[i]),
        forall|i: int| 0 < i < list.len() ==> (#[trigger] gaps[i]).len() > 0,
    ensures
        words(with_gaps(list, gaps)) == list,
        list.len() == 0 || gaps[list.len() as int].len() > 0 ==> with_gaps(list, gaps).len() == 0
            || is_space(with_gaps(list, gaps).last()),
    decreases list.len(),
{
    let n = list.len() as int;
    assert(is_blank(gaps[n]));
    if n == 0 {
        let none = Seq::<char>::empty();
        trailing_blanks_add_no_word(none, gaps[0]);
        assert(none + gaps[0] =~= gaps[0]);
        assert(words(gaps[0]) =~= list);
        if gaps[0].len() > 0 {
            assert(is_space(gaps[0][gaps[0].len() - 1]));
        }
    } else {
        let front = list.drop_last();
        let word = list.last();
        assert(is_word(list[n - 1]));
        assert forall|i: int| 0 <= i < front.len() implies is_word(#[trigger] front[i]) by {
            assert(is_word(list[i]));
        }
        lemma_words_with_gaps(front, gaps);
        appended_words_are_split_off(with_gaps(front, gaps), word);
        trailing_blanks_add_no_word(with_gaps(front, gaps) + word, gaps[n]);
        assert(front.push(word) =~= list);
        if gaps[n].len() > 0 {
            assert(is_space(gaps[n][gaps[n].len() - 1]));
            assert(with_gaps(list, gaps).last() == gaps[n].last());
        }
    }
}

/// Words are read back as they were written, whatever whitespace parts them.
pub proof fn words_are_read_back(list: Seq<Seq<char>>, gaps: Seq<Seq<char>>)
    requires
        forall|i: int| 0 <= i < list.len() ==> is_word(#[trigger] list[i]),
        are_gaps(gaps, list.len()),
    ensures
        words(with_gaps(list, gaps)) == list,
{
    lemma_words_with_gaps(list, gaps);
}

/// A separator is found where it first stands.
pub proof fn first_separator_is_found(head: Seq<char>, separator: char, tail: Seq<char>)
    requires
        forall|i: int| 0 <= i < head.len() ==> #[trigger] head[i] != separator,
    ensures
        found(head + seq![separator] + tail, seq![separator]) == Some(head.len() as int),
{
    let whole = head + seq![separator] + tail;
    let needle = seq![separator];
    let n = head.len() as int;
    assert(whole.subrange(n, n + 1) =~= needle);
    assert forall|j: int| 0 <= j < n implies !#[trigger] occurs_at(whole, needle, j) by {
        assert(whole.subrange(j, j + 1)[0] == head[j]);
        assert(needle[0] == separator);
    }
    lemma_first_is_found(whole, needle, 0, n);
}

/// Pieces without the separator, joined by it in front of a last piece.
pub open spec fn joined(pieces: Seq<Seq<char>>, separator: char, last: Seq<char>) -> Seq<char>
    decreases pieces.len(),
{
    if pieces.len() == 0 {
        last
    } else {
        pieces.first() + seq![separator] + joined(pieces.drop_first(), separator, last)
    }
}

/// Splitting gives back the pieces that were joined; the last piece may hold the
/// separator.
pub proof fn splitting_inverts_joining(
    pieces: Seq<Seq<char>>,
    separator: char,
    last: Seq<char>,
)
    requires
        forall|i: int, j: int|
            0 <= i < pieces.len() && 0 <= j < pieces[i].len() ==> #[trigger] pieces[i][j]
                != separator,
    ensures
        split_limited(joined(pieces, separator, last), separator, pieces.len() + 1)
            == pieces.push(last),
    decreases pieces.len(),
{
    if pieces.len() == 0 {
        assert(pieces.push(last) =~= seq![last]);
    } else {
        let head = pieces.first();
        let rest = joined(pieces.drop_first(), separator, last);
        let whole = joined(pieces, separator, last);
        assert forall|i: int| 0 <= i < head.len() implies #[trigger] head[i] != separator by {
            assert(pieces[0][i] != separator);
        }
        first_separator_is_found(head, separator, rest);
        assert(whole.take(head.len() as int) =~= head);
        assert(whole.skip(head.len() as int + 1) =~= rest);
        assert forall|i: int, j: int|
            0 <= i < pieces.drop_first().len() && 0 <= j
                < pieces.drop_first()[i].len() implies #[trigger] pieces.drop_first()[i][j]
            != separator by {
            assert(pieces[i + 1][j] != separator);
        }
        splitting_inverts_joining(pieces.drop_first(), separator, last);
        assert(seq![head] + pieces.drop_first().push(last) =~= pieces.push(last));
    }
}

/// A text occurs where it is written with something before and behind it.
pub proof fn surrounded_text_occurs(before: Seq<char>, needle: Seq<char>, behind: Seq<char>)
    ensures
        occurs_in(before + needle + behind, needle),
{
    let whole = before + needle + behind;
    let at = before.len() as int;
    assert(whole.subrange(at, at + needle.len()) =~= needle);
    assert(occurs_at(whole, needle, at));
}

/// A text that occurs is written with something before and behind it.
pub proof fn occurring_text_is_surrounded(text: Seq<char>, needle: Seq<char>) -> (r: (
    Seq<char>,
    Seq<char>,
))
    requires
        occurs_in(text, needle),
    ensures
        text == r.0 + needle + r.1,
{
    let at = choose|at: int| occurs_at(text, needle, at);
    let before = text.take(at);
    let behind = text.skip(at + needle.len());
    assert(text =~= before + text.subrange(at, at + needle.len()) + behind);
    (before, behind)
}

/// A text is found at its first occurrence, and where it occurs.
pub proof fn the_first_occurrence_is_found(
    before: Seq<char>,
    needle: Seq<char>,
    behind: Seq<char>,
)
    requires
        forall|j: int|
            0 <= j < before.len() ==> #[trigger] (before + needle + behind).subrange(
                j,
                j + needle.len(),
            ) != needle,
    ensures
        found(before + needle + behind, needle) == Some(before.len() as int),
{
    let whole = before + needle + behind;
    let at = before.len() as int;
    assert(whole.subrange(at, at + needle.len()) =~= needle);
    lemma_first_is_found(whole, needle, 0, at);
}

/// A text that occurs nowhere is not found.
pub proof fn absent_text_is_not_found(text: Seq<char>, needle: Seq<char>)
    requires
        forall|j: int|
            0 <= j && j + needle.len() <= text.len() ==> #[trigger] text.subrange(
                j,
                j + needle.len(),
            ) != needle,
    ensures
        found(text, needle) is None,
        !occurs_in(text, needle),
{
    lemma_found_from(text, needle, 0);
}

proof fn lemma_blank_start_is_trimmed(before: Seq<char>, text: Seq<char>)
    requires
        is_blank(before),
        text.len() == 0 || !is_space(text[0]),
    ensures
        trimmed_start(before + text) == text,
    decreases before.len(),
{
    let whole = before + text;
    if before.len() == 0 {
        assert(whole =~= text);
    } else {
        assert(is_space(before[0]));
        assert(whole.drop_first() =~= before.drop_first() + text);
        assert forall|i: int| 0 <= i < before.drop_first().len() implies is_space(
            #[trigger] before.drop_first()[i],
        ) by {
            assert(is_space(before[i + 1]));
        }
        lemma_blank_start_is_trimmed(before.drop_first(), text);
    }
}

proof fn lemma_blank_end_is_trimmed(text: Seq<char>, behind: Seq<char>)
    requires
        is_blank(behind),
        text.len() == 0 || !is_space(text.last()),
    ensures
        trimmed_end(text + behind) == text,
    decreases behind.len(),
{
    let whole = text + behind;
    if behind.len() == 0 {
        assert(whole =~= text);
    } else {
        assert(is_space(behind[behind.len() - 1]));
        assert(whole.drop_last() =~= text + behind.drop_last());
        assert forall|i: int| 0 <= i < behind.drop_last().len() implies is_space(
            #[trigger] behind.drop_last()[i],
        ) by {
            assert(is_space(behind[i]));
        }
        lemma_blank_end_is_trimmed(text, behind.drop_last());
    }
}

/// Trimming takes the whitespace at the ends, all of it, and nothing else.
pub proof fn trimming_takes_the_whitespace(
    before: Seq<char>,
    text: Seq<char>,
    behind: Seq<char>,
)
    requires
        is_blank(before),
        is_blank(behind),
        text.len() > 0 ==> !is_space(text[0]) && !is_space(text.last()),
    ensures
        trimmed(before + text + behind) == text,
{
    let whole = before + text + behind;
    if text.len() == 0 {
        let space = before + behind;
        assert(whole =~= space + text);
        assert forall|i: int| 0 <= i < space.len() implies is_space(#[trigger] space[i]) by {
            if i < before.len() {
                assert(is_space(before[i]));
            } else {
                assert(is_space(behind[i - before.len()]));
            }
        }
        lemma_blank_start_is_trimmed(space, text);
        assert(text =~= Seq::empty());
    } else {
        assert(whole =~= before + (text + behind));
        lemma_blank_start_is_trimmed(before, text + behind);
        lemma_blank_end_is_trimmed(text, behind);
    }
}

/// Splitting gives all pieces that were joined, where there are fewer than it may
/// give and none holds the separator.
pub proof fn few_pieces_are_split_off(
    pieces: Seq<Seq<char>>,
    separator: char,
    last: Seq<char>,
    limit: nat,
)
    requires
        pieces.len() < limit,
        forall|i: int, j: int|
            0 <= i < pieces.len() && 0 <= j < pieces[i].len() ==> #[trigger] pieces[i][j]
                != separator,
        forall|j: int| 0 <= j < last.len() ==> #[trigger] last[j] != separator,
    ensures
        split_limited(joined(pieces, separator, last), separator, limit) == pieces.push(last),
    decreases pieces.len(),
{
    if pieces.len() == 0 {
        assert(pieces.push(last) =~= seq![last]);
        assert forall|j: int| 0 <= j && j + 1 <= last.len() implies #[trigger] last.subrange(
            j,
            j + 1,
        ) != seq![separator] by {
            assert(last.subrange(j, j + 1)[0] == last[j]);
            assert(seq![separator][0] == separator);
        }
        absent_text_is_not_found(last, seq![separator]);
    } else {
        let head = pieces.first();
        let rest = joined(pieces.drop_first(), separator, last);
        let whole = joined(pieces, separator, last);
        assert forall|i: int| 0 <= i < head.len() implies #[trigger] head[i] != separator by {
            assert(pieces[0][i] != separator);
        }
        first_separator_is_found(head, separator, rest);
        assert(whole.take(head.len() as int) =~= head);
        assert(whole.skip(head.len() as int + 1) =~= rest);
        assert forall|i: int, j: int|
            0 <= i < pieces.drop_first().len() && 0 <= j
                < pieces.drop_first()[i].len() implies #[trigger] pieces.drop_first()[i][j]
            != separator by {
            assert(pieces[i + 1][j] != separator);
        }
        few_pieces_are_split_off(pieces.drop_first(), separator, last, (limit - 1) as nat);
        assert(seq![head] + pieces.drop_first().push(last) =~= pieces.push(last));
    }
}

/// The lower case of an ASCII text goes letter by letter: each of `A` to `Z`
/// becomes the letter of `a` to `z`, and any other character stays.
pub proof fn lower_case_goes_letter_by_letter(s: Seq<char>)
    requires
        forall|i: int| 0 <= i < s.len() ==> (#[trigger] s[i] as u32) < 128,
    ensures
        lowercase(s).len() == s.len(),
        forall|i: int|
            0 <= i < s.len() ==> (#[trigger] lowercase(s)[i] as int) == if 'A' <= s[i] <= 'Z' {
                s[i] as int + 32
            } else {
                s[i] as int
            },
        lowercase_option(Some(s)) == Some(lowercase(s)),
        lowercase_option(None) is None,
{
    assert forall|i: int| 0 <= i < s.len() implies (#[trigger] lowercase(s)[i] as int) == if 'A'
        <= s[i] <= 'Z' {
        s[i] as int + 32
    } else {
        s[i] as int
    } by {
        assert(lowercase(s)[i] == ascii_lower(s[i]));
    }
}

/// The lower case of any other text is that of the standard library.
pub proof fn other_lower_case_is_that_of_the_standard_library(s: Seq<char>)
    requires
        exists|i: int| 0 <= i < s.len() && (#[trigger] s[i] as u32) >= 128,
    ensures
        lowercase(s) == unicode_lowercase(s),
        lowercase_option(Some(s)) == Some(unicode_lowercase(s)),
{
    let i = choose|i: int| 0 <= i < s.len() && (#[trigger] s[i] as u32) >= 128;
    assert(!((s[i] as u32) < 128));
}

/// A text is blank when each of its characters is whitespace; one without
/// characters is.
pub proof fn blank_texts_are_whitespace(s: Seq<char>)
    ensures
        is_blank(s) <==> forall|i: int| 0 <= i < s.len() ==> is_space(#[trigger] s[i]),
        is_blank(s) <==> trimmed(s).len() == 0,
    decreases s.len(),
{
    if s.len() > 0 {
        if is_blank(s) {
            trimming_takes_the_whitespace(s, Seq::empty(), Seq::empty());
            assert(s + Seq::<char>::empty() + Seq::<char>::empty() =~= s);
        } else {
            lemma_stating_text_is_not_trimmed_away(s);
        }
    }
}

proof fn lemma_stating_text_is_not_trimmed_away(s: Seq<char>)
    requires
        exists|i: int| 0 <= i < s.len() && !is_space(#[trigger] s[i]),
    ensures
        trimmed(s).len() > 0,
{
    let start = trimmed_start(s);
    lemma_start_keeps(s);
    lemma_end_keeps(start);
}

proof fn lemma_start_keeps(s: Seq<char>)
    requires
        exists|i: int| 0 <= i < s.len() && !is_space(#[trigger] s[i]),
    ensures
        exists|i: int| 0 <= i < trimmed_start(s).len() && !is_space(#[trigger] trimmed_start(s)[i]),
    decreases s.len(),
{
    if is_space(s.first()) {
        let i = choose|i: int| 0 <= i < s.len() && !is_space(#[trigger] s[i]);
        assert(!is_space(s.drop_first()[i - 1]));
        lemma_start_keeps(s.drop_first());
        let rest = trimmed_start(s.drop_first());
        let j = choose|j: int| 0 <= j < rest.len() && !is_space(#[trigger] rest[j]);
        assert(trimmed_start(s)[j] == rest[j]);
    } else {
        assert(!is_space(trimmed_start(s)[0]));
    }
}

proof fn lemma_end_keeps(s: Seq<char>)
    requires
        exists|i: int| 0 <= i < s.len() && !is_space(#[trigger] s[i]),
    ensures
        trimmed_end(s).len() > 0,
    decreases s.len(),
{
    if is_space(s.last()) {
        let i = choose|i: int| 0 <= i < s.len() && !is_space(#[trigger] s[i]);
        assert(!is_space(s.drop_last()[i]));
        lemma_end_keeps(s.drop_last());
    }
}

/// Strings are viewed one by one, in order, and an optional one where it is there.
pub proof fn strings_are_viewed_one_by_one(
    strings: Seq<String>,
    string: Option<String>,
    slice: Option<&str>,
)
    ensures
        views(strings).len() == strings.len(),
        forall|i: int| 0 <= i < strings.len() ==> #[trigger] views(strings)[i] == strings[i]@,
        string_option_view(string) is Some <==> string is Some,
        string matches Some(s) ==> string_option_view(string) == Some(s@),
        str_option_view(slice) is Some <==> slice is Some,
        slice matches Some(s) ==> str_option_view(slice) == Some(s@),
{
}

} // verus!
