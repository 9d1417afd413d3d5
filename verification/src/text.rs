//! Text as a sequence of characters: whitespace, lines, and numbers in decimal.

use vstd::prelude::*;
use vstd::slice::slice_subrange;

verus! {

/// Whether a character is a decimal digit.
pub open spec fn is_digit(c: char) -> bool {
    '0' <= c <= '9'
}

/// Whether a character has the Unicode property `White_Space`.
pub open spec fn is_space(c: char) -> bool {
    ||| '\u{9}' <= c <= '\u{d}'
    ||| c == '\u{20}'
    ||| c == '\u{85}'
    ||| c == '\u{a0}'
    ||| c == '\u{1680}'
    ||| '\u{2000}' <= c <= '\u{200a}'
    ||| c == '\u{2028}'
    ||| c == '\u{2029}'
    ||| c == '\u{202f}'
    ||| c == '\u{205f}'
    ||| c == '\u{3000}'
}

/// The value of a decimal digit.
pub open spec fn digit_value(c: char) -> int {
    c as int - '0' as int
}

/// The number that a sequence of decimal digits denotes, the most significant digit first.
pub open spec fn digits_value(digits: Seq<char>) -> int
    decreases digits.len(),
{
    if digits.len() == 0 {
        0
    } else {
        digits_value(digits.drop_last()) * 10 + digit_value(digits.last())
    }
}

/// Whether every character is a decimal digit.
pub open spec fn all_digits(text: Seq<char>) -> bool {
    forall|i: int| 0 <= i < text.len() ==> is_digit(#[trigger] text[i])
}

/// Whether a text starts with the sign that a number between `min` and `max` may have: a plus
/// always, a minus where negative numbers are allowed.
pub open spec fn has_sign(text: Seq<char>, min: int) -> bool {
    text.len() > 0 && (text[0] == '+' || text[0] == '-' && min < 0)
}

/// The digits of a number, without its sign.
pub open spec fn unsigned_part(text: Seq<char>, min: int) -> Seq<char> {
    if has_sign(text, min) {
        text.skip(1)
    } else {
        text
    }
}

/// The number between `min` and `max` that a text denotes: an optional sign, then one or more
/// decimal digits, and nothing else.
pub open spec fn parsed_integer(text: Seq<char>, min: int, max: int) -> Option<int> {
    let digits = unsigned_part(text, min);
    let magnitude = digits_value(digits);
    let value = if has_sign(text, min) && text[0] == '-' {
        -magnitude
    } else {
        magnitude
    };
    if digits.len() > 0 && all_digits(digits) && min <= value <= max {
        Some(value)
    } else {
        None
    }
}

/// The character that stands for a number below ten.
pub open spec fn digit_char(n: nat) -> char {
    ('0' as int + n) as char
}

/// A number in decimal, without leading zeros.
pub open spec fn decimal(n: nat) -> Seq<char>
    decreases n,
{
    if n < 10 {
        seq![digit_char(n)]
    } else {
        decimal(n / 10).push(digit_char(n % 10))
    }
}

/// A text without the whitespace that it starts with.
pub open spec fn trimmed_start(text: Seq<char>) -> Seq<char>
    decreases text.len(),
{
    if text.len() > 0 && is_space(text[0]) {
        trimmed_start(text.skip(1))
    } else {
        text
    }
}

/// A text without the whitespace that it ends with.
pub open spec fn trimmed_end(text: Seq<char>) -> Seq<char>
    decreases text.len(),
{
    if text.len() > 0 && is_space(text.last()) {
        trimmed_end(text.drop_last())
    } else {
        text
    }
}

/// A text without the whitespace on either side.
pub open spec fn trimmed(text: Seq<char>) -> Seq<char> {
    trimmed_end(trimmed_start(text))
}

/// How many characters a text has before the first whitespace.
pub open spec fn word_length(text: Seq<char>) -> nat
    decreases text.len(),
{
    if text.len() == 0 || is_space(text[0]) {
        0
    } else {
        1 + word_length(text.skip(1))
    }
}

/// The first of the words of a text, which whitespace separates.
pub open spec fn first_word(text: Seq<char>) -> Option<Seq<char>> {
    let rest = trimmed_start(text);
    if rest.len() == 0 {
        None
    } else {
        Some(rest.take(word_length(rest) as int))
    }
}

/// How many characters a text has before the first line feed.
pub open spec fn line_length(text: Seq<char>) -> nat
    decreases text.len(),
{
    if text.len() == 0 || text[0] == '\n' {
        0
    } else {
        1 + line_length(text.skip(1))
    }
}

/// A line without the carriage return that belongs to its end.
pub open spec fn without_return(line: Seq<char>) -> Seq<char> {
    if line.len() > 0 && line.last() == '\r' {
        line.drop_last()
    } else {
        line
    }
}

/// The lines of a text. A line ends with a line feed, with or without a carriage return before it;
/// the last line may go without.
pub open spec fn lines_of(text: Seq<char>) -> Seq<Seq<char>>
    decreases text.len(),
{
    let end = line_length(text);
    if text.len() == 0 {
        Seq::empty()
    } else if end >= text.len() {
        seq![text]
    } else {
        seq![without_return(text.take(end as int))] + lines_of(text.skip(end as int + 1))
    }
}

/// What follows `prefix` in a text that starts with it.
pub open spec fn after_prefix(text: Seq<char>, prefix: Seq<char>) -> Option<Seq<char>> {
    if prefix.is_prefix_of(text) {
        Some(text.skip(prefix.len() as int))
    } else {
        None
    }
}

/// The characters of a text, one by one.
pub fn chars_of(text: &str) -> (r: Vec<char>)
    ensures
        r@ == text@,
{
    let mut out: Vec<char> = Vec::new();
    for c in it: text.chars()
        invariant
            it.seq() == text@,
            out@ == text@.take(it.index()),
    {
        out.push(c);
    }
    out
}

/// Whether two texts are the same.
pub fn same_text(a: &str, b: &str) -> (r: bool)
    ensures
        r == (a@ == b@),
{
    let other = chars_of(b);
    let mut n: usize = 0;
    for c in it: a.chars()
        invariant
            it.seq() == a@,
            n == it.index(),
            other@ == b@,
            n <= b@.len(),
            forall|k: int| 0 <= k < n ==> a@[k] == b@[k],
    {
        if n == other.len() || other[n] != c {
            assert(a@[n as int] == c);
            return false;
        }
        n = n + 1;
    }
    assert(n == b@.len() ==> a@ =~= b@);
    n == other.len()
}

/// Whether a character is whitespace.
pub fn is_whitespace(c: char) -> (r: bool)
    ensures
        r == is_space(c),
{
    ('\u{9}' <= c && c <= '\u{d}') || c == '\u{20}' || c == '\u{85}' || c == '\u{a0}' || c
        == '\u{1680}' || ('\u{2000}' <= c && c <= '\u{200a}') || c == '\u{2028}' || c == '\u{2029}'
        || c == '\u{202f}' || c == '\u{205f}' || c == '\u{3000}'
}

/// A text without the whitespace that it starts with.
pub fn trim_start(text: &[char]) -> (r: &[char])
    ensures
        r@ == trimmed_start(text@),
{
    let mut start: usize = 0;
    assert(text@.skip(0) =~= text@);
    while start < text.len() && is_whitespace(text[start])
        invariant
            start <= text@.len(),
            trimmed_start(text@) == trimmed_start(text@.skip(start as int)),
        decreases text@.len() - start,
    {
        assert(text@.skip(start as int)[0] == text@[start as int]);
        assert(text@.skip(start as int).skip(1) =~= text@.skip(start + 1));
        start = start + 1;
    }
    proof {
        if start < text@.len() {
            assert(text@.skip(start as int)[0] == text@[start as int]);
        }
        assert(text@.subrange(start as int, text@.len() as int) =~= text@.skip(start as int));
    }
    slice_subrange(text, start, text.len())
}

/// A text without the whitespace on either side.
pub fn trim(text: &[char]) -> (r: &[char])
    ensures
        r@ == trimmed(text@),
{
    let rest = trim_start(text);
    let mut end: usize = rest.len();
    assert(rest@.take(end as int) =~= rest@);
    while end > 0 && is_whitespace(rest[end - 1])
        invariant
            end <= rest@.len(),
            trimmed_end(rest@) == trimmed_end(rest@.take(end as int)),
        decreases end,
    {
        assert(rest@.take(end as int).last() == rest@[end - 1]);
        assert(rest@.take(end as int).drop_last() =~= rest@.take(end - 1));
        end = end - 1;
    }
    proof {
        if end > 0 {
            assert(rest@.take(end as int).last() == rest@[end - 1]);
        }
        assert(rest@.subrange(0, end as int) =~= rest@.take(end as int));
    }
    slice_subrange(rest, 0, end)
}

/// The first word of a text.
pub fn split_first_word(text: &[char]) -> (r: Option<&[char]>)
    ensures
        r is Some <==> first_word(text@) is Some,
        r matches Some(word) ==> first_word(text@) == Some(word@),
{
    let rest = trim_start(text);
    if rest.len() == 0 {
        return None;
    }
    let mut end: usize = 0;
    assert(rest@.skip(0) =~= rest@);
    while end < rest.len() && !is_whitespace(rest[end])
        invariant
            end <= rest@.len(),
            word_length(rest@) == end + word_length(rest@.skip(end as int)),
        decreases rest@.len() - end,
    {
        assert(rest@.skip(end as int)[0] == rest@[end as int]);
        assert(rest@.skip(end as int).skip(1) =~= rest@.skip(end + 1));
        end = end + 1;
    }
    proof {
        if end < rest@.len() {
            assert(rest@.skip(end as int)[0] == rest@[end as int]);
        }
        assert(rest@.subrange(0, end as int) =~= rest@.take(end as int));
    }
    Some(slice_subrange(rest, 0, end))
}

/// Where the line that starts at `start` ends: the place of the next line feed, or the end of the
/// text.
pub fn find_line_end(text: &[char], start: usize) -> (end: usize)
    requires
        start <= text@.len(),
    ensures
        start <= end <= text@.len(),
        end - start == line_length(text@.skip(start as int)),
        end < text@.len() ==> text@[end as int] == '\n',
{
    let mut end: usize = start;
    while end < text.len() && text[end] != '\n'
        invariant
            start <= end <= text@.len(),
            line_length(text@.skip(start as int)) == end - start + line_length(
                text@.skip(end as int),
            ),
        decreases text@.len() - end,
    {
        assert(text@.skip(end as int)[0] == text@[end as int]);
        assert(text@.skip(end as int).skip(1) =~= text@.skip(end + 1));
        end = end + 1;
    }
    proof {
        if end < text@.len() {
            assert(text@.skip(end as int)[0] == text@[end as int]);
        }
    }
    end
}

/// What follows `prefix` in a text that starts with it.
pub fn strip_prefix<'a>(text: &'a [char], prefix: &str) -> (r: Option<&'a [char]>)
    ensures
        r is Some <==> after_prefix(text@, prefix@) is Some,
        r matches Some(rest) ==> after_prefix(text@, prefix@) == Some(rest@),
{
    let mut n: usize = 0;
    for c in it: prefix.chars()
        invariant
            it.seq() == prefix@,
            n == it.index(),
            n <= text@.len(),
            forall|k: int| 0 <= k < n ==> text@[k] == prefix@[k],
    {
        if n == text.len() || text[n] != c {
            assert(!prefix@.is_prefix_of(text@));
            return None;
        }
        n = n + 1;
    }
    assert(prefix@ =~= text@.subrange(0, n as int));
    assert(text@.subrange(n as int, text@.len() as int) =~= text@.skip(n as int));
    Some(slice_subrange(text, n, text.len()))
}

/// A decimal number never gets smaller by more digits.
proof fn lemma_digits_value_grows(digits: Seq<char>, n: int)
    requires
        all_digits(digits),
        0 <= n <= digits.len(),
    ensures
        0 <= digits_value(digits.take(n)) <= digits_value(digits),
    decreases digits.len(),
{
    if n == digits.len() {
        assert(digits.take(n) =~= digits);
        if n > 0 {
            assert(is_digit(digits[n - 1]));
            lemma_digits_value_grows(digits.drop_last(), n - 1);
        }
    } else {
        assert(digits.drop_last().take(n) =~= digits.take(n));
        assert(is_digit(digits[digits.len() - 1]));
        lemma_digits_value_grows(digits.drop_last(), n);
    }
}

/// The number between `min` and `max` that the characters denote in decimal.
pub fn parse_integer(text: &[char], min: i128, max: i128) -> (r: Option<i128>)
    requires
        -0x1_0000_0000_0000_0000 <= min <= max <= 0x1_0000_0000_0000_0000,
    ensures
        r is Some <==> parsed_integer(text@, min as int, max as int) is Some,
        r matches Some(n) ==> parsed_integer(text@, min as int, max as int) == Some(n as int),
{
    let limit: i128 = 0x1_0000_0000_0000_0000;
    let signed = text.len() > 0 && (text[0] == '+' || text[0] == '-' && min < 0);
    let negative = signed && text[0] == '-';
    let start: usize = if signed { 1 } else { 0 };
    let ghost digits = unsigned_part(text@, min as int);
    assert(digits =~= text@.skip(start as int));
    if start == text.len() {
        return None;
    }
    let mut magnitude: i128 = 0;
    let mut i: usize = start;
    assert(digits.take(0) =~= Seq::<char>::empty());
    while i < text.len()
        invariant
            start <= i <= text@.len(),
            start <= 1,
            digits == text@.skip(start as int),
            digits == unsigned_part(text@, min as int),
            limit == 0x1_0000_0000_0000_0000,
            -limit <= min <= max <= limit,
            all_digits(digits.take(i - start)),
            magnitude == digits_value(digits.take(i - start)),
            0 <= magnitude <= limit,
        decreases text@.len() - i,
    {
        let c = text[i];
        assert(digits[i - start] == c);
        if !('0' <= c && c <= '9') {
            assert(!is_digit(digits[i - start]));
            return None;
        }
        let digit: i128 = (c as u32 - '0' as u32) as i128;
        proof {
            assert(digits.take(i - start + 1).drop_last() =~= digits.take(i - start));
            assert(digits.take(i - start + 1).last() == c);
            assert forall|k: int| 0 <= k < i - start + 1 implies is_digit(
                #[trigger] digits.take(i - start + 1)[k],
            ) by {
                if k < i - start {
                    assert(digits.take(i - start)[k] == digits.take(i - start + 1)[k]);
                }
            }
        }
        magnitude = magnitude * 10 + digit;
        if magnitude > limit {
            proof {
                if all_digits(digits) {
                    lemma_digits_value_grows(digits, i - start + 1);
                }
            }
            return None;
        }
        i = i + 1;
    }
    assert(digits.take(i - start) =~= digits);
    let value = if negative {
        -magnitude
    } else {
        magnitude
    };
    if min <= value && value <= max {
        Some(value)
    } else {
        None
    }
}

/// One decimal digit as text.
fn digit_text(n: u64) -> (r: &'static str)
    requires
        n < 10,
    ensures
        r@ == seq![digit_char(n as nat)],
{
    proof {
        reveal_strlit("0");
        reveal_strlit("1");
        reveal_strlit("2");
        reveal_strlit("3");
        reveal_strlit("4");
        reveal_strlit("5");
        reveal_strlit("6");
        reveal_strlit("7");
        reveal_strlit("8");
        reveal_strlit("9");
    }
    match n {
        0 => "0",
        1 => "1",
        2 => "2",
        3 => "3",
        4 => "4",
        5 => "5",
        6 => "6",
        7 => "7",
        8 => "8",
        _ => "9",
    }
}

/// Appends a number in decimal to a text.
pub fn append_decimal(text: &mut String, n: u64)
    ensures
        final(text)@ == old(text)@ + decimal(n as nat),
    decreases n,
{
    if n >= 10 {
        append_decimal(text, n / 10);
    }
    text.append(digit_text(n % 10));
    assert(text@ =~= old(text)@ + decimal(n as nat));
}

} // verus!
