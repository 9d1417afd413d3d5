//! What holds of text as a whole: which texts are numbers, and where words and lines begin and end.

use crate::text::{
    after_prefix, all_digits, append_decimal, chars_of, decimal, digit_char, digits_value,
    find_line_end,
    first_word, has_sign, is_digit, is_space, is_whitespace, line_length, lines_of, parse_integer,
    parsed_integer, same_text, split_first_word, strip_prefix, trim, trim_start, trimmed,
    trimmed_end, trimmed_start,
    unsigned_part, without_return, word_length,
};
use vstd::prelude::*;

verus! {

/// Whether a text is made of whitespace.
pub open spec fn blank(text: Seq<char>) -> bool {
    forall|i: int| 0 <= i < text.len() ==> is_space(#[trigger] text[i])
}

/// Whether a text is free of whitespace.
pub open spec fn solid(text: Seq<char>) -> bool {
    forall|i: int| 0 <= i < text.len() ==> !is_space(#[trigger] text[i])
}

/// `n` in decimal, after a sign that may be empty and any number of zeros.
pub open spec fn numeral(sign: Seq<char>, zeros: nat, n: nat) -> Seq<char> {
    sign + Seq::new(zeros, |i: int| '0') + decimal(n)
}

/// Whether `sign` is a sign that a number may have, where negative numbers are allowed or not.
pub open spec fn is_sign(sign: Seq<char>, negative: bool) -> bool {
    sign == Seq::<char>::empty() || sign == seq!['+'] || (negative && sign == seq!['-'])
}

/// `n` with its sign.
pub open spec fn signed(sign: Seq<char>, n: nat) -> int {
    if sign == seq!['-'] {
        -(n as int)
    } else {
        n as int
    }
}

/// Lines one after the other, each with its end: a line feed, after a carriage return where
/// `carried` tells so.
pub open spec fn written(lines: Seq<Seq<char>>, carried: Seq<bool>) -> Seq<char>
    decreases lines.len(),
{
    if lines.len() == 0 {
        Seq::empty()
    } else {
        lines[0] + (if carried[0] {
            seq!['\r', '\n']
        } else {
            seq!['\n']
        }) + written(lines.skip(1), carried.skip(1))
    }
}

/// Whether `text` is the lines `lines`, of which the first `ended` have their ends, and `carried`
/// tells which of these have a carriage return. All but the last have; the last is not empty if it
/// has none.
pub open spec fn is_written(
    text: Seq<char>,
    lines: Seq<Seq<char>>,
    carried: Seq<bool>,
    ended: int,
) -> bool {
    &&& carried.len() == ended
    &&& lines.len() - 1 <= ended <= lines.len()
    &&& ended < lines.len() ==> lines.last().len() > 0
    &&& text == written(lines.take(ended), carried) + (if ended < lines.len() {
        lines.last()
    } else {
        Seq::empty()
    })
    &&& forall|i: int| 0 <= i < lines.len() ==> !(#[trigger] lines[i]).contains('\n')
    &&& forall|i: int|
        0 <= i < ended && !carried[i] && (#[trigger] lines[i]).len() > 0 ==> lines[i].last()
            != '\r'
}

/// Whether `text` holds the lines `lines`: each has its end, a line feed with or without a carriage
/// return, but perhaps for the last.
pub open spec fn holds_lines(text: Seq<char>, lines: Seq<Seq<char>>) -> bool {
    exists|carried: Seq<bool>, ended: int| is_written(text, lines, carried, ended)
}

/// Whitespace is what Unicode says: the characters with these numbers and no others.
pub proof fn whitespace_is_that_of_unicode(c: char, r: bool)
    requires
        call_ensures(is_whitespace, (c,), r),
    ensures
        r <==> {
            let n = c as int;
            ||| 9 <= n <= 13
            ||| 0x2000 <= n <= 0x200a
            ||| seq![
                0x20int,
                0x85,
                0xa0,
                0x1680,
                0x2028,
                0x2029,
                0x202f,
                0x205f,
                0x3000,
            ].contains(n)
        },
        is_space(c) <==> r,
{
    let n = c as int;
    let others = seq![0x20int, 0x85, 0xa0, 0x1680, 0x2028, 0x2029, 0x202f, 0x205f, 0x3000];
    assert(others[0] == 0x20 && others[1] == 0x85 && others[2] == 0xa0 && others[3] == 0x1680);
    assert(others[4] == 0x2028 && others[5] == 0x2029 && others[6] == 0x202f);
    assert(others[7] == 0x205f && others[8] == 0x3000);
}

/// A number below ten is written as its digit, and one more digit is one more place: the number
/// before it counts ten times.
pub proof fn decimal_is_positional(n: nat, digit: nat, c: char)
    requires
        digit < 10,
        c as int == 48 + digit,
    ensures
        decimal(digit) == seq![c],
        n > 0 ==> decimal(10 * n + digit) == decimal(n).push(c),
{
    assert(digit_char(digit) == c);
    if n > 0 {
        assert((10 * n + digit) / 10 == n);
        assert((10 * n + digit) % 10 == digit);
    }
}

/// Appending a number in decimal leaves the text before it alone.
pub proof fn number_is_appended_in_decimal(before: Seq<char>, after: Seq<char>, n: u64)
    requires
        exists|text: &mut String|
            {
                &&& #[trigger] call_ensures(append_decimal, (text, n), ())
                &&& text@ == before
                &&& final(text)@ == after
            },
    ensures
        after == before + decimal(n as nat),
{
}

/// What is written in decimal is made of digits, at least one, and denotes the number.
proof fn lemma_decimal_value(n: nat)
    ensures
        decimal(n).len() > 0,
        all_digits(decimal(n)),
        digits_value(decimal(n)) == n,
    decreases n,
{
    if n < 10 {
        let text = seq![digit_char(n)];
        assert(text.drop_last() =~= Seq::<char>::empty());
        assert(text.last() == digit_char(n));
        assert(digits_value(text.drop_last()) == 0);
    } else {
        lemma_decimal_value(n / 10);
        let text = decimal(n / 10).push(digit_char(n % 10));
        assert(text.drop_last() =~= decimal(n / 10));
        assert(text.last() == digit_char(n % 10));
        assert forall|i: int| 0 <= i < text.len() implies is_digit(#[trigger] text[i]) by {
            if i < decimal(n / 10).len() {
                assert(text[i] == decimal(n / 10)[i]);
            }
        }
    }
}

/// Zeros before a number change nothing.
proof fn lemma_zeros_value(zeros: nat, digits: Seq<char>)
    requires
        all_digits(digits),
    ensures
        all_digits(Seq::new(zeros, |i: int| '0') + digits),
        digits_value(Seq::new(zeros, |i: int| '0') + digits) == digits_value(digits),
    decreases zeros + digits.len(),
{
    let front = Seq::new(zeros, |i: int| '0');
    let text = front + digits;
    assert forall|i: int| 0 <= i < text.len() implies is_digit(#[trigger] text[i]) by {
        if i >= zeros {
            assert(text[i] == digits[i - zeros]);
        }
    }
    if digits.len() > 0 {
        assert(text.drop_last() =~= front + digits.drop_last());
        assert(text.last() == digits.last());
        lemma_zeros_value(zeros, digits.drop_last());
    } else if zeros > 0 {
        let fewer = Seq::new((zeros - 1) as nat, |i: int| '0');
        assert(text.drop_last() =~= fewer + digits);
        assert(text.last() == '0');
        lemma_zeros_value((zeros - 1) as nat, digits);
    }
}

/// Digits denote a number that is not negative.
proof fn lemma_value_not_negative(digits: Seq<char>)
    requires
        all_digits(digits),
    ensures
        digits_value(digits) >= 0,
    decreases digits.len(),
{
    if digits.len() > 0 {
        assert(is_digit(digits[digits.len() - 1]));
        lemma_value_not_negative(digits.drop_last());
    }
}

/// Digits are zeros and the number that they denote in decimal.
proof fn lemma_digits_are_numeral(digits: Seq<char>) -> (zeros: nat)
    requires
        all_digits(digits),
        digits.len() > 0,
    ensures
        digits_value(digits) >= 0,
        digits == Seq::new(zeros, |i: int| '0') + decimal(digits_value(digits) as nat),
    decreases digits.len(),
{
    let last = digits.last();
    let front = digits.drop_last();
    assert(is_digit(digits[digits.len() - 1]));
    let d = (last as int - '0' as int) as nat;
    assert(digit_char(d) == last);
    lemma_value_not_negative(digits);
    if front.len() == 0 {
        assert(digits_value(front) == 0);
        assert(digits =~= Seq::new(0, |i: int| '0') + decimal(d));
        0
    } else {
        let zeros = lemma_digits_are_numeral(front);
        let n = digits_value(front) as nat;
        if n == 0 {
            assert(decimal(0) =~= seq!['0']);
            assert(front =~= Seq::new(zeros + 1, |i: int| '0'));
            assert(digits =~= Seq::new(zeros + 1, |i: int| '0') + decimal(d));
            zeros + 1
        } else {
            decimal_is_positional(n, d, last);
            let padding = Seq::new(zeros, |i: int| '0');
            assert(digits =~= front.push(last));
            assert((padding + decimal(n)).push(last) =~= padding + decimal(n).push(last));
            zeros
        }
    }
}

/// A numeral denotes its number, if that is in range.
pub(crate) proof fn lemma_numeral_is_parsed(
    sign: Seq<char>,
    zeros: nat,
    n: nat,
    min: int,
    max: int,
)
    requires
        is_sign(sign, min < 0),
    ensures
        parsed_integer(numeral(sign, zeros, n), min, max) == (if min <= signed(sign, n) <= max {
            Some(signed(sign, n))
        } else {
            None
        }),
{
    let text = numeral(sign, zeros, n);
    let digits = Seq::new(zeros, |i: int| '0') + decimal(n);
    lemma_decimal_value(n);
    lemma_zeros_value(zeros, decimal(n));
    if sign.len() == 0 {
        assert(text =~= digits);
        assert(is_digit(digits[0]));
        assert(!has_sign(text, min));
    } else {
        assert(text[0] == sign[0]);
        assert(text.skip(1) =~= digits);
    }
    assert(unsigned_part(text, min) == digits);
    assert(seq!['+'][0] == '+' && seq!['-'][0] == '-');
}

/// A text that denotes a number is a numeral.
pub(crate) proof fn lemma_parsed_is_numeral(text: Seq<char>, min: int, max: int)
    requires
        parsed_integer(text, min, max) is Some,
    ensures
        exists|sign: Seq<char>, zeros: nat, n: nat|
            {
                &&& text == #[trigger] numeral(sign, zeros, n)
                &&& is_sign(sign, min < 0)
                &&& parsed_integer(text, min, max) == Some(signed(sign, n))
            },
{
    let digits = unsigned_part(text, min);
    let zeros = lemma_digits_are_numeral(digits);
    let n = digits_value(digits) as nat;
    let sign = if has_sign(text, min) {
        seq![text[0]]
    } else {
        Seq::empty()
    };
    let padding = Seq::new(zeros, |i: int| '0');
    assert(text =~= sign + digits);
    assert(sign + (padding + decimal(n)) =~= sign + padding + decimal(n));
    assert(text == numeral(sign, zeros, n));
    if has_sign(text, min) && text[0] == '-' {
        assert(sign == seq!['-']);
    } else {
        if has_sign(text, min) {
            assert(sign == seq!['+']);
        }
        assert(sign != seq!['-']) by {
            assert(seq!['-'][0] == '-');
            assert(seq!['-'].len() == 1);
        }
    }
}

/// Reading a number undoes writing it: a number in decimal, after zeros and a sign or without, is
/// read as that number if it is in range, and as nothing if it is not.
pub proof fn reading_undoes_writing(
    text: &[char],
    min: i128,
    max: i128,
    sign: Seq<char>,
    zeros: nat,
    n: nat,
    r: Option<i128>,
)
    requires
        call_ensures(parse_integer, (text, min, max), r),
        text@ == numeral(sign, zeros, n),
        is_sign(sign, min < 0),
    ensures
        min <= signed(sign, n) <= max ==> (r matches Some(k) && k == signed(sign, n)),
        !(min <= signed(sign, n) <= max) ==> r is None,
{
    lemma_numeral_is_parsed(sign, zeros, n, min as int, max as int);
}

/// Nothing but a numeral is read as a number, and then as the number that it is a numeral of.
pub proof fn only_numerals_are_read(text: &[char], min: i128, max: i128, k: i128)
    requires
        call_ensures(parse_integer, (text, min, max), Some(k)),
    ensures
        min <= k <= max,
        exists|sign: Seq<char>, zeros: nat, n: nat|
            {
                &&& text@ == #[trigger] numeral(sign, zeros, n)
                &&& is_sign(sign, min < 0)
                &&& k == signed(sign, n)
            },
{
    lemma_parsed_is_numeral(text@, min as int, max as int);
}

/// Whitespace before a text is cut off from it.
proof fn lemma_start_is_trimmed(before: Seq<char>, text: Seq<char>)
    requires
        blank(before),
        text.len() > 0 ==> !is_space(text[0]),
    ensures
        trimmed_start(before + text) == text,
    decreases before.len(),
{
    let all = before + text;
    if before.len() > 0 {
        assert(all[0] == before[0]);
        assert(all.skip(1) =~= before.skip(1) + text);
        lemma_start_is_trimmed(before.skip(1), text);
    } else {
        assert(all =~= text);
    }
}

/// Whitespace after a text is cut off from it.
proof fn lemma_end_is_trimmed(text: Seq<char>, after: Seq<char>)
    requires
        blank(after),
        text.len() > 0 ==> !is_space(text.last()),
    ensures
        trimmed_end(text + after) == text,
    decreases after.len(),
{
    let all = text + after;
    if after.len() > 0 {
        assert(all.last() == after.last());
        assert(all.drop_last() =~= text + after.drop_last());
        assert(is_space(after[after.len() - 1]));
        lemma_end_is_trimmed(text, after.drop_last());
    } else {
        assert(all =~= text);
    }
}

/// Whitespace on either side is cut off.
pub(crate) proof fn lemma_sides_are_trimmed(
    before: Seq<char>,
    text: Seq<char>,
    after: Seq<char>,
)
    requires
        blank(before),
        blank(after),
        text.len() > 0,
        !is_space(text[0]),
        !is_space(text.last()),
    ensures
        trimmed(before + text + after) == text,
{
    assert(before + text + after =~= before + (text + after));
    lemma_start_is_trimmed(before, text + after);
    lemma_end_is_trimmed(text, after);
}

/// What is cut off at the start is whitespace.
proof fn lemma_trimmed_start(text: Seq<char>) -> (before: Seq<char>)
    ensures
        blank(before),
        text == before + trimmed_start(text),
        trimmed_start(text).len() > 0 ==> !is_space(trimmed_start(text)[0]),
    decreases text.len(),
{
    if text.len() > 0 && is_space(text[0]) {
        let later = lemma_trimmed_start(text.skip(1));
        let before = seq![text[0]] + later;
        assert(text =~= seq![text[0]] + text.skip(1));
        assert(seq![text[0]] + (later + trimmed_start(text)) =~= before + trimmed_start(text));
        before
    } else {
        assert(text =~= Seq::<char>::empty() + text);
        Seq::empty()
    }
}

/// What is cut off at the end is whitespace.
proof fn lemma_trimmed_end(text: Seq<char>) -> (after: Seq<char>)
    ensures
        blank(after),
        text == trimmed_end(text) + after,
        trimmed_end(text).len() > 0 ==> !is_space(trimmed_end(text).last()),
        trimmed_end(text).len() > 0 ==> trimmed_end(text)[0] == text[0],
    decreases text.len(),
{
    if text.len() > 0 && is_space(text.last()) {
        let earlier = lemma_trimmed_end(text.drop_last());
        let after = earlier.push(text.last());
        assert(text =~= text.drop_last().push(text.last()));
        assert((trimmed_end(text) + earlier).push(text.last()) =~= trimmed_end(text) + after);
        after
    } else {
        assert(text =~= text + Seq::<char>::empty());
        Seq::empty()
    }
}

/// Trimming cuts whitespace off and nothing else, and leaves none on either side.
pub(crate) proof fn lemma_trimmed_between(text: Seq<char>) -> (sides: (Seq<char>, Seq<char>))
    ensures
        blank(sides.0),
        blank(sides.1),
        text == sides.0 + trimmed(text) + sides.1,
        trimmed(text).len() > 0 ==> !is_space(trimmed(text)[0]) && !is_space(
            trimmed(text).last(),
        ),
{
    let before = lemma_trimmed_start(text);
    let after = lemma_trimmed_end(trimmed_start(text));
    assert(text =~= before + trimmed(text) + after);
    (before, after)
}

/// Trimming cuts off whitespace on either side, all of it and nothing else.
pub proof fn trimming_cuts_off_whitespace(text: &[char], r: &[char])
    requires
        call_ensures(trim, (text,), r),
    ensures
        exists|before: Seq<char>, after: Seq<char>|
            {
                &&& text@ == #[trigger] (before + r@ + after)
                &&& blank(before)
                &&& blank(after)
            },
        r@.len() > 0 ==> !is_space(r@[0]) && !is_space(r@.last()),
{
    let sides = lemma_trimmed_between(text@);
    assert(text@ == sides.0 + r@ + sides.1);
}

/// A word ends at the first whitespace.
proof fn lemma_word_length(word: Seq<char>, rest: Seq<char>)
    requires
        solid(word),
        rest.len() > 0 ==> is_space(rest[0]),
    ensures
        word_length(word + rest) == word.len(),
    decreases word.len(),
{
    let text = word + rest;
    if word.len() > 0 {
        assert(text[0] == word[0]);
        assert(text.skip(1) =~= word.skip(1) + rest);
        lemma_word_length(word.skip(1), rest);
    } else {
        assert(text =~= rest);
    }
}

/// The first word is what stands between whitespace.
pub(crate) proof fn lemma_first_word(before: Seq<char>, word: Seq<char>, rest: Seq<char>)
    requires
        blank(before),
        word.len() > 0,
        solid(word),
        rest.len() > 0 ==> is_space(rest[0]),
    ensures
        first_word(before + word + rest) == Some(word),
{
    assert(before + word + rest =~= before + (word + rest));
    assert((word + rest)[0] == word[0]);
    lemma_start_is_trimmed(before, word + rest);
    lemma_word_length(word, rest);
    assert((word + rest).take(word.len() as int) =~= word);
}

/// Where a word ends.
proof fn lemma_word_is_solid(text: Seq<char>)
    ensures
        word_length(text) <= text.len(),
        solid(text.take(word_length(text) as int)),
        word_length(text) < text.len() ==> is_space(text[word_length(text) as int]),
    decreases text.len(),
{
    if text.len() > 0 && !is_space(text[0]) {
        lemma_word_is_solid(text.skip(1));
        let n = word_length(text.skip(1)) as int;
        assert forall|i: int| 0 <= i < n + 1 implies !is_space(
            #[trigger] text.take(n + 1)[i],
        ) by {
            if i > 0 {
                assert(text.take(n + 1)[i] == text.skip(1).take(n)[i - 1]);
            }
        }
        if n + 1 < text.len() {
            assert(text[n + 1] == text.skip(1)[n]);
        }
    }
}

/// A text with a first word is whitespace, the word, and more whitespace if anything.
pub(crate) proof fn lemma_around_first_word(text: Seq<char>) -> (sides: (Seq<char>, Seq<char>))
    requires
        first_word(text) is Some,
    ensures
        blank(sides.0),
        first_word(text)->0.len() > 0,
        solid(first_word(text)->0),
        sides.1.len() > 0 ==> is_space(sides.1[0]),
        text == sides.0 + first_word(text)->0 + sides.1,
{
    let before = lemma_trimmed_start(text);
    let rest = trimmed_start(text);
    lemma_word_is_solid(rest);
    let n = word_length(rest) as int;
    let after = rest.skip(n);
    assert(rest =~= rest.take(n) + after);
    assert(text =~= before + rest.take(n) + after);
    (before, after)
}

/// The first word of a text is what stands after whitespace, if any, and before the next, if any.
/// Only a text of nothing but whitespace has none.
pub proof fn first_word_stands_between_whitespace(text: &[char], r: Option<&[char]>)
    requires
        call_ensures(split_first_word, (text,), r),
    ensures
        match r {
            Some(word) => {
                &&& word@.len() > 0
                &&& solid(word@)
                &&& exists|before: Seq<char>, rest: Seq<char>|
                    {
                        &&& text@ == #[trigger] (before + word@ + rest)
                        &&& blank(before)
                        &&& rest.len() > 0 ==> is_space(rest[0])
                    }
            },
            None => blank(text@),
        },
{
    if r is Some {
        let sides = lemma_around_first_word(text@);
        assert(text@ == sides.0 + r->0@ + sides.1);
    } else {
        let before = lemma_trimmed_start(text@);
        assert(text@ =~= before);
    }
}

/// What follows a prefix is what is left without it, and a text with the prefix always has it cut
/// off.
pub proof fn prefix_is_cut_off(
    text: &[char],
    prefix: &str,
    rest: Seq<char>,
    r: Option<&[char]>,
)
    requires
        call_ensures(strip_prefix, (text, prefix), r),
    ensures
        r matches Some(left) ==> text@ == prefix@ + left@,
        text@ == prefix@ + rest ==> (r matches Some(left) && left@ == rest),
{
    if r is Some {
        assert(text@ =~= prefix@ + r->0@);
    }
    if text@ == prefix@ + rest {
        lemma_after_prefix(prefix@, rest);
    }
}

/// What follows a prefix.
pub(crate) proof fn lemma_after_prefix(prefix: Seq<char>, rest: Seq<char>)
    ensures
        after_prefix(prefix + rest, prefix) == Some(rest),
{
    let text = prefix + rest;
    assert(text.subrange(0, prefix.len() as int) =~= prefix);
    assert(text.skip(prefix.len() as int) =~= rest);
}

/// A line ends at the first line feed.
proof fn lemma_line_length(line: Seq<char>, rest: Seq<char>)
    requires
        !line.contains('\n'),
        rest.len() > 0 ==> rest[0] == '\n',
    ensures
        line_length(line + rest) == line.len(),
    decreases line.len(),
{
    let text = line + rest;
    if line.len() > 0 {
        assert(text[0] == line[0]);
        assert(line.contains(line[0]));
        assert(text.skip(1) =~= line.skip(1) + rest);
        assert forall|i: int| 0 <= i < line.skip(1).len() implies #[trigger] line.skip(1)[i]
            != '\n' by {
            assert(line.skip(1)[i] == line[i + 1]);
            assert(line.contains(line[i + 1]));
        }
        assert(!line.skip(1).contains('\n'));
        lemma_line_length(line.skip(1), rest);
    } else {
        assert(text =~= rest);
    }
}

/// Before the end of a line there is no line feed.
proof fn lemma_no_feed_in_line(text: Seq<char>, i: int)
    requires
        0 <= i < line_length(text),
    ensures
        i < text.len(),
        text[i] != '\n',
    decreases text.len(),
{
    if i > 0 {
        lemma_no_feed_in_line(text.skip(1), i - 1);
        assert(text.skip(1)[i - 1] == text[i]);
    }
}

/// A line ends at the first line feed from its start on, or with the text where there is none.
pub proof fn line_ends_at_the_first_feed(text: &[char], start: usize, end: usize)
    requires
        call_ensures(find_line_end, (text, start), end),
        start <= text@.len(),
    ensures
        start <= end <= text@.len(),
        forall|i: int| start <= i < end ==> #[trigger] text@[i] != '\n',
        end < text@.len() ==> text@[end as int] == '\n',
{
    let rest = text@.skip(start as int);
    assert forall|i: int| start <= i < end implies #[trigger] text@[i] != '\n' by {
        lemma_no_feed_in_line(rest, i - start);
        assert(rest[i - start] == text@[i]);
    }
}

/// The lines of a text are those that it was written with, each without its end.
pub(crate) proof fn lemma_lines_are_read_back(
    lines: Seq<Seq<char>>,
    carried: Seq<bool>,
    tail: Seq<char>,
)
    requires
        carried.len() == lines.len(),
        !tail.contains('\n'),
        forall|i: int| 0 <= i < lines.len() ==> !(#[trigger] lines[i]).contains('\n'),
        forall|i: int|
            0 <= i < lines.len() && !carried[i] && (#[trigger] lines[i]).len() > 0
                ==> lines[i].last() != '\r',
    ensures
        lines_of(written(lines, carried) + tail) == (if tail.len() > 0 {
            lines.push(tail)
        } else {
            lines
        }),
    decreases lines.len(),
{
    let text = written(lines, carried) + tail;
    if lines.len() == 0 {
        assert(text =~= tail);
        if tail.len() > 0 {
            lemma_line_length(tail, Seq::empty());
            assert(tail + Seq::<char>::empty() =~= tail);
            assert(lines_of(text) =~= lines.push(tail));
        } else {
            assert(lines_of(text) =~= lines);
        }
    } else {
        let later = written(lines.skip(1), carried.skip(1)) + tail;
        let line = if carried[0] {
            lines[0].push('\r')
        } else {
            lines[0]
        };
        assert(text =~= line + (seq!['\n'] + later));
        assert(!line.contains('\n')) by {
            assert forall|i: int| 0 <= i < line.len() implies #[trigger] line[i] != '\n' by {
                if i < lines[0].len() {
                    assert(line[i] == lines[0][i]);
                    assert(lines[0].contains(lines[0][i]));
                }
            }
        }
        lemma_line_length(line, seq!['\n'] + later);
        assert(text.take(line.len() as int) =~= line);
        assert(text.skip(line.len() as int + 1) =~= later);
        assert(without_return(line) =~= lines[0]);
        assert forall|i: int| 0 <= i < lines.skip(1).len() implies !(
        #[trigger] lines.skip(1)[i]).contains('\n') by {
            assert(lines.skip(1)[i] == lines[i + 1]);
        }
        assert forall|i: int|
            0 <= i < lines.skip(1).len() && !carried.skip(1)[i] && (
            #[trigger] lines.skip(1)[i]).len() > 0 implies lines.skip(1)[i].last() != '\r' by {
            assert(lines.skip(1)[i] == lines[i + 1]);
        }
        lemma_lines_are_read_back(lines.skip(1), carried.skip(1), tail);
        if tail.len() > 0 {
            assert(seq![lines[0]] + lines.skip(1).push(tail) =~= lines.push(tail));
        } else {
            assert(seq![lines[0]] + lines.skip(1) =~= lines);
        }
    }
}

/// The lines of a text are those that it holds.
pub proof fn lines_are_read_back(text: Seq<char>, lines: Seq<Seq<char>>)
    requires
        holds_lines(text, lines),
    ensures
        lines_of(text) == lines,
{
    let (carried, ended) = choose|carried: Seq<bool>, ended: int|
        is_written(text, lines, carried, ended);
    let front = lines.take(ended);
    let tail = if ended < lines.len() {
        lines.last()
    } else {
        Seq::empty()
    };
    assert forall|i: int| 0 <= i < front.len() implies !(#[trigger] front[i]).contains('\n') by {
        assert(front[i] == lines[i]);
    }
    assert forall|i: int| 0 <= i < front.len() && !carried[i] && (#[trigger] front[i]).len()
        > 0 implies front[i].last() != '\r' by {
        assert(front[i] == lines[i]);
    }
    if ended < lines.len() {
        assert(tail == lines[ended]);
    }
    lemma_lines_are_read_back(front, carried, tail);
    if ended < lines.len() {
        assert(front.push(tail) =~= lines);
    } else {
        assert(front =~= lines);
    }
}

/// A line and its end before a text that holds lines is one more line.
proof fn lemma_one_more_line(
    whole: Seq<char>,
    rest: Seq<char>,
    later: Seq<Seq<char>>,
    later_carried: Seq<bool>,
    later_ended: int,
)
    requires
        !whole.contains('\n'),
        is_written(rest, later, later_carried, later_ended),
    ensures
        exists|lines: Seq<Seq<char>>| holds_lines(whole + seq!['\n'] + rest, lines),
{
    let with_return = whole.len() > 0 && whole.last() == '\r';
    let line = without_return(whole);
    let lines = seq![line] + later;
    let carried = seq![with_return] + later_carried;
    let ended = later_ended + 1;
    let tail = if later_ended < later.len() {
        later.last()
    } else {
        Seq::empty()
    };
    let feed = if with_return {
        seq!['\r', '\n']
    } else {
        seq!['\n']
    };
    let front = written(later.take(later_ended), later_carried);
    assert(written(lines.take(ended), carried) == line + feed + front) by {
        assert(lines.take(ended).skip(1) =~= later.take(later_ended));
        assert(carried.skip(1) =~= later_carried);
        assert(lines.take(ended)[0] == line);
        assert(carried[0] == with_return);
    }
    assert(line + feed =~= whole + seq!['\n']);
    assert((whole + seq!['\n'] + front) + tail =~= whole + seq!['\n'] + (front + tail));
    if later_ended < later.len() {
        assert(lines.last() == later.last());
    }
    assert forall|i: int| 0 <= i < lines.len() implies !(#[trigger] lines[i]).contains('\n') by {
        if i > 0 {
            assert(lines[i] == later[i - 1]);
        } else {
            assert forall|k: int| 0 <= k < line.len() implies #[trigger] line[k] != '\n' by {
                assert(line[k] == whole[k]);
                assert(whole.contains(whole[k]));
            }
        }
    }
    assert forall|i: int|
        0 <= i < ended && !carried[i] && (#[trigger] lines[i]).len()
            > 0 implies lines[i].last() != '\r' by {
        if i > 0 {
            assert(lines[i] == later[i - 1]);
            assert(carried[i] == later_carried[i - 1]);
        }
    }
    assert(is_written(whole + seq!['\n'] + rest, lines, carried, ended));
    assert(holds_lines(whole + seq!['\n'] + rest, lines));
}

/// Every text holds lines.
pub proof fn every_text_holds_lines(text: Seq<char>)
    ensures
        exists|lines: Seq<Seq<char>>| holds_lines(text, lines),
    decreases text.len(),
{
    lemma_line_is_in_text(text);
    let end = line_length(text) as int;
    let whole = text.take(end);
    assert(!whole.contains('\n')) by {
        assert forall|k: int| 0 <= k < whole.len() implies #[trigger] whole[k] != '\n' by {
            lemma_no_feed_in_line(text, k);
        }
    }
    if end < text.len() {
        let rest = text.skip(end + 1);
        every_text_holds_lines(rest);
        let later = choose|lines: Seq<Seq<char>>| holds_lines(rest, lines);
        let (carried, ended) = choose|carried: Seq<bool>, ended: int|
            is_written(rest, later, carried, ended);
        lemma_one_more_line(whole, rest, later, carried, ended);
        assert(text =~= whole + seq!['\n'] + rest);
    } else {
        let lines = if text.len() == 0 {
            Seq::empty()
        } else {
            seq![whole]
        };
        let none = Seq::<bool>::empty();
        assert(text =~= whole);
        assert(lines.take(0) =~= Seq::<Seq<char>>::empty());
        assert(written(lines.take(0), none) + whole =~= text);
        assert(written(lines.take(0), none) + Seq::<char>::empty() =~= Seq::<char>::empty());
        assert(is_written(text, lines, none, 0));
        assert(holds_lines(text, lines));
    }
}

/// A line is no longer than the text that it is in, and ends with a line feed if it is shorter.
proof fn lemma_line_is_in_text(text: Seq<char>)
    ensures
        line_length(text) <= text.len(),
        line_length(text) < text.len() ==> text[line_length(text) as int] == '\n',
    decreases text.len(),
{
    if text.len() > 0 && text[0] != '\n' {
        lemma_line_is_in_text(text.skip(1));
        let n = line_length(text.skip(1)) as int;
        if n < text.skip(1).len() {
            assert(text.skip(1)[n] == text[n + 1]);
        }
    }
}

/// A numeral is not empty and holds no whitespace.
pub(crate) proof fn lemma_numeral_is_solid(sign: Seq<char>, zeros: nat, n: nat)
    requires
        is_sign(sign, true),
    ensures
        numeral(sign, zeros, n).len() > 0,
        solid(numeral(sign, zeros, n)),
{
    let text = numeral(sign, zeros, n);
    lemma_decimal_value(n);
    assert(seq!['+'][0] == '+' && seq!['-'][0] == '-');
    assert forall|i: int| 0 <= i < text.len() implies !is_space(#[trigger] text[i]) by {
        if i >= sign.len() + zeros {
            assert(text[i] == decimal(n)[i - sign.len() - zeros]);
            assert(is_digit(decimal(n)[i - sign.len() - zeros]));
        } else if i >= sign.len() {
            assert(text[i] == '0');
        } else {
            assert(text[i] == sign[i]);
        }
    }
}

/// The characters of a text are its own, and two texts are the same exactly where their characters
/// are.
pub proof fn text_is_its_characters(a: &str, b: &str, characters: Vec<char>, same: bool)
    requires
        call_ensures(chars_of, (a,), characters),
        call_ensures(same_text, (a, b), same),
    ensures
        characters@ == a@,
        same <==> characters@ == b@,
{
}

/// Trimming the start cuts off whitespace there, all of it and nothing else.
pub proof fn start_is_cut_off(text: &[char], r: &[char])
    requires
        call_ensures(trim_start, (text,), r),
    ensures
        exists|before: Seq<char>| text@ == #[trigger] (before + r@) && blank(before),
        r@.len() > 0 ==> !is_space(r@[0]),
{
    let before = lemma_trimmed_start(text@);
    assert(text@ == before + r@);
}

} // verus!
