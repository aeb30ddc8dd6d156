//! Reading decimal numerals: the text of a process identifier.

use vstd::prelude::*;

use crate::text::{chars_of, decimal, digit_char};

verus! {

/// The characters that count as white space: the blank, the controls from
/// tab to carriage return, next line, and the Unicode spaces.
pub open spec fn is_whitespace(c: char) -> bool {
    ||| c == ' '
    ||| ('\u{0009}' <= c && c <= '\u{000D}')
    ||| c == '\u{0085}'
    ||| c == '\u{00A0}'
    ||| c == '\u{1680}'
    ||| ('\u{2000}' <= c && c <= '\u{200A}')
    ||| c == '\u{2028}'
    ||| c == '\u{2029}'
    ||| c == '\u{202F}'
    ||| c == '\u{205F}'
    ||| c == '\u{3000}'
}

fn whitespace(c: char) -> (white: bool)
    ensures
        white == is_whitespace(c),
{
    c == ' ' || (c >= '\u{0009}' && c <= '\u{000D}') || c == '\u{0085}' || c == '\u{00A0}' || c
        == '\u{1680}' || (c >= '\u{2000}' && c <= '\u{200A}') || c == '\u{2028}' || c
        == '\u{2029}' || c == '\u{202F}' || c == '\u{205F}' || c == '\u{3000}'
}

/// How many characters of white space stand at the front.
pub open spec fn leading_whitespace(s: Seq<char>) -> nat
    decreases s.len(),
{
    if s.len() > 0 && is_whitespace(s[0]) {
        1 + leading_whitespace(s.drop_first())
    } else {
        0
    }
}

/// How many characters of white space stand at the end.
pub open spec fn trailing_whitespace(s: Seq<char>) -> nat
    decreases s.len(),
{
    if s.len() > 0 && is_whitespace(s.last()) {
        1 + trailing_whitespace(s.drop_last())
    } else {
        0
    }
}

/// The text without the white space at its front and at its end.
pub open spec fn trimmed(s: Seq<char>) -> Seq<char> {
    let rest = s.skip(leading_whitespace(s) as int);
    rest.take(rest.len() - trailing_whitespace(rest))
}

/// The value of a decimal digit; nothing for any other character.
pub open spec fn digit_value(c: char) -> Option<nat> {
    if c == '0' {
        Some(0)
    } else if c == '1' {
        Some(1)
    } else if c == '2' {
        Some(2)
    } else if c == '3' {
        Some(3)
    } else if c == '4' {
        Some(4)
    } else if c == '5' {
        Some(5)
    } else if c == '6' {
        Some(6)
    } else if c == '7' {
        Some(7)
    } else if c == '8' {
        Some(8)
    } else if c == '9' {
        Some(9)
    } else {
        None
    }
}

/// The number that a run of decimal digits writes; nothing where a
/// character is no digit. The empty run writes zero.
pub open spec fn digits_value(s: Seq<char>) -> Option<nat>
    decreases s.len(),
{
    if s.len() == 0 {
        Some(0)
    } else {
        match (digits_value(s.drop_last()), digit_value(s.last())) {
            (Some(front), Some(digit)) => Some(front * 10 + digit),
            _ => None,
        }
    }
}

/// The number of 32 bits that a run of digits writes: the run is not empty
/// and its value fits.
pub open spec fn value_in_u32(digits: Seq<char>) -> Option<u32> {
    if digits.len() == 0 {
        None
    } else {
        match digits_value(digits) {
            Some(value) => if value <= u32::MAX {
                Some(value as u32)
            } else {
                None
            },
            None => None,
        }
    }
}

/// The number that a text writes in 32 bits without a sign: an optional
/// plus sign and then at least one decimal digit, with a value that fits.
pub open spec fn parse_u32_spec(s: Seq<char>) -> Option<u32> {
    if s.len() > 0 && s[0] == '+' {
        value_in_u32(s.drop_first())
    } else {
        value_in_u32(s)
    }
}

/// The process identifier that a text holds: the number written by the
/// text without the white space around it.
pub open spec fn parse_pid_spec(text: Seq<char>) -> Option<u32> {
    parse_u32_spec(trimmed(text))
}

/// A run of digits that goes on has at least the value of its front, and
/// has no value where its front has none.
pub proof fn lemma_digits_value_grows(s: Seq<char>, n: int)
    requires
        0 <= n <= s.len(),
    ensures
        digits_value(s.take(n)) is None ==> digits_value(s) is None,
        digits_value(s) matches Some(value) ==> digits_value(s.take(n))->0 <= value,
    decreases s.len() - n,
{
    if n < s.len() {
        lemma_digits_value_grows(s, n + 1);
        assert(s.take(n + 1).drop_last() == s.take(n));
    } else {
        assert(s.take(n) == s);
    }
}

fn digit_of(c: char) -> (value: Option<u64>)
    ensures
        match value {
            Some(v) => digit_value(c) == Some(v as nat) && v < 10,
            None => digit_value(c) is None,
        },
{
    if c == '0' {
        Some(0)
    } else if c == '1' {
        Some(1)
    } else if c == '2' {
        Some(2)
    } else if c == '3' {
        Some(3)
    } else if c == '4' {
        Some(4)
    } else if c == '5' {
        Some(5)
    } else if c == '6' {
        Some(6)
    } else if c == '7' {
        Some(7)
    } else if c == '8' {
        Some(8)
    } else if c == '9' {
        Some(9)
    } else {
        None
    }
}

/// Where the text stands between the white space around it.
fn trim_bounds(chars: &Vec<char>) -> (bounds: (usize, usize))
    ensures
        bounds.0 <= bounds.1 <= chars.len(),
        trimmed(chars@) == chars@.subrange(bounds.0 as int, bounds.1 as int),
{
    let ghost all = chars@;
    let mut start: usize = 0;
    assert(all.skip(0) == all);
    while start < chars.len() && whitespace(chars[start])
        invariant
            start <= chars.len(),
            all == chars@,
            leading_whitespace(all) == start + leading_whitespace(all.skip(start as int)),
        decreases chars.len() - start,
    {
        proof {
            assert(all.skip(start as int)[0] == all[start as int]);
            assert(all.skip(start as int).drop_first() == all.skip(start + 1));
        }
        start += 1;
    }
    proof {
        if start < chars.len() {
            assert(all.skip(start as int)[0] == all[start as int]);
        }
        assert(leading_whitespace(all) == start);
    }
    let ghost rest = all.skip(start as int);
    let mut end: usize = chars.len();
    assert(rest.take(rest.len() as int) == rest);
    while end > start && whitespace(chars[end - 1])
        invariant
            start <= end <= chars.len(),
            all == chars@,
            rest == all.skip(start as int),
            trailing_whitespace(rest) == (chars.len() - end) + trailing_whitespace(
                rest.take(end - start),
            ),
        decreases end,
    {
        proof {
            assert(rest.take(end - start).last() == all[end - 1]);
            assert(rest.take(end - start).drop_last() == rest.take(end - start - 1));
        }
        end -= 1;
    }
    proof {
        if end > start {
            assert(rest.take(end - start).last() == all[end - 1]);
        }
        assert(trailing_whitespace(rest) == chars.len() - end);
        assert(trimmed(all) == rest.take(end - start));
        assert(rest.take(end - start) =~= all.subrange(start as int, end as int));
    }
    (start, end)
}

/// Reads the run of digits between `first` and `end`.
fn read_digits(chars: &Vec<char>, first: usize, end: usize) -> (number: Option<u32>)
    requires
        first <= end <= chars.len(),
    ensures
        number == value_in_u32(chars@.subrange(first as int, end as int)),
{
    if first == end {
        return None;
    }
    let ghost digits = chars@.subrange(first as int, end as int);
    let mut at: usize = first;
    let mut value: u64 = 0;
    assert(digits.take(0) =~= Seq::<char>::empty());
    while at < end
        invariant
            first <= at <= end <= chars.len(),
            first < end,
            digits == chars@.subrange(first as int, end as int),
            digits_value(digits.take(at - first)) == Some(value as nat),
            value <= u32::MAX,
        decreases end - at,
    {
        proof {
            assert(digits.take(at - first + 1).drop_last() == digits.take(at - first));
            assert(digits.take(at - first + 1).last() == chars@[at as int]);
        }
        match digit_of(chars[at]) {
            Some(digit) => {
                let next: u64 = value * 10 + digit;
                if next > u32::MAX as u64 {
                    proof {
                        lemma_digits_value_grows(digits, at - first + 1);
                    }
                    return None;
                }
                value = next;
            },
            None => {
                proof {
                    lemma_digits_value_grows(digits, at - first + 1);
                }
                return None;
            },
        }
        at += 1;
    }
    assert(digits.take(end - first) == digits);
    Some(value as u32)
}

/// Reads a process identifier from the text of a lock or PID file: white
/// space around the number is skipped, and anything that is not a number of
/// 32 bits gives nothing.
pub fn parse_pid(text: &str) -> (pid: Option<u32>)
    ensures
        pid == parse_pid_spec(text@),
{
    let chars = chars_of(text);
    let (start, end) = trim_bounds(&chars);
    let ghost body = chars@.subrange(start as int, end as int);
    if start < end && chars[start] == '+' {
        assert(body[0] == '+');
        assert(body.drop_first() =~= chars@.subrange(start + 1, end as int));
        read_digits(&chars, start + 1, end)
    } else {
        proof {
            if body.len() > 0 {
                assert(body[0] == chars@[start as int]);
            }
        }
        read_digits(&chars, start, end)
    }
}

/// The numeral of a number is read back as the number.
pub proof fn lemma_decimal_reads_back(n: nat)
    ensures
        decimal(n).len() > 0,
        digits_value(decimal(n)) == Some(n),
        forall|i: int| 0 <= i < decimal(n).len() ==> '0' <= #[trigger] decimal(n)[i] <= '9',
    decreases n,
{
    if n >= 10 {
        lemma_decimal_reads_back(n / 10);
        let front = decimal(n / 10);
        let last = digit_char((n % 10) as int);
        assert(decimal(n) == front.push(last));
        assert(decimal(n).drop_last() == front);
        assert(decimal(n).last() == last);
        assert(digit_value(last) == Some(n % 10));
        assert(digits_value(decimal(n)) == Some((n / 10) * 10 + n % 10));
        assert forall|i: int| 0 <= i < decimal(n).len() implies '0' <= #[trigger] decimal(n)[i]
            <= '9' by {
            if i < front.len() {
                assert(decimal(n)[i] == front[i]);
            }
        }
    } else {
        let only = digit_char(n as int);
        assert(decimal(n) == seq![only]);
        assert(decimal(n).drop_last() =~= Seq::<char>::empty());
        assert(decimal(n).last() == only);
        assert(digit_value(only) == Some(n));
        assert(digits_value(Seq::<char>::empty()) == Some(0nat));
        assert(digits_value(decimal(n)) == Some(0 * 10 + n));
    }
}

} // verus!
