//! Text: integers written in decimal and read back, and lines.

use vstd::prelude::*;
use vstd::string::StringExecFns;

verus! {

/// The character of a decimal digit.
pub open spec fn digit_char(digit: int) -> char {
    if digit == 0 {
        '0'
    } else if digit == 1 {
        '1'
    } else if digit == 2 {
        '2'
    } else if digit == 3 {
        '3'
    } else if digit == 4 {
        '4'
    } else if digit == 5 {
        '5'
    } else if digit == 6 {
        '6'
    } else if digit == 7 {
        '7'
    } else if digit == 8 {
        '8'
    } else {
        '9'
    }
}

/// A natural number in decimal, without leading zeros.
pub open spec fn natural_text(n: nat) -> Seq<char>
    decreases n,
{
    if n < 10 {
        seq![digit_char(n as int)]
    } else {
        natural_text(n / 10).push(digit_char((n % 10) as int))
    }
}

/// An integer in decimal: a minus sign where it is negative, then its
/// magnitude without leading zeros.
pub open spec fn integer_text(n: int) -> Seq<char> {
    if n < 0 {
        seq!['-'] + natural_text((-n) as nat)
    } else {
        natural_text(n as nat)
    }
}

/// The text of one decimal digit.
fn digit_text(digit: u64) -> (text: &'static str)
    requires
        digit < 10,
    ensures
        text@ == seq![digit_char(digit as int)],
{
    proof {
        reveal_strlit("0");
        reveal_strlit("1");
        reveal_strlit("2");
        reveal_strlit("3");
        reveal_strlit("4");
        reveal_strlit("5");
        reveal_strlit("6");
        reveal_strlit("7");
        reveal_strlit("8");
        reveal_strlit("9");
    }
    let text = if digit == 0 {
        "0"
    } else if digit == 1 {
        "1"
    } else if digit == 2 {
        "2"
    } else if digit == 3 {
        "3"
    } else if digit == 4 {
        "4"
    } else if digit == 5 {
        "5"
    } else if digit == 6 {
        "6"
    } else if digit == 7 {
        "7"
    } else if digit == 8 {
        "8"
    } else {
        "9"
    };
    assert(text@ =~= seq![digit_char(digit as int)]);
    text
}

/// Appends a natural number in decimal.
fn append_natural(text: &mut String, n: u64)
    ensures
        final(text)@ == old(text)@ + natural_text(n as nat),
    decreases n,
{
    if n >= 10 {
        append_natural(text, n / 10);
    }
    text.append(digit_text(n % 10));
    proof {
        if n >= 10 {
            assert(final(text)@ =~= old(text)@ + natural_text(n as nat));
        } else {
            assert(final(text)@ =~= old(text)@ + natural_text(n as nat));
        }
    }
}

/// Appends an integer in decimal.
pub fn append_integer(text: &mut String, n: i64)
    ensures
        final(text)@ == old(text)@ + integer_text(n as int),
{
    if n < 0 {
        proof {
            reveal_strlit("-");
        }
        text.append("-");
        let magnitude: u64 = (-(n + 1)) as u64 + 1;
        append_natural(text, magnitude);
        proof {
            assert("-"@ =~= seq!['-']);
            assert(final(text)@ =~= old(text)@ + integer_text(n as int));
        }
    } else {
        append_natural(text, n as u64);
    }
}

/// The characters of a text, one by one.
pub fn chars_of(text: &str) -> (chars: Vec<char>)
    ensures
        chars@ == text@,
{
    let mut chars: Vec<char> = Vec::new();
    let n = text.unicode_len();
    let mut i: usize = 0;
    while i < n
        invariant
            n == text@.len(),
            i <= n,
            chars@ == text@.take(i as int),
        decreases n - i,
    {
        chars.push(text.get_char(i));
        proof {
            assert(chars@ =~= text@.take(i as int + 1));
        }
        i = i + 1;
    }
    proof {
        assert(text@.take(n as int) =~= text@);
    }
    chars
}

/// The value of a character that is a decimal digit.
pub open spec fn digit_value(c: char) -> Option<int> {
    if c == '0' {
        Some(0)
    } else if c == '1' {
        Some(1)
    } else if c == '2' {
        Some(2)
    } else if c == '3' {
        Some(3)
    } else if c == '4' {
        Some(4)
    } else if c == '5' {
        Some(5)
    } else if c == '6' {
        Some(6)
    } else if c == '7' {
        Some(7)
    } else if c == '8' {
        Some(8)
    } else if c == '9' {
        Some(9)
    } else {
        None
    }
}

/// The number that a text of one decimal digit or more stands for.
pub open spec fn natural_value(digits: Seq<char>) -> Option<int>
    decreases digits.len(),
{
    if digits.len() == 0 {
        None
    } else if digits.len() == 1 {
        digit_value(digits[0])
    } else {
        match (natural_value(digits.drop_last()), digit_value(digits.last())) {
            (Some(value), Some(digit)) => Some(value * 10 + digit),
            _ => None,
        }
    }
}

/// The integer that a text stands for: an optional sign, `+` or `-`, and
/// then decimal digits, at least one, and nothing else. A text that stands
/// for an integer outside of `i64` stands for none.
pub open spec fn integer_value(text: Seq<char>) -> Option<i64> {
    let signed = text.len() > 0 && (text[0] == '-' || text[0] == '+');
    let digits = if signed {
        text.skip(1)
    } else {
        text
    };
    match natural_value(digits) {
        Some(magnitude) => {
            let value = if text.len() > 0 && text[0] == '-' {
                -magnitude
            } else {
                magnitude
            };
            if i64::MIN <= value <= i64::MAX {
                Some(value as i64)
            } else {
                None
            }
        },
        None => None,
    }
}

/// A natural number that was written reads back as itself.
proof fn lemma_natural_text_reads_back(n: nat)
    ensures
        natural_text(n).len() >= 1,
        natural_value(natural_text(n)) == Some(n as int),
        natural_text(n)[0] != '-',
        natural_text(n)[0] != '+',
    decreases n,
{
    if n >= 10 {
        let shorter = natural_text(n / 10);
        let digit = digit_char((n % 10) as int);
        lemma_natural_text_reads_back(n / 10);
        assert(natural_text(n) == shorter.push(digit));
        assert(natural_text(n).drop_last() == shorter);
        assert(natural_text(n).last() == digit);
        assert(natural_text(n)[0] == shorter[0]);
    }
}

/// Writing and reading are inverse: an integer that was written in decimal
/// reads back as itself.
pub proof fn lemma_integer_text_reads_back(n: i64)
    ensures
        integer_value(integer_text(n as int)) == Some(n),
{
    let text = integer_text(n as int);
    if n < 0 {
        let digits = natural_text((-n) as nat);
        lemma_natural_text_reads_back((-n) as nat);
        assert(text[0] == '-');
        assert(text.skip(1) == digits);
    } else {
        lemma_natural_text_reads_back(n as nat);
    }
}

/// The value of a character that is a decimal digit.
fn read_digit(c: char) -> (value: Option<i128>)
    ensures
        match value {
            Some(value) => digit_value(c) == Some(value as int),
            None => digit_value(c) is None,
        },
{
    if c == '0' {
        Some(0)
    } else if c == '1' {
        Some(1)
    } else if c == '2' {
        Some(2)
    } else if c == '3' {
        Some(3)
    } else if c == '4' {
        Some(4)
    } else if c == '5' {
        Some(5)
    } else if c == '6' {
        Some(6)
    } else if c == '7' {
        Some(7)
    } else if c == '8' {
        Some(8)
    } else if c == '9' {
        Some(9)
    } else {
        None
    }
}

/// Digits before a place where the text stands for no number, or for one
/// that is too great, leave the whole text standing for none, or for one
/// that is greater still.
proof fn lemma_natural_value_grows(digits: Seq<char>, n: int)
    requires
        0 < n <= digits.len(),
    ensures
        natural_value(digits.take(n)) is None ==> natural_value(digits) is None,
        natural_value(digits.take(n)) is Some && natural_value(digits) is Some ==> natural_value(
            digits.take(n),
        )->0 <= natural_value(digits)->0,
        natural_value(digits) is Some ==> natural_value(digits)->0 >= 0,
    decreases digits.len(),
{
    if n < digits.len() {
        let shorter = digits.drop_last();
        assert(shorter.take(n) == digits.take(n));
        lemma_natural_value_grows(shorter, n);
    } else {
        assert(digits.take(n) == digits);
        if digits.len() > 1 {
            lemma_natural_value_grows(digits.drop_last(), n - 1);
        }
    }
}

/// Reads an integer: an optional sign, `+` or `-`, and then decimal digits,
/// at least one, and nothing else. `None` for any other text, and for an
/// integer outside of `i64`.
#[verifier::loop_isolation(false)]
pub fn parse_integer(text: &Vec<char>) -> (value: Option<i64>)
    ensures
        value == integer_value(text@),
{
    if text.len() == 0 {
        return None;
    }
    let negative = text[0] == '-';
    let start: usize = if text[0] == '-' || text[0] == '+' {
        1
    } else {
        0
    };
    let ghost digits = text@.skip(start as int);
    proof {
        if start == 0 {
            assert(digits =~= text@);
        }
    }
    if start == text.len() {
        return None;
    }
    let mut magnitude: i128 = 0;
    let mut i: usize = start;
    while i < text.len()
        invariant
            start <= i <= text@.len(),
            start < text@.len(),
            digits == text@.skip(start as int),
            0 <= magnitude <= 0x8000_0000_0000_0000,
            i > start ==> natural_value(digits.take(i - start)) == Some(magnitude as int),
            i == start ==> magnitude == 0,
        decreases text.len() - i,
    {
        proof {
            assert(digits.take(i - start + 1).drop_last() == digits.take(i - start));
            assert(digits.take(i - start + 1).last() == text@[i as int]);
            lemma_natural_value_grows(digits, i - start + 1);
        }
        let digit = match read_digit(text[i]) {
            Some(digit) => digit,
            None => {
                return None;
            },
        };
        magnitude = magnitude * 10 + digit;
        if magnitude > 0x8000_0000_0000_0000 {
            return None;
        }
        i = i + 1;
    }
    proof {
        assert(digits.take(i - start) == digits);
    }
    if negative {
        Some((-magnitude) as i64)
    } else if magnitude > i64::MAX as i128 {
        None
    } else {
        Some(magnitude as i64)
    }
}

/// The number of characters before the first `stop`, or the length of the
/// text where it holds none.
pub open spec fn span(text: Seq<char>, stop: char) -> int
    decreases text.len(),
{
    if text.len() == 0 || text[0] == stop {
        0
    } else {
        1 + span(text.skip(1), stop)
    }
}

/// The span of a text ends at the first `stop`, or at the end of the text.
pub proof fn lemma_span(text: Seq<char>, stop: char, n: int)
    requires
        0 <= n <= text.len(),
        forall|j: int| 0 <= j < n ==> text[j] != stop,
        n == text.len() || text[n] == stop,
    ensures
        span(text, stop) == n,
    decreases n,
{
    if n > 0 {
        let rest = text.skip(1);
        assert forall|j: int| 0 <= j < n - 1 implies rest[j] != stop by {
            assert(rest[j] == text[j + 1]);
        }
        lemma_span(rest, stop, n - 1);
    }
}

/// A line without the carriage return at its end, where it has one.
pub open spec fn without_return(line: Seq<char>) -> Seq<char> {
    if line.len() > 0 && line.last() == '\r' {
        line.drop_last()
    } else {
        line
    }
}

/// The lines of a text. A line ends with a line feed, or with a carriage
/// return and a line feed, neither of which belongs to it; what follows the
/// last line feed is a line of its own unless it is empty.
pub open spec fn lines_of(text: Seq<char>) -> Seq<Seq<char>>
    decreases text.len(),
{
    let end = span(text, '\n');
    if text.len() == 0 {
        Seq::empty()
    } else if 0 <= end < text.len() {
        seq![without_return(text.take(end))] + lines_of(text.skip(end + 1))
    } else {
        seq![text]
    }
}

/// The texts of a list of lines.
pub open spec fn texts_of(lines: Seq<Vec<char>>) -> Seq<Seq<char>> {
    lines.map_values(|line: Vec<char>| line@)
}

/// The characters of `text` from `from` up to `to`.
fn slice_of(text: &Vec<char>, from: usize, to: usize) -> (part: Vec<char>)
    requires
        from <= to <= text@.len(),
    ensures
        part@ == text@.subrange(from as int, to as int),
{
    let mut part: Vec<char> = Vec::new();
    let mut i: usize = from;
    while i < to
        invariant
            from <= i <= to <= text@.len(),
            part@ == text@.subrange(from as int, i as int),
        decreases to - i,
    {
        part.push(text[i]);
        proof {
            assert(part@ =~= text@.subrange(from as int, i as int + 1));
        }
        i = i + 1;
    }
    part
}

/// The place of the first `stop` at or after `from`, or the length of the
/// text where none follows.
fn find_stop(text: &Vec<char>, from: usize, stop: char) -> (at: usize)
    requires
        from <= text@.len(),
    ensures
        from <= at <= text@.len(),
        at - from == span(text@.skip(from as int), stop),
{
    let mut at: usize = from;
    while at < text.len() && text[at] != stop
        invariant
            from <= at <= text@.len(),
            forall|j: int| from <= j < at ==> text@[j] != stop,
        decreases text.len() - at,
    {
        at = at + 1;
    }
    proof {
        let rest = text@.skip(from as int);
        assert forall|j: int| 0 <= j < at - from implies rest[j] != stop by {
            assert(rest[j] == text@[from + j]);
        }
        lemma_span(rest, stop, at - from);
    }
    at
}

/// Splits a text into its lines.
pub fn split_lines(text: &Vec<char>) -> (lines: Vec<Vec<char>>)
    ensures
        texts_of(lines@) == lines_of(text@),
{
    let mut lines: Vec<Vec<char>> = Vec::new();
    let mut start: usize = 0;
    proof {
        assert(text@.skip(0) =~= text@);
        assert(texts_of(lines@) + lines_of(text@) =~= lines_of(text@));
    }
    while start < text.len()
        invariant
            start <= text@.len(),
            lines_of(text@) == texts_of(lines@) + lines_of(text@.skip(start as int)),
        decreases text.len() - start,
    {
        let ghost rest = text@.skip(start as int);
        let ghost done = texts_of(lines@);
        let end = find_stop(text, start, '\n');
        if end < text.len() {
            let line_end = if end > start && text[end - 1] == '\r' {
                end - 1
            } else {
                end
            };
            let line = slice_of(text, start, line_end);
            proof {
                assert(rest.take(end - start) =~= text@.subrange(start as int, end as int));
                assert(line@ =~= without_return(rest.take(end - start)));
                assert(rest.skip(end - start + 1) =~= text@.skip(end as int + 1));
                assert(texts_of(lines@.push(line)) =~= done.push(line@));
                assert(done.push(line@) + lines_of(text@.skip(end as int + 1)) =~= done + (
                seq![line@] + lines_of(text@.skip(end as int + 1))));
            }
            lines.push(line);
            start = end + 1;
        } else {
            let line = slice_of(text, start, end);
            proof {
                assert(line@ =~= rest);
                assert(texts_of(lines@.push(line)) =~= done.push(line@));
                assert(text@.skip(end as int).len() == 0);
                assert(done.push(line@) + lines_of(text@.skip(end as int)) =~= done + seq![rest]);
            }
            lines.push(line);
            start = end;
        }
    }
    proof {
        assert(texts_of(lines@) + lines_of(text@.skip(start as int)) =~= texts_of(lines@));
    }
    lines
}

} // verus!
