//! Signed 64-bit integers as decimal text: writing, reading, and the law that
//! reading gives back what was written.

use vstd::prelude::*;

use crate::text::chars_of;

verus! {

/// The digit `0` to `9` of a number below ten.
pub open spec fn digit(d: nat) -> char {
    (48 + d) as char
}

/// Whether `c` is an ASCII digit.
pub open spec fn is_digit(c: char) -> bool {
    '0' <= c <= '9'
}

/// The number that an ASCII digit stands for.
pub open spec fn digit_value(c: char) -> nat {
    (c as nat - 48) as nat
}

/// Whether `text` holds ASCII digits only.
pub open spec fn all_digits(text: Seq<char>) -> bool {
    forall|i: int| 0 <= i < text.len() ==> is_digit(#[trigger] text[i])
}

/// The decimal digits of `n`, without leading zeros.
pub open spec fn digits_of(n: nat) -> Seq<char>
    decreases n,
{
    if n < 10 {
        seq![digit(n)]
    } else {
        digits_of(n / 10).push(digit(n % 10))
    }
}

/// `n` in decimal, with a minus sign when it is negative.
pub open spec fn decimal(n: int) -> Seq<char> {
    if n < 0 {
        seq!['-'] + digits_of((-n) as nat)
    } else {
        digits_of(n as nat)
    }
}

/// The number that a row of digits stands for.
pub open spec fn number_of(text: Seq<char>) -> nat
    decreases text.len(),
{
    if text.len() == 0 {
        0
    } else {
        10 * number_of(text.drop_last()) + digit_value(text.last())
    }
}

/// What is left of `text` behind one leading sign.
pub open spec fn unsigned_part(text: Seq<char>) -> Seq<char> {
    if text.len() > 0 && (text[0] == '-' || text[0] == '+') {
        text.skip(1)
    } else {
        text
    }
}

/// The integer that `text` denotes: an optional sign and at least one digit,
/// with a value that fits 64 bits. Any other text denotes none.
pub open spec fn read_decimal(text: Seq<char>) -> Option<int> {
    let digits = unsigned_part(text);
    let value = if text.len() > 0 && text[0] == '-' {
        -(number_of(digits) as int)
    } else {
        number_of(digits) as int
    };
    if digits.len() > 0 && all_digits(digits) && i64::MIN <= value <= i64::MAX {
        Some(value)
    } else {
        None
    }
}

proof fn lemma_digits(n: nat)
    ensures
        digits_of(n).len() > 0,
        all_digits(digits_of(n)),
        number_of(digits_of(n)) == n,
    decreases n,
{
    if n < 10 {
        assert(digits_of(n).drop_last() =~= Seq::<char>::empty());
        assert(number_of(digits_of(n)) == n) by {
            reveal_with_fuel(number_of, 2);
        }
    } else {
        lemma_digits(n / 10);
        let text = digits_of(n);
        assert(text.drop_last() =~= digits_of(n / 10));
        assert(text.last() == digit(n % 10));
    }
}

/// Reading a written integer gives that integer back.
pub proof fn lemma_decimal_reads_back(n: i64)
    ensures
        read_decimal(decimal(n as int)) == Some(n as int),
{
    if n < 0 {
        lemma_digits((-n) as nat);
        assert(decimal(n as int).skip(1) =~= digits_of((-n) as nat));
    } else {
        lemma_digits(n as nat);
        let text = decimal(n as int);
        assert(is_digit(text[0]));
    }
}

/// A number is written with a minus sign if it is negative and without leading
/// zeros.
pub proof fn lemma_numbers_are_written_plainly(n: int)
    ensures
        n < 0 ==> decimal(n) == seq!['-'] + decimal(-n),
        n == 0 ==> decimal(n) == seq!['0'],
        n > 0 ==> '1' <= decimal(n)[0] <= '9',
        n >= 0 ==> decimal(n).len() > 0 && forall|i: int|
            0 <= i < decimal(n).len() ==> '0' <= #[trigger] decimal(n)[i] <= '9',
        n >= 10 ==> decimal(n) == decimal(n / 10).push((48 + n % 10) as char),
{
    if n >= 0 {
        lemma_digits(n as nat);
        assert forall|i: int| 0 <= i < decimal(n).len() implies '0' <= #[trigger] decimal(n)[i]
            <= '9' by {
            assert(is_digit(digits_of(n as nat)[i]));
        }
    }
    if n > 0 {
        lemma_no_leading_zero(n as nat);
    }
}

proof fn lemma_no_leading_zero(n: nat)
    requires
        n > 0,
    ensures
        '1' <= digits_of(n)[0] <= '9',
    decreases n,
{
    if n >= 10 {
        lemma_no_leading_zero(n / 10);
        lemma_digits(n / 10);
    }
}

/// A text with a character that is no digit, a leading sign left aside, and a text
/// without a digit denote no number.
pub proof fn lemma_only_digits_denote_a_number(text: Seq<char>, at: int)
    requires
        text.len() == 0 || 1 <= at < text.len() && !('0' <= text[at] <= '9') || text.len() == 1
            && !('0' <= text[0] <= '9'),
    ensures
        read_decimal(text) is None,
{
    if text.len() > 1 {
        let digits = unsigned_part(text);
        if digits.len() < text.len() {
            assert(digits[at - 1] == text[at]);
        } else {
            assert(digits[at] == text[at]);
        }
    } else if text.len() == 1 {
        let digits = unsigned_part(text);
        if digits.len() == 1 {
            assert(digits[0] == text[0]);
        }
    }
}

/// A digit more makes ten times the number and that digit; a leading plus sign
/// changes nothing, and a leading minus sign turns the number round.
pub proof fn lemma_digits_denote_a_number(digits: Seq<char>, c: char)
    requires
        digits.len() > 0,
        forall|i: int| 0 <= i < digits.len() ==> '0' <= #[trigger] digits[i] <= '9',
        '0' <= c <= '9',
    ensures
        number_of(seq![c]) == c as int - 48,
        number_of(digits.push(c)) == 10 * number_of(digits) + (c as int - 48),
        number_of(digits) <= i64::MAX ==> read_decimal(digits) == Some(number_of(digits) as int)
            && read_decimal(seq!['+'] + digits) == Some(number_of(digits) as int) && read_decimal(
            seq!['-'] + digits,
        ) == Some(-(number_of(digits) as int)),
        number_of(digits) > i64::MAX ==> read_decimal(digits) is None,
{
    assert(digits.push(c).drop_last() =~= digits);
    reveal_with_fuel(number_of, 2);
    assert(seq![c].drop_last() =~= Seq::<char>::empty());
    assert((seq!['+'] + digits).skip(1) =~= digits);
    assert((seq!['-'] + digits).skip(1) =~= digits);
    assert(is_digit(digits[0]));
    assert(all_digits(digits));
}

/// A positive number is taken, and anything else is replaced by the default.
pub proof fn lemma_positive_numbers_are_taken(text: Seq<char>, default: int)
    ensures
        positive_or(Some(text), default) == match read_decimal(text) {
            Some(number) => if number >= 1 {
                number
            } else {
                default
            },
            None => default,
        },
        positive_or(None, default) == default,
{
}

proof fn lemma_number_grows(text: Seq<char>, i: int)
    requires
        0 <= i <= text.len(),
    ensures
        number_of(text.take(i)) <= number_of(text),
    decreases text.len() - i,
{
    if i < text.len() {
        lemma_number_grows(text, i + 1);
        assert(text.take(i + 1).drop_last() =~= text.take(i));
    } else {
        assert(text.take(i) =~= text);
    }
}

/// The digits of `n`.
fn write_digits(n: u64) -> (text: String)
    ensures
        text@ == digits_of(n as nat),
    decreases n,
{
    if n < 10 {
        let mut text = String::new();
        let code: u8 = 48 + n as u8;
        text.push(code as char);
        assert(text@ =~= digits_of(n as nat));
        text
    } else {
        let mut text = write_digits(n / 10);
        let code: u8 = 48 + (n % 10) as u8;
        text.push(code as char);
        text
    }
}

/// `n` in decimal.
pub fn decimal_text(n: i64) -> (text: String)
    ensures
        text@ == decimal(n as int),
{
    if n < 0 {
        let magnitude: i128 = -(n as i128);
        let mut text = String::new();
        text.push('-');
        let digits = write_digits(magnitude as u64);
        text.append(digits.as_str());
        assert(text@ =~= decimal(n as int));
        text
    } else {
        write_digits(n as u64)
    }
}

/// The integer that `text` denotes, if it denotes one.
pub fn parse_decimal(text: &str) -> (number: Option<i64>)
    ensures
        match number {
            Some(n) => read_decimal(text@) == Some(n as int),
            None => read_decimal(text@) is None,
        },
{
    let chars = chars_of(text);
    let negative = chars.len() > 0 && chars[0] == '-';
    let signed = negative || (chars.len() > 0 && chars[0] == '+');
    let start: usize = if signed {
        1
    } else {
        0
    };
    let ghost digits = unsigned_part(text@);
    assert(digits =~= text@.skip(start as int));
    if chars.len() == start {
        return None;
    }
    let mut value: u64 = 0;
    let mut i: usize = start;
    while i < chars.len()
        invariant
            chars@ == text@,
            start <= 1,
            start <= i <= chars@.len(),
            digits == text@.skip(start as int),
            digits == unsigned_part(text@),
            negative == (text@.len() > 0 && text@[0] == '-'),
            all_digits(digits.take(i - start)),
            value == number_of(digits.take(i - start)),
            value <= 9_223_372_036_854_775_808,
        decreases chars@.len() - i,
    {
        let c = chars[i];
        assert(c == digits[i - start]);
        if !('0' <= c && c <= '9') {
            assert(!is_digit(digits[i - start]));
            return None;
        }
        let d: u8 = c as u8 - 48;
        proof {
            assert(digits.take(i + 1 - start).drop_last() =~= digits.take(i - start));
            assert(digits.take(i + 1 - start).last() == c);
            lemma_number_grows(digits, i + 1 - start);
        }
        if value > (9_223_372_036_854_775_808 - d as u64) / 10 {
            return None;
        }
        value = value * 10 + d as u64;
        i += 1;
    }
    assert(digits.take(i - start) =~= digits);
    if negative {
        let signed_value: i128 = -(value as i128);
        Some(signed_value as i64)
    } else if value > 9_223_372_036_854_775_807 {
        None
    } else {
        Some(value as i64)
    }
}

/// A positive integer read from `value`, or `default` where there is none.
pub open spec fn positive_or(value: Option<Seq<char>>, default: int) -> int {
    match value {
        Some(text) => match read_decimal(text) {
            Some(number) if number > 0 => number,
            _ => default,
        },
        None => default,
    }
}

/// The positive integer that `value` denotes, or `default`.
pub fn parse_positive_or(value: Option<&str>, default: i64) -> (number: i64)
    ensures
        number == positive_or(crate::text::opt_str(value), default as int),
{
    match value {
        Some(text) => match parse_decimal(text) {
            Some(number) => if number > 0 {
                number
            } else {
                default
            },
            None => default,
        },
        None => default,
    }
}

}
