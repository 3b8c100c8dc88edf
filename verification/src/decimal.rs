//! Unsigned numbers in decimal notation.

use crate::text::chars_of;
use vstd::prelude::*;

verus! {

/// Why a text is not a decimal number that fits in 64 bits.
#[derive(Clone, Copy, Debug, PartialEq, Eq, Structural)]
pub enum ParseNumberError {
    /// The text is empty.
    Empty,
    /// A character is not a decimal digit, or a sign stands alone.
    InvalidDigit,
    /// The number is above `u64::MAX`.
    PosOverflow,
}

/// `c` is one of `0` to `9`.
pub open spec fn is_digit(c: char) -> bool {
    '0' <= c <= '9'
}

/// The number that the digit `c` stands for.
pub open spec fn digit_value(c: char) -> int {
    c as int - '0' as int
}

/// The digit for `d`, which is below ten.
pub open spec fn digit_char(d: int) -> char {
    (d + '0' as int) as char
}

/// `n` in decimal notation, without leading zeros.
pub open spec fn decimal_text(n: nat) -> Seq<char>
    decreases n,
{
    if n < 10 {
        seq![digit_char(n as int)]
    } else {
        decimal_text(n / 10).push(digit_char((n % 10) as int))
    }
}

/// The number read from `digits`, continuing from `read`: every character
/// must be a digit and no step may leave 64 bits. The first character at
/// which this fails decides the error.
pub open spec fn read_digits(digits: Seq<char>, read: int) -> Result<u64, ParseNumberError>
    decreases digits.len(),
{
    if digits.len() == 0 {
        Ok(read as u64)
    } else if !is_digit(digits[0]) {
        Err(ParseNumberError::InvalidDigit)
    } else if read * 10 + digit_value(digits[0]) > u64::MAX {
        Err(ParseNumberError::PosOverflow)
    } else {
        read_digits(digits.drop_first(), read * 10 + digit_value(digits[0]))
    }
}

/// The number that `text` denotes: an optional `+`, then one or more digits.
pub open spec fn parse_decimal(text: Seq<char>) -> Result<u64, ParseNumberError> {
    if text.len() == 0 {
        Err(ParseNumberError::Empty)
    } else {
        let digits = if text[0] == '+' { text.drop_first() } else { text };
        if digits.len() == 0 {
            Err(ParseNumberError::InvalidDigit)
        } else {
            read_digits(digits, 0)
        }
    }
}

/// Every character of `text` is a digit.
pub open spec fn all_digits(text: Seq<char>) -> bool {
    forall|i: int| 0 <= i < text.len() ==> is_digit(#[trigger] text[i])
}

/// The decimal notation of a number is one or more digits.
pub proof fn lemma_decimal_text_is_digits(n: nat)
    ensures
        decimal_text(n).len() >= 1,
        all_digits(decimal_text(n)),
    decreases n,
{
    if n >= 10 {
        lemma_decimal_text_is_digits(n / 10);
    }
}

/// Reading one more digit at the end continues from what was read before it.
proof fn lemma_read_digits_push(digits: Seq<char>, read: int, last: char)
    requires
        is_digit(last),
        0 <= read <= u64::MAX,
    ensures
        read_digits(digits.push(last), read) == match read_digits(digits, read) {
            Ok(value) => if value * 10 + digit_value(last) > u64::MAX {
                Err(ParseNumberError::PosOverflow)
            } else {
                Ok((value * 10 + digit_value(last)) as u64)
            },
            Err(e) => Err(e),
        },
    decreases digits.len(),
{
    let longer = digits.push(last);
    if digits.len() == 0 {
        if read * 10 + digit_value(last) <= u64::MAX {
            assert(read_digits(longer.drop_first(), read * 10 + digit_value(last)) == Ok::<
                u64,
                ParseNumberError,
            >((read * 10 + digit_value(last)) as u64));
        }
    } else {
        if is_digit(digits[0]) && read * 10 + digit_value(digits[0]) <= u64::MAX {
            assert(longer.drop_first() =~= digits.drop_first().push(last));
            lemma_read_digits_push(digits.drop_first(), read * 10 + digit_value(digits[0]), last);
        }
    }
}

proof fn lemma_read_decimal_text(n: nat)
    requires
        n <= u64::MAX,
    ensures
        read_digits(decimal_text(n), 0) == Ok::<u64, ParseNumberError>(n as u64),
    decreases n,
{
    let last = digit_char((n % 10) as int);
    if n < 10 {
        let text = decimal_text(n);
        assert(read_digits(text.drop_first(), n as int) == Ok::<u64, ParseNumberError>(n as u64));
    } else {
        lemma_read_decimal_text(n / 10);
        lemma_read_digits_push(decimal_text(n / 10), 0, last);
    }
}

/// Reading back the decimal notation of a number gives that number.
pub proof fn lemma_parse_decimal_text(n: u64)
    ensures
        parse_decimal(decimal_text(n as nat)) == Ok::<u64, ParseNumberError>(n),
{
    lemma_decimal_text_is_digits(n as nat);
    lemma_read_decimal_text(n as nat);
}

fn digit_text(d: u64) -> (text: &'static str)
    requires
        d < 10,
    ensures
        text@ == seq![digit_char(d as int)],
{
    proof {
        reveal_strlit("0");
        reveal_strlit("1");
        reveal_strlit("2");
        reveal_strlit("3");
        reveal_strlit("4");
        reveal_strlit("5");
        reveal_strlit("6");
        reveal_strlit("7");
        reveal_strlit("8");
        reveal_strlit("9");
    }
    let text = if d == 0 {
        "0"
    } else if d == 1 {
        "1"
    } else if d == 2 {
        "2"
    } else if d == 3 {
        "3"
    } else if d == 4 {
        "4"
    } else if d == 5 {
        "5"
    } else if d == 6 {
        "6"
    } else if d == 7 {
        "7"
    } else if d == 8 {
        "8"
    } else {
        "9"
    };
    text
}

/// Appends `n` in decimal notation to `out`.
pub fn push_decimal(out: &mut String, n: u64)
    ensures
        final(out)@ == old(out)@ + decimal_text(n as nat),
    decreases n,
{
    if n >= 10 {
        push_decimal(out, n / 10);
    }
    out.append(digit_text(n % 10));
}

/// `n` in decimal notation.
pub fn decimal_string(n: u64) -> (text: String)
    ensures
        text@ == decimal_text(n as nat),
{
    let mut text = String::new();
    push_decimal(&mut text, n);
    text
}

/// Reads a decimal number as `u64::from_str` does: an optional `+`, then
/// digits only; the value must fit in 64 bits.
pub fn parse_u64(text: &str) -> (r: Result<u64, ParseNumberError>)
    ensures
        r == parse_decimal(text@),
{
    let chars = chars_of(text);
    if chars.len() == 0 {
        return Err(ParseNumberError::Empty);
    }
    let start: usize = if chars[0] == '+' { 1 } else { 0 };
    if start == chars.len() {
        return Err(ParseNumberError::InvalidDigit);
    }
    let mut read: u64 = 0;
    let mut i: usize = start;
    proof {
        let digits = if text@[0] == '+' { text@.drop_first() } else { text@ };
        assert(digits =~= text@.subrange(start as int, text@.len() as int));
    }
    while i < chars.len()
        invariant
            chars@ == text@,
            i <= chars.len(),
            parse_decimal(text@) == read_digits(
                text@.subrange(i as int, text@.len() as int),
                read as int,
            ),
        decreases chars.len() - i,
    {
        let c = chars[i];
        let ghost rest = text@.subrange(i as int, text@.len() as int);
        assert(rest.drop_first() =~= text@.subrange(i + 1, text@.len() as int));
        if !(c >= '0' && c <= '9') {
            return Err(ParseNumberError::InvalidDigit);
        }
        let d: u64 = (c as u32 - '0' as u32) as u64;
        if read > (u64::MAX - d) / 10 {
            return Err(ParseNumberError::PosOverflow);
        }
        read = read * 10 + d;
        i = i + 1;
    }
    Ok(read)
}

} // verus!
