//! Decimal text of 64-bit integers: writing it and reading it back.

use vstd::prelude::*;
use crate::text::chars_of;

verus! {

/// Why a text does not denote a 64-bit integer.
#[derive(Clone, Copy, PartialEq, Eq, Structural, Debug)]
pub enum NumberError {
    /// The text has no characters.
    Empty,
    /// A character is not a decimal digit, or a sign stands alone.
    InvalidDigit,
    /// The number is above `i64::MAX`.
    TooLarge,
    /// The number is below `i64::MIN`.
    TooSmall,
}

/// Whether `c` is one of `'0'` to `'9'`.
pub open spec fn is_digit(c: char) -> bool {
    48 <= c as int <= 57
}

/// The value of the digit `c`.
pub open spec fn digit_value(c: char) -> int {
    c as int - 48
}

/// The character of the digit `d`, for `0 <= d <= 9`.
pub open spec fn digit_char(d: int) -> char {
    (d + 48) as char
}

/// The decimal digits of `n`, most significant first, without leading zeros.
pub open spec fn decimal(n: nat) -> Seq<char>
    decreases n,
{
    if n < 10 {
        seq![digit_char(n as int)]
    } else {
        decimal(n / 10).push(digit_char((n % 10) as int))
    }
}

/// The decimal text of `v`: a minus sign for negative values, then the digits
/// of the magnitude.
pub open spec fn signed_decimal(v: int) -> Seq<char> {
    if v < 0 {
        seq!['-'] + decimal((-v) as nat)
    } else {
        decimal(v as nat)
    }
}

/// The decimal text of a 64-bit integer.
pub open spec fn decimal_of(v: i64) -> Seq<char> {
    signed_decimal(v as int)
}

/// Reads the digits `body[i..]` from left to right onto `acc`, away from zero
/// in the direction that `negative` gives. The first character that is not a
/// digit, or the first digit that takes the value out of the 64-bit range,
/// ends the reading with its error.
pub open spec fn read_digits(body: Seq<char>, i: int, acc: int, negative: bool) -> Result<
    int,
    NumberError,
>
    decreases body.len() - i,
{
    if i < 0 || i >= body.len() {
        Ok(acc)
    } else if !is_digit(body[i]) {
        Err(NumberError::InvalidDigit)
    } else {
        let next = if negative {
            acc * 10 - digit_value(body[i])
        } else {
            acc * 10 + digit_value(body[i])
        };
        if next > i64::MAX {
            Err(NumberError::TooLarge)
        } else if next < i64::MIN {
            Err(NumberError::TooSmall)
        } else {
            read_digits(body, i + 1, next, negative)
        }
    }
}

/// The 64-bit integer that `s` denotes: an optional `+` or `-`, then one or
/// more decimal digits and nothing else.
pub open spec fn parse_decimal(s: Seq<char>) -> Result<int, NumberError> {
    if s.len() == 0 {
        Err(NumberError::Empty)
    } else if s[0] == '+' || s[0] == '-' {
        if s.len() == 1 {
            Err(NumberError::InvalidDigit)
        } else {
            read_digits(s, 1, 0, s[0] == '-')
        }
    } else {
        read_digits(s, 0, 0, false)
    }
}

/// What a reader is told about each kind of failure.
pub open spec fn number_error_text(e: NumberError) -> Seq<char> {
    match e {
        NumberError::Empty => "cannot parse integer from empty string"@,
        NumberError::InvalidDigit => "invalid digit found in string"@,
        NumberError::TooLarge => "number too large to fit in target type"@,
        NumberError::TooSmall => "number too small to fit in target type"@,
    }
}

impl NumberError {
    /// The description of the failure.
    pub fn describe(&self) -> (out: &'static str)
        ensures
            out@ == number_error_text(*self),
    {
        match self {
            NumberError::Empty => "cannot parse integer from empty string",
            NumberError::InvalidDigit => "invalid digit found in string",
            NumberError::TooLarge => "number too large to fit in target type",
            NumberError::TooSmall => "number too small to fit in target type",
        }
    }
}

proof fn lemma_reverse_push(s: Seq<char>, c: char)
    ensures
        s.push(c).reverse() == seq![c] + s.reverse(),
{
    assert(s.push(c).reverse() =~= seq![c] + s.reverse());
}

/// Writes `v` in decimal.
pub fn format_i64(v: i64) -> (out: String)
    ensures
        out@ == decimal_of(v),
{
    let negative = v < 0;
    let magnitude: u64 = if negative {
        (-(v as i128)) as u64
    } else {
        v as u64
    };
    let mut rest: u64 = magnitude / 10;
    let mut low_first: Vec<char> = Vec::new();
    low_first.push((48u8 + (magnitude % 10) as u8) as char);
    assert(low_first@.reverse() =~= seq![digit_char((magnitude % 10) as int)]);
    while rest > 0
        invariant
            low_first@.len() >= 1,
            decimal(magnitude as nat) == if rest == 0 {
                low_first@.reverse()
            } else {
                decimal(rest as nat) + low_first@.reverse()
            },
        decreases rest,
    {
        let c = (48u8 + (rest % 10) as u8) as char;
        proof {
            lemma_reverse_push(low_first@, c);
            if rest >= 10 {
                assert(decimal(rest as nat) + low_first@.reverse() =~= decimal((rest / 10) as nat)
                    + (seq![c] + low_first@.reverse()));
            } else {
                assert(decimal(rest as nat) + low_first@.reverse() =~= seq![c]
                    + low_first@.reverse());
            }
        }
        low_first.push(c);
        rest = rest / 10;
    }
    let mut out = String::new();
    if negative {
        out.push('-');
    }
    let ghost sign = out@;
    let mut i: usize = low_first.len();
    while i > 0
        invariant
            i <= low_first.len(),
            out@ == sign + low_first@.reverse().take(low_first.len() - i),
        decreases i,
    {
        i -= 1;
        out.push(low_first[i]);
        assert(low_first@.reverse().take(low_first.len() - i) =~= low_first@.reverse().take(
            low_first.len() - i - 1,
        ).push(low_first@[i as int]));
    }
    assert(low_first@.reverse().take(low_first.len() as int) =~= low_first@.reverse());
    out
}

/// The value of the digit `c`, if it is one.
pub fn digit_of(c: char) -> (d: Option<u8>)
    ensures
        d is Some <==> is_digit(c),
        d matches Some(x) ==> x == digit_value(c),
{
    let code = c as u32;
    if 48 <= code && code <= 57 {
        Some((code - 48) as u8)
    } else {
        None
    }
}

/// Reads a 64-bit integer in decimal: an optional sign, then digits only.
/// The result is that of [`parse_decimal`].
pub fn parse_i64(s: &str) -> (out: Result<i64, NumberError>)
    ensures
        match out {
            Ok(v) => parse_decimal(s@) == Ok::<int, NumberError>(v as int),
            Err(e) => parse_decimal(s@) == Err::<int, NumberError>(e),
        },
{
    let chars = chars_of(s);
    let n = chars.len();
    if n == 0 {
        return Err(NumberError::Empty);
    }
    let mut negative = false;
    let mut i: usize = 0;
    if chars[0] == '+' || chars[0] == '-' {
        if n == 1 {
            return Err(NumberError::InvalidDigit);
        }
        negative = chars[0] == '-';
        i = 1;
    }
    let mut acc: i64 = 0;
    while i < n
        invariant
            i <= n,
            n == chars@.len(),
            chars@ == s@,
            negative ==> acc <= 0,
            !negative ==> acc >= 0,
            parse_decimal(s@) == read_digits(s@, i as int, acc as int, negative),
        decreases n - i,
    {
        let d = match digit_of(chars[i]) {
            Some(d) => d,
            None => {
                return Err(NumberError::InvalidDigit);
            },
        };
        let next: i128 = if negative {
            acc as i128 * 10 - d as i128
        } else {
            acc as i128 * 10 + d as i128
        };
        if next > i64::MAX as i128 {
            return Err(NumberError::TooLarge);
        }
        if next < i64::MIN as i128 {
            return Err(NumberError::TooSmall);
        }
        acc = next as i64;
        i += 1;
    }
    Ok(acc)
}

} // verus!
