//! Integers written as text.
//!
//! A number is read as an optional sign followed by decimal digits. The
//! digits are taken from the left; the first character that is no digit, or
//! the first digit that carries the value out of the range of the target
//! type, ends the reading with the matching [`NumberError`]. A number is
//! written as its numeral without needless zeros, decimal or hexadecimal, and
//! reading a decimal numeral gives the number back.
use crate::text::chars_of;
use vstd::prelude::*;

verus! {

/// Why a text is not a number of the wanted type.
#[derive(Clone, Copy, Debug, PartialEq, Eq)]
pub enum NumberError {
    /// The text is empty.
    Empty,
    /// A character is not a decimal digit, or a sign stands alone.
    InvalidDigit,
    /// The number is above the largest value of the type.
    PosOverflow,
    /// The number is below the smallest value of the type.
    NegOverflow,
}

/// The number that `c` stands for as a digit, decimal or (with `hex`)
/// hexadecimal in either case of letter.
pub open spec fn digit(c: char, hex: bool) -> Option<int> {
    if '0' <= c && c <= '9' {
        Some(c as u32 - 48)
    } else if hex && 'a' <= c && c <= 'f' {
        Some(c as u32 - 87)
    } else if hex && 'A' <= c && c <= 'F' {
        Some(c as u32 - 55)
    } else {
        None
    }
}

/// Ten or sixteen.
pub open spec fn radix(hex: bool) -> int {
    if hex {
        16
    } else {
        10
    }
}

/// The digit that `c` stands for.
pub fn digit_of(c: char, hex: bool) -> (d: Option<u32>)
    ensures
        match d {
            Some(v) => digit(c, hex) == Some(v as int) && v < 16,
            None => digit(c, hex) is None,
        },
{
    if c >= '0' && c <= '9' {
        Some(c as u32 - 48)
    } else if hex && c >= 'a' && c <= 'f' {
        Some(c as u32 - 87)
    } else if hex && c >= 'A' && c <= 'F' {
        Some(c as u32 - 55)
    } else {
        None
    }
}

/// The value of the digits `s`, taken from the left, as long as it stays at or
/// below `limit`. The first character that is no digit gives `InvalidDigit`;
/// the first digit that carries the value above `limit` gives `over`.
pub open spec fn magnitude(s: Seq<char>, limit: int, over: NumberError) -> Result<int, NumberError>
    decreases s.len(),
{
    if s.len() == 0 {
        Ok(0)
    } else {
        match magnitude(s.drop_last(), limit, over) {
            Err(e) => Err(e),
            Ok(v) => match digit(s.last(), false) {
                None => Err(NumberError::InvalidDigit),
                Some(d) => if v * 10 + d > limit {
                    Err(over)
                } else {
                    Ok(v * 10 + d)
                },
            },
        }
    }
}

/// The integer that `s` denotes in a type whose values run from `-below` to
/// `above`. A leading `+` is always accepted, a leading `-` only where
/// `below > 0`.
pub open spec fn integer(s: Seq<char>, below: int, above: int) -> Result<int, NumberError> {
    if s.len() == 0 {
        Err(NumberError::Empty)
    } else if s.len() == 1 && (s[0] == '+' || s[0] == '-') {
        Err(NumberError::InvalidDigit)
    } else if s[0] == '+' {
        magnitude(s.skip(1), above, NumberError::PosOverflow)
    } else if s[0] == '-' && below > 0 {
        match magnitude(s.skip(1), below, NumberError::NegOverflow) {
            Ok(v) => Ok(-v),
            Err(e) => Err(e),
        }
    } else {
        magnitude(s, above, NumberError::PosOverflow)
    }
}

/// Reads the digits `chars[from..]` as [`magnitude`] describes.
fn read_magnitude(chars: &Vec<char>, from: usize, limit: u64, over: NumberError) -> (res: Result<
    u64,
    NumberError,
>)
    requires
        from <= chars.len(),
    ensures
        match res {
            Ok(v) => magnitude(chars@.skip(from as int), limit as int, over) == Ok::<
                int,
                NumberError,
            >(v as int),
            Err(e) => magnitude(chars@.skip(from as int), limit as int, over) == Err::<
                int,
                NumberError,
            >(e),
        },
{
    let ghost digits = chars@.skip(from as int);
    let mut value: u64 = 0;
    let mut i: usize = from;
    while i < chars.len()
        invariant
            from <= i <= chars.len(),
            digits == chars@.skip(from as int),
            value <= limit,
            magnitude(digits.take(i - from), limit as int, over) == Ok::<int, NumberError>(
                value as int,
            ),
        decreases chars.len() - i,
    {
        let c = chars[i];
        proof {
            assert(digits.take(i - from + 1).drop_last() == digits.take(i - from));
            assert(digits.take(i - from + 1).last() == c);
        }
        let d: u64 = match digit_of(c, false) {
            Some(d) => d as u64,
            None => {
                proof {
                    assert(magnitude(digits.take(i - from + 1), limit as int, over) is Err);
                    lemma_fault_stays(digits, i - from + 1, limit as int, over);
                }
                return Err(NumberError::InvalidDigit);
            },
        };
        if limit < d || value > (limit - d) / 10 {
            proof {
                assert(magnitude(digits.take(i - from + 1), limit as int, over) is Err);
                lemma_fault_stays(digits, i - from + 1, limit as int, over);
            }
            return Err(over);
        }
        value = value * 10 + d;
        i += 1;
    }
    proof {
        assert(digits.take(i - from) == digits);
    }
    Ok(value)
}

/// Once a prefix of `s` has failed, so has `s`, with the same error.
proof fn lemma_fault_stays(s: Seq<char>, n: int, limit: int, over: NumberError)
    requires
        0 <= n <= s.len(),
        magnitude(s.take(n), limit, over) is Err,
    ensures
        magnitude(s, limit, over) == magnitude(s.take(n), limit, over),
    decreases s.len() - n,
{
    if n < s.len() {
        assert(s.take(n + 1).drop_last() == s.take(n));
        lemma_fault_stays(s, n + 1, limit, over);
    } else {
        assert(s.take(n) == s);
    }
}

/// Reads `chars[from..]` as [`integer`] describes: the sign, and the value
/// without it.
pub fn read_integer(chars: &Vec<char>, from: usize, below: u64, above: u64) -> (res: Result<
    (bool, u64),
    NumberError,
>)
    requires
        from <= chars.len(),
    ensures
        match res {
            Ok((negative, v)) => {
                &&& integer(chars@.skip(from as int), below as int, above as int) == Ok::<
                    int,
                    NumberError,
                >(
                    if negative {
                        -(v as int)
                    } else {
                        v as int
                    },
                )
                &&& negative ==> v <= below
                &&& !negative ==> v <= above
            },
            Err(e) => integer(chars@.skip(from as int), below as int, above as int) == Err::<
                int,
                NumberError,
            >(e),
        },
{
    let ghost text = chars@.skip(from as int);
    if chars.len() == from {
        return Err(NumberError::Empty);
    }
    let first = chars[from];
    if chars.len() - from == 1 && (first == '+' || first == '-') {
        return Err(NumberError::InvalidDigit);
    }
    proof {
        assert(text.skip(1) == chars@.skip(from + 1));
    }
    if first == '-' && below > 0 {
        match read_magnitude(chars, from + 1, below, NumberError::NegOverflow) {
            Ok(v) => Ok((true, v)),
            Err(e) => Err(e),
        }
    } else {
        let start: usize = if first == '+' {
            from + 1
        } else {
            from
        };
        match read_magnitude(chars, start, above, NumberError::PosOverflow) {
            Ok(v) => Ok((false, v)),
            Err(e) => Err(e),
        }
    }
}

/// What `s` denotes as an `i32`.
pub open spec fn integer_i32(s: Seq<char>) -> Result<int, NumberError> {
    integer(s, 0x8000_0000, 0x7fff_ffff)
}

/// What `s` denotes as a `usize`.
pub open spec fn integer_usize(s: Seq<char>) -> Result<int, NumberError> {
    integer(s, 0, usize::MAX as int)
}

/// What `s` denotes as a `u16`.
pub open spec fn integer_u16(s: Seq<char>) -> Result<int, NumberError> {
    integer(s, 0, 0xffff)
}

/// Reads `s` as an `i32`.
pub fn parse_i32(s: &str) -> (res: Result<i32, NumberError>)
    ensures
        match res {
            Ok(v) => integer_i32(s@) == Ok::<int, NumberError>(v as int),
            Err(e) => integer_i32(s@) == Err::<int, NumberError>(e),
        },
{
    let chars = chars_of(s);
    proof {
        assert(chars@.skip(0) == chars@);
    }
    match read_integer(&chars, 0, 0x8000_0000, 0x7fff_ffff) {
        Ok((negative, v)) => {
            if !negative {
                Ok(v as i32)
            } else if v == 0x8000_0000 {
                Ok(i32::MIN)
            } else {
                Ok(-(v as i32))
            }
        },
        Err(e) => Err(e),
    }
}

/// Reads `s` as a `usize`.
pub fn parse_usize(s: &str) -> (res: Result<usize, NumberError>)
    ensures
        match res {
            Ok(v) => integer_usize(s@) == Ok::<int, NumberError>(v as int),
            Err(e) => integer_usize(s@) == Err::<int, NumberError>(e),
        },
{
    let chars = chars_of(s);
    proof {
        assert(chars@.skip(0) == chars@);
    }
    match read_integer(&chars, 0, 0, usize::MAX as u64) {
        Ok((_, v)) => Ok(v as usize),
        Err(e) => Err(e),
    }
}

/// Reads `s` as a `u16`.
pub fn parse_u16(s: &str) -> (res: Result<u16, NumberError>)
    ensures
        match res {
            Ok(v) => integer_u16(s@) == Ok::<int, NumberError>(v as int),
            Err(e) => integer_u16(s@) == Err::<int, NumberError>(e),
        },
{
    let chars = chars_of(s);
    proof {
        assert(chars@.skip(0) == chars@);
    }
    match read_integer(&chars, 0, 0, 0xffff) {
        Ok((_, v)) => Ok(v as u16),
        Err(e) => Err(e),
    }
}

/// The character that stands for the digit `d`, a lower-case letter from ten
/// on.
pub open spec fn digit_char(d: int) -> char {
    if d < 10 {
        (d + 48) as char
    } else {
        (d + 87) as char
    }
}

/// The numeral of `n` without needless zeros, decimal or (with `hex`)
/// hexadecimal.
pub open spec fn numeral(n: nat, hex: bool) -> Seq<char>
    decreases n,
{
    if hex {
        if n < 16 {
            seq![digit_char(n as int)]
        } else {
            numeral(n / 16, hex).push(digit_char(n as int % 16))
        }
    } else {
        if n < 10 {
            seq![digit_char(n as int)]
        } else {
            numeral(n / 10, hex).push(digit_char(n as int % 10))
        }
    }
}

/// The decimal numeral of `n`, with a minus sign where `n` is negative.
pub open spec fn signed_numeral(n: int) -> Seq<char> {
    if n < 0 {
        seq!['-'] + numeral((-n) as nat, false)
    } else {
        numeral(n as nat, false)
    }
}

/// Appends the numeral of `n` to `out`.
pub fn write_numeral(out: &mut String, n: u64, hex: bool)
    ensures
        final(out)@ == old(out)@ + numeral(n as nat, hex),
    decreases n,
{
    let base: u64 = if hex {
        16
    } else {
        10
    };
    if n >= base {
        write_numeral(out, n / base, hex);
    }
    let d: u8 = (n % base) as u8;
    let c: char = if d < 10 {
        (d + 48) as char
    } else {
        (d + 87) as char
    };
    out.push(c);
    proof {
        let before = old(out)@;
        if n >= base {
            assert(before + numeral(n as nat / base as nat, hex).push(c) == before + numeral(
                n as nat,
                hex,
            ));
            assert((before + numeral(n as nat / base as nat, hex)).push(c) == before + numeral(
                n as nat / base as nat,
                hex,
            ).push(c));
        } else {
            assert(before.push(c) == before + seq![c]);
        }
    }
}

/// Appends the decimal numeral of `n`, with its sign, to `out`.
pub fn write_signed(out: &mut String, n: i32)
    ensures
        final(out)@ == old(out)@ + signed_numeral(n as int),
{
    if n < 0 {
        out.push('-');
        let ghost signed = out@;
        write_numeral(out, (-(n as i64)) as u64, false);
        proof {
            assert(signed == old(out)@ + seq!['-']);
            assert(out@ == old(out)@ + (seq!['-'] + numeral((-n) as nat, false)));
        }
    } else {
        write_numeral(out, n as u64, false);
    }
}

/// The digits of the decimal numeral of `n` have the value `n`, as long as
/// `n` is within the limit, and the numeral begins with a digit.
pub proof fn lemma_numeral_magnitude(n: nat, limit: int, over: NumberError)
    requires
        n <= limit,
    ensures
        magnitude(numeral(n, false), limit, over) == Ok::<int, NumberError>(n as int),
        numeral(n, false).len() >= 1,
        digit(numeral(n, false)[0], false) is Some,
    decreases n,
{
    let text = numeral(n, false);
    if n >= 10 {
        lemma_numeral_magnitude(n / 10, limit, over);
        assert(text.drop_last() == numeral(n / 10, false));
        assert(digit(digit_char(n as int % 10), false) == Some(n as int % 10));
    } else {
        assert(text.drop_last() == Seq::<char>::empty());
        assert(digit(digit_char(n as int), false) == Some(n as int));
        assert(magnitude(text.drop_last(), limit, over) == Ok::<int, NumberError>(0));
    }
}

/// Reading the decimal numeral of an `i32` gives the number back.
pub proof fn lemma_signed_numeral_read(n: i32)
    ensures
        integer_i32(signed_numeral(n as int)) == Ok::<int, NumberError>(n as int),
{
    let text = signed_numeral(n as int);
    if n < 0 {
        let digits = numeral((-n) as nat, false);
        lemma_numeral_magnitude((-n) as nat, 0x8000_0000, NumberError::NegOverflow);
        assert(text.skip(1) == digits);
    } else {
        lemma_numeral_magnitude(n as nat, 0x7fff_ffff, NumberError::PosOverflow);
    }
}

} // verus!
