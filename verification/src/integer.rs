//! Integer literals.
//!
//! A literal is binary after `0b`, hexadecimal after `0x`, octal after a
//! leading `0` that more characters follow, and decimal otherwise. Only a
//! decimal literal may carry a `-`: it is read as a signed 32-bit number and
//! stands for the bit pattern of that number.

use vstd::prelude::*;
use crate::error::AssemblerError;
use crate::span::Span;

verus! {

/// The value of a digit character, or 16 for a byte that is no digit of any
/// radix up to sixteen.
pub open spec fn digit_value(b: u8) -> int {
    if '0' as u8 <= b <= '9' as u8 {
        b - '0' as u8
    } else if 'a' as u8 <= b <= 'f' as u8 {
        b - 'a' as u8 + 10
    } else if 'A' as u8 <= b <= 'F' as u8 {
        b - 'A' as u8 + 10
    } else {
        16
    }
}

/// `digits` is not empty and holds only digits of `radix`.
pub open spec fn digits_valid(digits: Seq<u8>, radix: int) -> bool {
    digits.len() > 0 && forall|i: int| 0 <= i < digits.len() ==> digit_value(#[trigger] digits[i])
        < radix
}

/// The number that `digits` writes in `radix`, most significant digit first.
pub open spec fn digits_value(digits: Seq<u8>, radix: int) -> int
    decreases digits.len(),
{
    if digits.len() == 0 {
        0
    } else {
        digits_value(digits.drop_last(), radix) * radix + digit_value(digits.last())
    }
}

/// The number that `digits` writes in `radix`, if it is a number of that
/// radix and does not exceed `limit`.
pub open spec fn magnitude(digits: Seq<u8>, radix: int, limit: int) -> Option<int> {
    if digits_valid(digits, radix) && digits_value(digits, radix) <= limit {
        Some(digits_value(digits, radix))
    } else {
        None
    }
}

/// The 32-bit value that the text of a literal stands for, if any.
pub open spec fn literal_value(text: Seq<u8>) -> Option<u32> {
    if text.len() >= 2 && text[0] == '0' as u8 && text[1] == 'b' as u8 {
        match magnitude(text.skip(2), 2, 0xffff_ffff) {
            Some(v) => Some(v as u32),
            None => None,
        }
    } else if text.len() >= 2 && text[0] == '0' as u8 && text[1] == 'x' as u8 {
        match magnitude(text.skip(2), 16, 0xffff_ffff) {
            Some(v) => Some(v as u32),
            None => None,
        }
    } else if text.len() >= 2 && text[0] == '0' as u8 {
        match magnitude(text.skip(1), 8, 0xffff_ffff) {
            Some(v) => Some(v as u32),
            None => None,
        }
    } else if text.len() >= 1 && text[0] == '-' as u8 {
        match magnitude(text.skip(1), 10, 0x8000_0000) {
            Some(v) => Some(
                if v == 0 {
                    0u32
                } else {
                    (0x1_0000_0000 - v) as u32
                },
            ),
            None => None,
        }
    } else {
        match magnitude(text, 10, 0x7fff_ffff) {
            Some(v) => Some(v as u32),
            None => None,
        }
    }
}

/// The value of the literal at `span`, or the error that reports it.
pub open spec fn evaluate_spec(src: Seq<u8>, span: Span) -> Result<u32, AssemblerError> {
    match literal_value(span.text(src)) {
        Some(v) => Ok(v),
        None => Err(AssemblerError::InvalidInteger(span)),
    }
}

/// A longer prefix of a digit string writes no smaller a number.
proof fn lemma_prefix_value_grows(digits: Seq<u8>, radix: int, n: int)
    requires
        1 <= radix,
        0 <= n <= digits.len(),
    ensures
        0 <= digits_value(digits.take(n), radix) <= digits_value(digits, radix),
    decreases digits.len() - n,
{
    lemma_value_not_negative(digits.take(n), radix);
    if n == digits.len() {
        assert(digits.take(n) =~= digits);
    } else {
        lemma_prefix_value_grows(digits, radix, n + 1);
        let longer = digits.take(n + 1);
        assert(longer.drop_last() =~= digits.take(n));
        let v = digits_value(digits.take(n), radix);
        assert(v * radix >= v) by (nonlinear_arith)
            requires
                v >= 0,
                radix >= 1,
        ;
    }
}

proof fn lemma_value_not_negative(digits: Seq<u8>, radix: int)
    requires
        1 <= radix,
    ensures
        0 <= digits_value(digits, radix),
    decreases digits.len(),
{
    if digits.len() > 0 {
        lemma_value_not_negative(digits.drop_last(), radix);
        let v = digits_value(digits.drop_last(), radix);
        assert(v * radix >= 0) by (nonlinear_arith)
            requires
                v >= 0,
                radix >= 1,
        ;
    }
}

/// The value of one digit character, 16 if it is none.
fn digit_of(b: u8) -> (r: u64)
    ensures
        r == digit_value(b),
{
    if '0' as u8 <= b && b <= '9' as u8 {
        (b - '0' as u8) as u64
    } else if 'a' as u8 <= b && b <= 'f' as u8 {
        (b - 'a' as u8) as u64 + 10
    } else if 'A' as u8 <= b && b <= 'F' as u8 {
        (b - 'A' as u8) as u64 + 10
    } else {
        16
    }
}

/// Reads the digits of `src` from `start` up to `end` in `radix`, as long as
/// the number they write does not exceed `limit`.
pub fn read_digits(src: &[u8], start: usize, end: usize, radix: u64, limit: u64) -> (r: Option<u64>)
    requires
        start <= end <= src@.len(),
        2 <= radix <= 16,
        limit <= 0xffff_ffff,
    ensures
        match r {
            Some(v) => magnitude(src@.subrange(start as int, end as int), radix as int, limit as int)
                == Some(v as int) && v <= limit,
            None => magnitude(src@.subrange(start as int, end as int), radix as int, limit as int)
                is None,
        },
{
    let ghost digits = src@.subrange(start as int, end as int);
    if start == end {
        return None;
    }
    let mut value: u64 = 0;
    let mut i: usize = start;
    while i < end
        invariant
            start <= i <= end <= src@.len(),
            2 <= radix <= 16,
            limit <= 0xffff_ffff,
            digits == src@.subrange(start as int, end as int),
            value == digits_value(digits.take(i - start), radix as int),
            value <= limit,
            forall|j: int| 0 <= j < i - start ==> digit_value(#[trigger] digits[j]) < radix,
        decreases end - i,
    {
        let d = digit_of(src[i]);
        if d >= radix {
            assert(digit_value(digits[i - start]) >= radix);
            return None;
        }
        let ghost longer = digits.take(i - start + 1);
        assert(longer.drop_last() =~= digits.take(i - start));
        assert(longer.last() == src@[i as int]);
        assert(value * radix <= 0xffff_ffff * 16) by (nonlinear_arith)
            requires
                value <= 0xffff_ffff,
                radix <= 16,
        ;
        let next: u64 = value * radix + d;
        if next > limit {
            proof {
                lemma_prefix_value_grows(digits, radix as int, i - start + 1);
            }
            return None;
        }
        value = next;
        i += 1;
    }
    assert(digits.take(end - start) =~= digits);
    Some(value)
}

/// Evaluates the integer literal that `span` covers.
///
/// Fails with `InvalidInteger` when the literal has no digits, holds a
/// character that is no digit of its radix, or does not fit 32 bits (31 bits
/// and a sign for a decimal one).
pub fn evaluate(src: &[u8], span: Span) -> (r: Result<u32, AssemblerError>)
    requires
        span.fits(src@.len()),
    ensures
        r == evaluate_spec(src@, span),
{
    let ghost text = span.text(src@);
    let n: usize = span.end - span.start;
    let s: usize = span.start;
    let zero: bool = n >= 2 && src[s] == '0' as u8;
    assert(n >= 1 ==> text[0] == src@[s as int]);
    assert(n >= 2 ==> text[1] == src@[s + 1]);
    if zero && src[s + 1] == 'b' as u8 {
        assert(text.skip(2) =~= src@.subrange(s + 2, span.end as int));
        match read_digits(src, s + 2, span.end, 2, 0xffff_ffff) {
            Some(v) => Ok(v as u32),
            None => Err(AssemblerError::InvalidInteger(span)),
        }
    } else if zero && src[s + 1] == 'x' as u8 {
        assert(text.skip(2) =~= src@.subrange(s + 2, span.end as int));
        match read_digits(src, s + 2, span.end, 16, 0xffff_ffff) {
            Some(v) => Ok(v as u32),
            None => Err(AssemblerError::InvalidInteger(span)),
        }
    } else if zero {
        assert(text.skip(1) =~= src@.subrange(s + 1, span.end as int));
        match read_digits(src, s + 1, span.end, 8, 0xffff_ffff) {
            Some(v) => Ok(v as u32),
            None => Err(AssemblerError::InvalidInteger(span)),
        }
    } else if n >= 1 && src[s] == '-' as u8 {
        assert(text.skip(1) =~= src@.subrange(s + 1, span.end as int));
        match read_digits(src, s + 1, span.end, 10, 0x8000_0000) {
            Some(v) => Ok(
                if v == 0 {
                    0u32
                } else {
                    (0x1_0000_0000u64 - v) as u32
                },
            ),
            None => Err(AssemblerError::InvalidInteger(span)),
        }
    } else {
        assert(text =~= src@.subrange(s as int, span.end as int));
        match read_digits(src, s, span.end, 10, 0x7fff_ffff) {
            Some(v) => Ok(v as u32),
            None => Err(AssemblerError::InvalidInteger(span)),
        }
    }
}

} // verus!
