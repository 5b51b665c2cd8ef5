//! The lexical layer of the assembly language.
//!
//! Between any two tokens there may be blanks, line breaks and comments. A
//! comment runs from `;` to the end of its line, or from `/*` to the next
//! `*/`. A word starts with a letter or an underscore and goes on over
//! letters, digits and underscores. An integer starts with a digit, or with
//! `-` and a digit, and goes on over the same characters as a word: whether
//! they are digits of its radix is settled when it is evaluated.

use vstd::prelude::*;
use crate::error::{AssemblerError, Expected};
use crate::span::{settled, Span};

verus! {

/// A blank, a tab or a byte of a line break.
pub open spec fn is_space(b: u8) -> bool {
    b == ' ' as u8 || b == '\t' as u8 || b == '\r' as u8 || b == '\n' as u8
}

/// A decimal digit.
pub open spec fn is_digit(b: u8) -> bool {
    '0' as u8 <= b <= '9' as u8
}

/// A byte that may start a word: a letter of either case, or an underscore.
pub open spec fn is_letter(b: u8) -> bool {
    'a' as u8 <= b <= 'z' as u8 || 'A' as u8 <= b <= 'Z' as u8 || b == '_' as u8
}

/// A byte that may go on a word.
pub open spec fn is_word_byte(b: u8) -> bool {
    is_letter(b) || is_digit(b)
}

/// The offset of the first line break at or after `at`, or the end of the
/// text.
pub open spec fn line_end(src: Seq<u8>, at: int) -> int
    decreases src.len() - at,
{
    if 0 <= at < src.len() && src[at] != '\n' as u8 {
        line_end(src, at + 1)
    } else {
        at
    }
}

/// `*/` stands at `at`.
pub open spec fn closes_comment(src: Seq<u8>, at: int) -> bool {
    0 <= at && at + 1 < src.len() && src[at] == '*' as u8 && src[at + 1] == '/' as u8
}

/// The offset behind the first `*/` that starts at or after `at`, if there
/// is one.
pub open spec fn block_end(src: Seq<u8>, at: int) -> Option<int>
    decreases src.len() - at,
{
    if 0 <= at && at + 1 < src.len() {
        if src[at] == '*' as u8 && src[at + 1] == '/' as u8 {
            Some(at + 2)
        } else {
            block_end(src, at + 1)
        }
    } else {
        None
    }
}

/// The offset behind the longest run of word bytes that starts at `at`.
pub open spec fn word_end(src: Seq<u8>, at: int) -> int
    decreases src.len() - at,
{
    if 0 <= at < src.len() && is_word_byte(src[at]) {
        word_end(src, at + 1)
    } else {
        at
    }
}

/// The offset of the first byte at or after `at` that belongs to a token, or
/// the end of the text. A block comment that is not closed is an error at
/// the offset where it opens.
pub open spec fn skip_trivia(src: Seq<u8>, at: int) -> Result<int, AssemblerError>
    decreases src.len() - at,
{
    if 0 <= at < src.len() {
        if is_space(src[at]) {
            skip_trivia(src, at + 1)
        } else if src[at] == ';' as u8 {
            proof {
                lemma_line_end_bounds(src, at + 1);
            }
            skip_trivia(src, line_end(src, at + 1))
        } else if src[at] == '/' as u8 && at + 1 < src.len() && src[at + 1] == '*' as u8 {
            match block_end(src, at + 2) {
                Some(end) => {
                    proof {
                        lemma_block_end_bounds(src, at + 2);
                    }
                    skip_trivia(src, end)
                },
                None => Err(
                    AssemblerError::Syntax { expected: Expected::CommentEnd, at: at as usize },
                ),
            }
        } else {
            Ok(at)
        }
    } else {
        Ok(at)
    }
}

pub proof fn lemma_line_end_bounds(src: Seq<u8>, at: int)
    requires
        0 <= at <= src.len(),
    ensures
        at <= line_end(src, at) <= src.len(),
    decreases src.len() - at,
{
    if at < src.len() && src[at] != '\n' as u8 {
        lemma_line_end_bounds(src, at + 1);
    }
}

pub proof fn lemma_block_end_bounds(src: Seq<u8>, at: int)
    requires
        0 <= at,
    ensures
        block_end(src, at) matches Some(end) ==> at + 2 <= end <= src.len(),
    decreases src.len() - at,
{
    if at + 1 < src.len() {
        if !(src[at] == '*' as u8 && src[at + 1] == '/' as u8) {
            lemma_block_end_bounds(src, at + 1);
        }
    }
}

pub proof fn lemma_word_end_bounds(src: Seq<u8>, at: int)
    requires
        0 <= at <= src.len(),
    ensures
        at <= word_end(src, at) <= src.len(),
        0 <= at < src.len() && is_word_byte(src[at]) ==> at < word_end(src, at),
    decreases src.len() - at,
{
    if at < src.len() && is_word_byte(src[at]) {
        lemma_word_end_bounds(src, at + 1);
    }
}

pub proof fn lemma_skip_trivia_bounds(src: Seq<u8>, at: int)
    requires
        0 <= at <= src.len(),
    ensures
        skip_trivia(src, at) matches Ok(next) ==> at <= next <= src.len(),
    decreases src.len() - at,
{
    if at < src.len() {
        if is_space(src[at]) {
            lemma_skip_trivia_bounds(src, at + 1);
        } else if src[at] == ';' as u8 {
            lemma_line_end_bounds(src, at + 1);
            lemma_skip_trivia_bounds(src, line_end(src, at + 1));
        } else if src[at] == '/' as u8 && at + 1 < src.len() && src[at + 1] == '*' as u8 {
            lemma_block_end_bounds(src, at + 2);
            match block_end(src, at + 2) {
                Some(end) => {
                    lemma_skip_trivia_bounds(src, end);
                },
                None => {},
            }
        }
    }
}

/// The token that starts at `at`, once trivia has been skipped, is a given
/// byte of punctuation; the result is the offset behind it.
pub open spec fn symbol(src: Seq<u8>, at: int, byte: u8) -> Result<int, AssemblerError> {
    match skip_trivia(src, at) {
        Err(e) => Err(e),
        Ok(p) => if p < src.len() && src[p] == byte {
            Ok(p + 1)
        } else {
            Err(AssemblerError::Syntax { expected: Expected::Symbol(byte), at: p as usize })
        },
    }
}

/// The word that starts at `at`, once trivia has been skipped, and the
/// offset behind it. Where no word starts there, `expected` says what the
/// word was to be.
pub open spec fn word(src: Seq<u8>, at: int, expected: Expected) -> Result<
    (Span, int),
    AssemblerError,
> {
    match skip_trivia(src, at) {
        Err(e) => Err(e),
        Ok(p) => if p < src.len() && is_letter(src[p]) {
            Ok((Span::between(p, word_end(src, p)), word_end(src, p)))
        } else {
            Err(AssemblerError::Syntax { expected, at: p as usize })
        },
    }
}

/// Whether an integer starts at `at`.
pub open spec fn starts_integer(src: Seq<u8>, at: int) -> bool {
    0 <= at < src.len() && (is_digit(src[at]) || (src[at] == '-' as u8 && at + 1 < src.len()
        && is_digit(src[at + 1])))
}

/// The integer that starts at `at`, once trivia has been skipped, and the
/// offset behind it.
pub open spec fn integer(src: Seq<u8>, at: int) -> Result<(Span, int), AssemblerError> {
    match skip_trivia(src, at) {
        Err(e) => Err(e),
        Ok(p) => if starts_integer(src, p) {
            Ok((Span::between(p, word_end(src, p + 1)), word_end(src, p + 1)))
        } else {
            Err(AssemblerError::Syntax { expected: Expected::Integer, at: p as usize })
        },
    }
}

/// How the result of a parser that runs stands for that of its definition:
/// the same value and offset, or the same error.
pub open spec fn agrees<T>(
    r: Result<(T, usize), AssemblerError>,
    s: Result<(T, int), AssemblerError>,
) -> bool {
    match r {
        Ok((v, p)) => s == Ok::<(T, int), AssemblerError>((v, p as int)),
        Err(e) => s == Err::<(T, int), AssemblerError>(e),
    }
}

/// As `agrees`, for a parser that yields an offset only.
pub open spec fn agrees_at(r: Result<usize, AssemblerError>, s: Result<int, AssemblerError>) -> bool {
    match r {
        Ok(p) => s == Ok::<int, AssemblerError>(p as int),
        Err(e) => s == Err::<int, AssemblerError>(e),
    }
}

/// Whether `b` is a blank, a tab or a byte of a line break.
pub fn space(b: u8) -> (r: bool)
    ensures
        r == is_space(b),
{
    b == ' ' as u8 || b == '\t' as u8 || b == '\r' as u8 || b == '\n' as u8
}

/// Whether `b` is a decimal digit.
pub fn digit(b: u8) -> (r: bool)
    ensures
        r == is_digit(b),
{
    '0' as u8 <= b && b <= '9' as u8
}

/// Whether `b` may start a word.
pub fn letter(b: u8) -> (r: bool)
    ensures
        r == is_letter(b),
{
    ('a' as u8 <= b && b <= 'z' as u8) || ('A' as u8 <= b && b <= 'Z' as u8) || b == '_' as u8
}

/// Finds the end of the line that `at` lies in.
pub fn find_line_end(src: &[u8], at: usize) -> (r: usize)
    requires
        at <= src@.len(),
    ensures
        r == line_end(src@, at as int),
        at <= r <= src@.len(),
        forall|i: int| at <= i < r ==> src@[i] != '\n' as u8,
        r < src@.len() ==> src@[r as int] == '\n' as u8,
{
    let mut i: usize = at;
    while i < src.len() && src[i] != '\n' as u8
        invariant
            at <= i <= src@.len(),
            line_end(src@, at as int) == line_end(src@, i as int),
            forall|j: int| at <= j < i ==> src@[j] != '\n' as u8,
        decreases src@.len() - i,
    {
        i += 1;
    }
    i
}

/// Finds the end of the block comment whose text starts at `at`.
pub fn find_block_end(src: &[u8], at: usize) -> (r: Option<usize>)
    requires
        at <= src@.len(),
    ensures
        match r {
            Some(end) => block_end(src@, at as int) == Some(end as int) && at + 2 <= end
                <= src@.len() && closes_comment(src@, end - 2),
            None => block_end(src@, at as int) is None,
        },
        forall|i: int|
            at <= i && (r matches Some(end) ==> i < end - 2) ==> !closes_comment(src@, i),
{
    let mut i: usize = at;
    while i < src.len() && i + 1 < src.len()
        invariant
            at <= i <= src@.len(),
            block_end(src@, at as int) == block_end(src@, i as int),
            forall|j: int| at <= j < i ==> !closes_comment(src@, j),
        decreases src@.len() - i,
    {
        if src[i] == '*' as u8 && src[i + 1] == '/' as u8 {
            return Some(i + 2);
        }
        i += 1;
    }
    None
}

/// Finds the end of the run of word bytes that starts at `at`.
pub fn find_word_end(src: &[u8], at: usize) -> (r: usize)
    requires
        at <= src@.len(),
    ensures
        r == word_end(src@, at as int),
        at <= r <= src@.len(),
        forall|i: int| at <= i < r ==> is_word_byte(src@[i]),
        r < src@.len() ==> !is_word_byte(src@[r as int]),
{
    let mut i: usize = at;
    while i < src.len() && (letter(src[i]) || digit(src[i]))
        invariant
            at <= i <= src@.len(),
            word_end(src@, at as int) == word_end(src@, i as int),
            forall|j: int| at <= j < i ==> is_word_byte(src@[j]),
        decreases src@.len() - i,
    {
        i += 1;
    }
    i
}

/// Skips blanks, line breaks and comments from `at` on.
pub fn skip(src: &[u8], at: usize) -> (r: Result<usize, AssemblerError>)
    requires
        at <= src@.len(),
    ensures
        agrees_at(r, skip_trivia(src@, at as int)),
        r matches Ok(next) ==> at <= next <= src@.len(),
        r matches Ok(next) ==> (settled(src@, at as int) ==> settled(src@, next as int)),
        r matches Err(e) ==> e.settled(src@),
{
    let mut i: usize = at;
    loop
        invariant
            at <= i <= src@.len(),
            skip_trivia(src@, at as int) == skip_trivia(src@, i as int),
            settled(src@, at as int) ==> settled(src@, i as int),
        decreases src@.len() - i,
    {
        if i >= src.len() {
            return Ok(i);
        }
        let b = src[i];
        if space(b) {
            i += 1;
        } else if b == ';' as u8 {
            i = find_line_end(src, i + 1);
        } else if b == '/' as u8 && i + 1 < src.len() && src[i + 1] == '*' as u8 {
            match find_block_end(src, i + 2) {
                Some(end) => {
                    i = end;
                },
                None => {
                    return Err(AssemblerError::Syntax { expected: Expected::CommentEnd, at: i });
                },
            }
        } else {
            return Ok(i);
        }
    }
}

/// Reads one byte of punctuation.
pub fn read_symbol(src: &[u8], at: usize, byte: u8) -> (r: Result<usize, AssemblerError>)
    requires
        at <= src@.len(),
    ensures
        agrees_at(r, symbol(src@, at as int, byte)),
        r matches Ok(next) ==> at < next <= src@.len(),
        settled(src@, at as int) && byte < 0x80 ==> match r {
            Ok(next) => settled(src@, next as int),
            Err(e) => e.settled(src@),
        },
{
    let p = skip(src, at)?;
    if p < src.len() && src[p] == byte {
        Ok(p + 1)
    } else {
        Err(AssemblerError::Syntax { expected: Expected::Symbol(byte), at: p })
    }
}

/// Reads one word.
pub fn read_word(src: &[u8], at: usize, expected: Expected) -> (r: Result<
    (Span, usize),
    AssemblerError,
>)
    requires
        at <= src@.len(),
    ensures
        agrees(r, word(src@, at as int, expected)),
        r matches Ok((name, next)) ==> at < next <= src@.len() && name.fits(src@.len())
            && name.end == next,
        r matches Ok((name, next)) ==> name.settled(src@) && settled(src@, next as int),
        r matches Err(e) ==> (settled(src@, at as int) ==> e.settled(src@)),
{
    let p = skip(src, at)?;
    if p < src.len() && letter(src[p]) {
        proof {
            lemma_word_end_bounds(src@, p as int);
        }
        let end = find_word_end(src, p);
        Ok((Span { start: p, end }, end))
    } else {
        Err(AssemblerError::Syntax { expected, at: p })
    }
}

/// Reads one integer.
pub fn read_integer(src: &[u8], at: usize) -> (r: Result<(Span, usize), AssemblerError>)
    requires
        at <= src@.len(),
    ensures
        agrees(r, integer(src@, at as int)),
        r matches Ok((literal, next)) ==> at < next <= src@.len() && literal.fits(src@.len())
            && literal.end == next,
        r matches Ok((literal, next)) ==> literal.settled(src@) && settled(src@, next as int),
        r matches Err(e) ==> (settled(src@, at as int) ==> e.settled(src@)),
{
    let p = skip(src, at)?;
    if p < src.len() && (digit(src[p]) || (src[p] == '-' as u8 && p + 1 < src.len() && digit(
        src[p + 1],
    ))) {
        let end = find_word_end(src, p + 1);
        Ok((Span { start: p, end }, end))
    } else {
        Err(AssemblerError::Syntax { expected: Expected::Integer, at: p })
    }
}

} // verus!
