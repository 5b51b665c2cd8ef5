//! Byte ranges of the source text.

use vstd::prelude::*;
use vstd::utf8::{
    is_char_boundary, is_char_boundary_iff_not_is_continuation_byte,
    is_char_boundary_start_end_of_seq, valid_utf8, valid_utf8_split,
};

verus! {

/// The offset `at` of `src` is one of its ends, or has a 7-bit byte at it or
/// right before it. No character of a text in UTF-8 goes across such an
/// offset.
pub open spec fn settled(src: Seq<u8>, at: int) -> bool {
    0 <= at <= src.len() && (at == 0 || at == src.len() || src[at] < 0x80 || src[at - 1] < 0x80)
}

/// A settled offset of a text in UTF-8 lies between two of its characters.
pub proof fn lemma_settled_is_boundary(src: Seq<u8>, at: int)
    requires
        valid_utf8(src),
        settled(src, at),
    ensures
        is_char_boundary(src, at),
{
    if at == 0 || at == src.len() {
        is_char_boundary_start_end_of_seq(src);
    } else if src[at] < 0x80 {
        is_char_boundary_iff_not_is_continuation_byte(src, at);
    } else {
        is_char_boundary_iff_not_is_continuation_byte(src, at - 1);
        valid_utf8_split(src, at - 1);
        let rest = src.subrange(at - 1, src.len() as int);
        assert(rest[0] == src[at - 1]);
        lemma_second_byte(rest);
        assert(rest[1] == src[at]);
        is_char_boundary_iff_not_is_continuation_byte(rest, 1);
        is_char_boundary_iff_not_is_continuation_byte(src, at);
    }
}

/// In a text in UTF-8 that starts with a 7-bit byte, a character starts at
/// the second byte.
proof fn lemma_second_byte(src: Seq<u8>)
    requires
        valid_utf8(src),
        src.len() >= 2,
        src[0] < 0x80,
    ensures
        is_char_boundary(src, 1),
{
    reveal_with_fuel(is_char_boundary, 2);
    reveal_with_fuel(valid_utf8, 2);
}

/// A half-open range of byte offsets into the source text.
#[derive(Debug, Clone, Copy, PartialEq, Eq, Structural)]
pub struct Span {
    pub start: usize,
    pub end: usize,
}

impl Span {
    /// The range lies inside a text of `len` bytes.
    pub open spec fn fits(self, len: nat) -> bool {
        self.start <= self.end <= len
    }

    /// The range starts and ends at settled offsets of `src`.
    pub open spec fn settled(self, src: Seq<u8>) -> bool {
        self.start <= self.end && settled(src, self.start as int) && settled(src, self.end as int)
    }

    /// The bytes of `src` that the range covers.
    pub open spec fn text(self, src: Seq<u8>) -> Seq<u8> {
        src.subrange(self.start as int, self.end as int)
    }

    /// The range from `start` up to `end`, for offsets that fit `usize`.
    pub open spec fn between(start: int, end: int) -> Span {
        Span { start: start as usize, end: end as usize }
    }

    pub fn new(start: usize, end: usize) -> (r: Span)
        ensures
            r == (Span { start, end }),
            r == Span::between(start as int, end as int),
    {
        Span { start, end }
    }

    /// The number of bytes covered.
    pub fn len(&self) -> (r: usize)
        requires
            self.start <= self.end,
        ensures
            r == self.end - self.start,
    {
        self.end - self.start
    }
}

/// Whether two ranges of `src` hold the same bytes.
pub fn same_text(src: &[u8], a: Span, b: Span) -> (r: bool)
    requires
        a.fits(src@.len()),
        b.fits(src@.len()),
    ensures
        r == (a.text(src@) == b.text(src@)),
{
    if a.end - a.start != b.end - b.start {
        assert(a.text(src@).len() != b.text(src@).len());
        return false;
    }
    let n: usize = a.end - a.start;
    let mut i: usize = 0;
    while i < n
        invariant
            a.fits(src@.len()),
            b.fits(src@.len()),
            n == a.end - a.start,
            n == b.end - b.start,
            i <= n,
            forall|j: int| 0 <= j < i ==> a.text(src@)[j] == b.text(src@)[j],
        decreases n - i,
    {
        if src[a.start + i] != src[b.start + i] {
            assert(a.text(src@)[i as int] != b.text(src@)[i as int]);
            return false;
        }
        i += 1;
    }
    assert(a.text(src@) =~= b.text(src@));
    true
}

/// Whether a range of `src` holds exactly the bytes of `word`.
pub fn text_is(src: &[u8], a: Span, word: &[u8]) -> (r: bool)
    requires
        a.fits(src@.len()),
    ensures
        r == (a.text(src@) == word@),
{
    if a.end - a.start != word.len() {
        assert(a.text(src@).len() != word@.len());
        return false;
    }
    let n: usize = word.len();
    let mut i: usize = 0;
    while i < n
        invariant
            a.fits(src@.len()),
            n == a.end - a.start,
            n == word@.len(),
            i <= n,
            forall|j: int| 0 <= j < i ==> a.text(src@)[j] == word@[j],
        decreases n - i,
    {
        if src[a.start + i] != word[i] {
            assert(a.text(src@)[i as int] != word@[i as int]);
            return false;
        }
        i += 1;
    }
    assert(a.text(src@) =~= word@);
    true
}

} // verus!
