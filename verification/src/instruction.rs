//! The fixed-width instruction record, and its two plain notations: four
//! decimal numbers separated by blanks, and one packed 64-bit number.

use vstd::prelude::*;
use vstd::string::StringSliceAdditionalSpecFns;
use vstd::utf8::is_ascii_chars_encode_utf8;
use crate::integer::{digit_value, digits_valid, digits_value, magnitude, read_digits};

verus! {

/// One classic BPF instruction, laid out as the kernel's socket-filter
/// record: the operation, the two branch displacements of a conditional
/// jump, and the operand.
#[derive(Debug, Clone, Copy, PartialEq, Eq, Structural)]
pub struct Instruction {
    pub code: u16,
    pub jt: u8,
    pub jf: u8,
    pub k: u32,
}

impl Default for Instruction {
    fn default() -> (r: Instruction)
        ensures
            r == (Instruction { code: 0, jt: 0, jf: 0, k: 0 }),
    {
        Instruction { code: 0, jt: 0, jf: 0, k: 0 }
    }
}

/// The field of an instruction text that does not hold a number of its
/// width.
#[derive(Debug, Clone, Copy, PartialEq, Eq, Structural)]
pub enum ParseInstructionError {
    Code,
    Jt,
    Jf,
    K,
}

/// The character that writes a digit below ten.
pub open spec fn digit_char(d: int) -> char {
    if d == 0 {
        '0'
    } else if d == 1 {
        '1'
    } else if d == 2 {
        '2'
    } else if d == 3 {
        '3'
    } else if d == 4 {
        '4'
    } else if d == 5 {
        '5'
    } else if d == 6 {
        '6'
    } else if d == 7 {
        '7'
    } else if d == 8 {
        '8'
    } else {
        '9'
    }
}

/// A number in decimal, without leading zeros.
pub open spec fn decimal(n: nat) -> Seq<char>
    decreases n,
{
    if n < 10 {
        seq![digit_char(n as int)]
    } else {
        decimal(n / 10).push(digit_char((n % 10) as int))
    }
}

/// The offset of the first blank at or after `at`, or the end of the text.
pub open spec fn field_end(text: Seq<u8>, at: int) -> int
    decreases text.len() - at,
{
    if 0 <= at < text.len() && text[at] != ' ' as u8 {
        field_end(text, at + 1)
    } else {
        at
    }
}

/// Where the field behind the one that ends at `end` starts: behind the
/// blank, or at the end of the text where no blank is left.
pub open spec fn field_start(text: Seq<u8>, end: int) -> int {
    if end < text.len() {
        end + 1
    } else {
        end
    }
}

/// The number that a field writes in decimal, with or without a `+` before
/// it, if it is one and does not exceed `max`.
pub open spec fn field_value(field: Seq<u8>, max: int) -> Option<int> {
    if field.len() > 0 && field[0] == '+' as u8 {
        magnitude(field.skip(1), 10, max)
    } else {
        magnitude(field, 10, max)
    }
}

/// The instruction that a text of four fields stands for. The text is cut at
/// its first three blanks, and what follows the third is the last field.
pub open spec fn parse_spec(text: Seq<u8>) -> Result<Instruction, ParseInstructionError> {
    let code_end = field_end(text, 0);
    let jt_start = field_start(text, code_end);
    let jt_end = field_end(text, jt_start);
    let jf_start = field_start(text, jt_end);
    let jf_end = field_end(text, jf_start);
    let k_start = field_start(text, jf_end);
    match field_value(text.subrange(0, code_end), 0xffff) {
        None => Err(ParseInstructionError::Code),
        Some(code) => match field_value(text.subrange(jt_start, jt_end), 0xff) {
            None => Err(ParseInstructionError::Jt),
            Some(jt) => match field_value(text.subrange(jf_start, jf_end), 0xff) {
                None => Err(ParseInstructionError::Jf),
                Some(jf) => match field_value(text.subrange(k_start, text.len() as int), 0xffff_ffff) {
                    None => Err(ParseInstructionError::K),
                    Some(k) => Ok(
                        Instruction { code: code as u16, jt: jt as u8, jf: jf as u8, k: k as u32 },
                    ),
                },
            },
        },
    }
}

impl Instruction {
    /// The four fields in decimal, separated by single blanks.
    pub open spec fn text(&self) -> Seq<char> {
        decimal(self.code as nat) + seq![' '] + decimal(self.jt as nat) + seq![' '] + decimal(
            self.jf as nat,
        ) + seq![' '] + decimal(self.k as nat)
    }

    /// The instruction packed into 64 bits, `code` uppermost and `k` lowest.
    pub open spec fn unpack(packed: u64) -> Instruction {
        Instruction {
            code: (packed / 0x1_0000_0000_0000) as u16,
            jt: (packed / 0x100_0000_0000 % 0x100) as u8,
            jf: (packed / 0x1_0000_0000 % 0x100) as u8,
            k: (packed % 0x1_0000_0000) as u32,
        }
    }

    /// Writes the instruction as `code jt jf k`, in decimal.
    pub fn to_string(&self) -> (r: String)
        ensures
            r@ == self.text(),
    {
        let mut out = String::new();
        proof {
            reveal_strlit(" ");
        }
        push_decimal(&mut out, self.code as u32);
        out.append(" ");
        push_decimal(&mut out, self.jt as u32);
        out.append(" ");
        push_decimal(&mut out, self.jf as u32);
        out.append(" ");
        push_decimal(&mut out, self.k);
        assert(out@ =~= self.text());
        out
    }

    /// Reads an instruction written as `code jt jf k`, in decimal.
    ///
    /// Fails with the first field that is missing, is no number, or exceeds
    /// its width.
    pub fn parse(text: &str) -> (r: Result<Instruction, ParseInstructionError>)
        ensures
            r == parse_spec(text.spec_bytes()),
    {
        let bytes = text.as_bytes();
        let code_end = find_field_end(bytes, 0);
        let jt_start = if code_end < bytes.len() { code_end + 1 } else { code_end };
        let jt_end = find_field_end(bytes, jt_start);
        let jf_start = if jt_end < bytes.len() { jt_end + 1 } else { jt_end };
        let jf_end = find_field_end(bytes, jf_start);
        let k_start = if jf_end < bytes.len() { jf_end + 1 } else { jf_end };
        let code = match read_field(bytes, 0, code_end, 0xffff) {
            Some(v) => v as u16,
            None => { return Err(ParseInstructionError::Code); },
        };
        let jt = match read_field(bytes, jt_start, jt_end, 0xff) {
            Some(v) => v as u8,
            None => { return Err(ParseInstructionError::Jt); },
        };
        let jf = match read_field(bytes, jf_start, jf_end, 0xff) {
            Some(v) => v as u8,
            None => { return Err(ParseInstructionError::Jf); },
        };
        let k = match read_field(bytes, k_start, bytes.len(), 0xffff_ffff) {
            Some(v) => v as u32,
            None => { return Err(ParseInstructionError::K); },
        };
        Ok(Instruction { code, jt, jf, k })
    }
}

/// The string that writes one digit.
fn digit_str(d: u32) -> (r: &'static str)
    requires
        d < 10,
    ensures
        r@ == seq![digit_char(d as int)],
{
    proof {
        reveal_strlit("0");
        reveal_strlit("1");
        reveal_strlit("2");
        reveal_strlit("3");
        reveal_strlit("4");
        reveal_strlit("5");
        reveal_strlit("6");
        reveal_strlit("7");
        reveal_strlit("8");
        reveal_strlit("9");
    }
    let r = if d == 0 {
        "0"
    } else if d == 1 {
        "1"
    } else if d == 2 {
        "2"
    } else if d == 3 {
        "3"
    } else if d == 4 {
        "4"
    } else if d == 5 {
        "5"
    } else if d == 6 {
        "6"
    } else if d == 7 {
        "7"
    } else if d == 8 {
        "8"
    } else {
        "9"
    };
    assert(r@ =~= seq![digit_char(d as int)]);
    r
}

/// Appends `n` in decimal to `out`.
fn push_decimal(out: &mut String, n: u32)
    ensures
        final(out)@ == old(out)@ + decimal(n as nat),
    decreases n,
{
    if n >= 10 {
        push_decimal(out, n / 10);
    }
    out.append(digit_str(n % 10));
    assert(out@ =~= old(out)@ + decimal(n as nat));
}

/// Finds the first blank at or after `at`.
fn find_field_end(text: &[u8], at: usize) -> (r: usize)
    requires
        at <= text@.len(),
    ensures
        r == field_end(text@, at as int),
        at <= r <= text@.len(),
{
    let mut i: usize = at;
    while i < text.len() && text[i] != ' ' as u8
        invariant
            at <= i <= text@.len(),
            field_end(text@, at as int) == field_end(text@, i as int),
        decreases text@.len() - i,
    {
        i += 1;
    }
    i
}

/// Reads the number that the field from `start` up to `end` writes.
fn read_field(text: &[u8], start: usize, end: usize, max: u64) -> (r: Option<u64>)
    requires
        start <= end <= text@.len(),
        max <= 0xffff_ffff,
    ensures
        match r {
            Some(v) => field_value(text@.subrange(start as int, end as int), max as int) == Some(
                v as int,
            ) && v <= max,
            None => field_value(text@.subrange(start as int, end as int), max as int) is None,
        },
{
    let ghost field = text@.subrange(start as int, end as int);
    if start < end && text[start] == '+' as u8 {
        assert(field[0] == text@[start as int]);
        assert(field.skip(1) =~= text@.subrange(start + 1, end as int));
        read_digits(text, start + 1, end, 10, max)
    } else {
        assert(start < end ==> field[0] == text@[start as int]);
        read_digits(text, start, end, 10, max)
    }
}

/// The bytes `bytes` are the characters `chars`, one byte each.
pub open spec fn spells(bytes: Seq<u8>, chars: Seq<char>) -> bool {
    bytes.len() == chars.len() && forall|i: int|
        0 <= i < chars.len() ==> bytes[i] == #[trigger] chars[i] as u8
}

/// A number in decimal is written in digits, and at least one.
proof fn lemma_decimal_digits(n: nat)
    ensures
        decimal(n).len() >= 1,
        forall|i: int|
            0 <= i < decimal(n).len() ==> '0' <= #[trigger] decimal(n)[i] <= '9',
    decreases n,
{
    if n >= 10 {
        lemma_decimal_digits(n / 10);
    }
}

/// The digits that write a number in decimal are read as that number.
proof fn lemma_decimal_value(n: nat, bytes: Seq<u8>)
    requires
        spells(bytes, decimal(n)),
    ensures
        digits_valid(bytes, 10),
        digits_value(bytes, 10) == n,
    decreases n,
{
    lemma_decimal_digits(n);
    if n >= 10 {
        let front = bytes.drop_last();
        assert(decimal(n).drop_last() =~= decimal(n / 10));
        assert(spells(front, decimal(n / 10))) by {
            assert forall|i: int| 0 <= i < decimal(n / 10).len() implies front[i]
                == #[trigger] decimal(n / 10)[i] as u8 by {
                assert(decimal(n)[i] == decimal(n / 10)[i]);
            }
        }
        lemma_decimal_value(n / 10, front);
        assert(bytes.last() == decimal(n).last() as u8);
        assert(digit_value(bytes.last()) == n % 10);
        assert forall|i: int| 0 <= i < bytes.len() implies digit_value(#[trigger] bytes[i])
            < 10 by {
            if i < front.len() {
                assert(bytes[i] == front[i]);
            }
        }
    } else {
        assert(bytes[0] == decimal(n)[0] as u8);
        assert(bytes.drop_last() =~= Seq::<u8>::empty());
        assert(digits_value(bytes.drop_last(), 10) == 0);
    }
}

/// A field ends at the first blank behind its start.
proof fn lemma_field_end(text: Seq<u8>, from: int, end: int)
    requires
        0 <= from <= end <= text.len(),
        forall|i: int| from <= i < end ==> text[i] != ' ' as u8,
        end < text.len() ==> text[end] == ' ' as u8,
    ensures
        field_end(text, from) == end,
    decreases end - from,
{
    if from < end {
        lemma_field_end(text, from + 1, end);
    }
}

/// The field of `text` from `start` up to `end`, which writes `n` in
/// decimal, is read as `n`.
proof fn lemma_field_value(text: Seq<u8>, chars: Seq<char>, start: int, end: int, n: nat, max: int)
    requires
        spells(text, chars),
        0 <= start <= end <= chars.len(),
        chars.subrange(start, end) == decimal(n),
        n <= max,
    ensures
        field_value(text.subrange(start, end), max) == Some(n as int),
        forall|i: int| start <= i < end ==> text[i] != ' ' as u8,
{
    lemma_decimal_digits(n);
    let field = text.subrange(start, end);
    assert(spells(field, decimal(n))) by {
        assert forall|i: int| 0 <= i < decimal(n).len() implies field[i] == #[trigger] decimal(
            n,
        )[i] as u8 by {
            assert(chars.subrange(start, end)[i] == chars[start + i]);
        }
    }
    lemma_decimal_value(n, field);
    assert(field[0] == decimal(n)[0] as u8);
    assert forall|i: int| start <= i < end implies text[i] != ' ' as u8 by {
        assert(chars.subrange(start, end)[i - start] == chars[i]);
        assert('0' <= decimal(n)[i - start] <= '9');
    }
}

/// Reading undoes writing: the text that `to_string` gives for an
/// instruction is read by `parse` as that instruction.
pub proof fn reading_undoes_writing(instruction: Instruction, written: &str)
    requires
        written@ == instruction.text(),
    ensures
        parse_spec(written.spec_bytes()) == Ok::<Instruction, ParseInstructionError>(instruction),
{
    let chars = written@;
    let text = written.spec_bytes();
    let code = decimal(instruction.code as nat);
    let jt = decimal(instruction.jt as nat);
    let jf = decimal(instruction.jf as nat);
    let k = decimal(instruction.k as nat);
    lemma_decimal_digits(instruction.code as nat);
    lemma_decimal_digits(instruction.jt as nat);
    lemma_decimal_digits(instruction.jf as nat);
    lemma_decimal_digits(instruction.k as nat);
    let a = code.len() as int;
    let b = a + 1 + jt.len();
    let c = b + 1 + jf.len();
    let d = c + 1 + k.len();
    assert(chars.len() == d);
    assert(chars.subrange(0, a) =~= code);
    assert(chars.subrange(a + 1, b) =~= jt);
    assert(chars.subrange(b + 1, c) =~= jf);
    assert(chars.subrange(c + 1, d) =~= k);
    assert(chars[a] == ' ' && chars[b] == ' ' && chars[c] == ' ');
    assert forall|i: int| 0 <= i < chars.len() implies '\0' <= #[trigger] chars[i]
        <= '\u{7f}' by {
        if i < a {
            assert(chars.subrange(0, a)[i] == chars[i]);
        } else if a < i < b {
            assert(chars.subrange(a + 1, b)[i - a - 1] == chars[i]);
        } else if b < i < c {
            assert(chars.subrange(b + 1, c)[i - b - 1] == chars[i]);
        } else if c < i {
            assert(chars.subrange(c + 1, d)[i - c - 1] == chars[i]);
        }
    }
    is_ascii_chars_encode_utf8(chars);
    assert(spells(text, chars));
    lemma_field_value(text, chars, 0, a, instruction.code as nat, 0xffff);
    lemma_field_value(text, chars, a + 1, b, instruction.jt as nat, 0xff);
    lemma_field_value(text, chars, b + 1, c, instruction.jf as nat, 0xff);
    lemma_field_value(text, chars, c + 1, d, instruction.k as nat, 0xffff_ffff);
    assert(text[a] == ' ' as u8 && text[b] == ' ' as u8 && text[c] == ' ' as u8);
    lemma_field_end(text, 0, a);
    lemma_field_end(text, a + 1, b);
    lemma_field_end(text, b + 1, c);
}

impl From<u64> for Instruction {
    /// Unpacks an instruction from 64 bits: `code` from the upper 16, then
    /// `jt` and `jf` from 8 each, and `k` from the lower 32.
    fn from(insn: u64) -> (r: Instruction)
        ensures
            r == Instruction::unpack(insn),
    {
        assert(insn >> 48 & 0xFFFF == insn / 0x1_0000_0000_0000) by (bit_vector);
        assert(insn >> 40 & 0xFF == insn / 0x100_0000_0000 % 0x100) by (bit_vector);
        assert(insn >> 32 & 0xFF == insn / 0x1_0000_0000 % 0x100) by (bit_vector);
        assert(insn & 0xFFFFFFFF == insn % 0x1_0000_0000) by (bit_vector);
        Instruction {
            code: (insn >> 48 & 0xFFFF) as u16,
            jt: (insn >> 40 & 0xFF) as u8,
            jf: (insn >> 32 & 0xFF) as u8,
            k: (insn & 0xFFFFFFFF) as u32,
        }
    }
}

impl vstd::std_specs::convert::FromSpecImpl<u64> for Instruction {
    open spec fn obeys_from_spec() -> bool {
        true
    }

    open spec fn from_spec(insn: u64) -> Instruction {
        Instruction::unpack(insn)
    }
}

impl core::str::FromStr for Instruction {
    type Err = ParseInstructionError;

    /// Reads an instruction written as `code jt jf k`, in decimal, as
    /// `Instruction::parse` does.
    fn from_str(insn: &str) -> (r: Result<Instruction, ParseInstructionError>)
        ensures
            r == parse_spec(insn.spec_bytes()),
    {
        Instruction::parse(insn)
    }
}

} // verus!
