//! The grammar of the assembly language.
//!
//! A program is a sequence of statements. A statement is a label
//! declaration, `name:`, or a mnemonic followed by the operand shapes it
//! accepts:
//!
//! | operand | written |
//! |---|---|
//! | immediate | `#k` |
//! | packet offset | `[k]` |
//! | indirect packet offset | `[x + k]` |
//! | scratch memory slot | `M[k]` |
//! | header length at a packet offset | `4*([k]&0xf)` |
//! | registers | `x`, `a` |
//! | packet length | `len` or `#len` |
//! | extension | `name` or `#name` |
//! | jump targets | `label` or `label, label` |
//!
//! Statements need no line of their own. The parser reads the text once,
//! left to right, and stops at the first place that fits no rule.

use vstd::prelude::*;
use crate::error::{AssemblerError, Expected};
use crate::lexer::{
    agrees, digit, find_word_end, integer, is_letter, lemma_skip_trivia_bounds, lemma_word_end_bounds,
    letter, read_integer, read_symbol, read_word, skip, skip_trivia, starts_integer, symbol, word,
    word_end,
};
use crate::span::{settled, Span};
use crate::statement::{
    all_fit, all_settled, AluOp, Condition, CopOperand, IndexOperand, Inverse, LoadOperand, Operation,
    PacketOperand, ReturnOperand, Source, Statement,
};

verus! {

/// The words that start an operation.
#[derive(Debug, Clone, Copy, PartialEq, Eq, Structural)]
pub enum Mnemonic {
    Ld,
    Ldi,
    Ldh,
    Ldb,
    Ldx,
    Ldxi,
    Ldxb,
    St,
    Stx,
    Jmp,
    Jump(Condition),
    JumpUnless(Inverse),
    Alu(AluOp),
    Neg,
    Tax,
    Txa,
    Cop,
    Copx,
    Ret,
}

/// The bytes of a word of one character; so the next three, for longer
/// words.
pub open spec fn word1(a: char) -> Seq<u8> {
    seq![a as u8]
}

pub open spec fn word2(a: char, b: char) -> Seq<u8> {
    seq![a as u8, b as u8]
}

pub open spec fn word3(a: char, b: char, c: char) -> Seq<u8> {
    seq![a as u8, b as u8, c as u8]
}

pub open spec fn word4(a: char, b: char, c: char, d: char) -> Seq<u8> {
    seq![a as u8, b as u8, c as u8, d as u8]
}

/// The mnemonic that a word spells, if any. Mnemonics are written in lower
/// case.
pub open spec fn mnemonic(text: Seq<u8>) -> Option<Mnemonic> {
    if text == word2('l', 'd') {
        Some(Mnemonic::Ld)
    } else if text == word3('l', 'd', 'i') {
        Some(Mnemonic::Ldi)
    } else if text == word3('l', 'd', 'h') {
        Some(Mnemonic::Ldh)
    } else if text == word3('l', 'd', 'b') {
        Some(Mnemonic::Ldb)
    } else if text == word3('l', 'd', 'x') {
        Some(Mnemonic::Ldx)
    } else if text == word4('l', 'd', 'x', 'i') {
        Some(Mnemonic::Ldxi)
    } else if text == word4('l', 'd', 'x', 'b') {
        Some(Mnemonic::Ldxb)
    } else if text == word2('s', 't') {
        Some(Mnemonic::St)
    } else if text == word3('s', 't', 'x') {
        Some(Mnemonic::Stx)
    } else if text == word3('j', 'm', 'p') || text == word2('j', 'a') {
        Some(Mnemonic::Jmp)
    } else if text == word3('j', 'e', 'q') {
        Some(Mnemonic::Jump(Condition::Equal))
    } else if text == word4('j', 'n', 'e', 'q') || text == word3('j', 'n', 'e') {
        Some(Mnemonic::JumpUnless(Inverse::NotEqual))
    } else if text == word3('j', 'l', 't') {
        Some(Mnemonic::JumpUnless(Inverse::Less))
    } else if text == word3('j', 'l', 'e') {
        Some(Mnemonic::JumpUnless(Inverse::LessOrEqual))
    } else if text == word3('j', 'g', 't') {
        Some(Mnemonic::Jump(Condition::Greater))
    } else if text == word3('j', 'g', 'e') {
        Some(Mnemonic::Jump(Condition::GreaterOrEqual))
    } else if text == word4('j', 's', 'e', 't') {
        Some(Mnemonic::Jump(Condition::AnyBit))
    } else if text == word3('a', 'd', 'd') {
        Some(Mnemonic::Alu(AluOp::Add))
    } else if text == word3('s', 'u', 'b') {
        Some(Mnemonic::Alu(AluOp::Sub))
    } else if text == word3('m', 'u', 'l') {
        Some(Mnemonic::Alu(AluOp::Mul))
    } else if text == word3('d', 'i', 'v') {
        Some(Mnemonic::Alu(AluOp::Div))
    } else if text == word3('m', 'o', 'd') {
        Some(Mnemonic::Alu(AluOp::Mod))
    } else if text == word3('n', 'e', 'g') {
        Some(Mnemonic::Neg)
    } else if text == word3('a', 'n', 'd') {
        Some(Mnemonic::Alu(AluOp::And))
    } else if text == word2('o', 'r') {
        Some(Mnemonic::Alu(AluOp::Or))
    } else if text == word3('x', 'o', 'r') {
        Some(Mnemonic::Alu(AluOp::Xor))
    } else if text == word3('l', 's', 'h') {
        Some(Mnemonic::Alu(AluOp::Lsh))
    } else if text == word3('r', 's', 'h') {
        Some(Mnemonic::Alu(AluOp::Rsh))
    } else if text == word3('t', 'a', 'x') {
        Some(Mnemonic::Tax)
    } else if text == word3('t', 'x', 'a') {
        Some(Mnemonic::Txa)
    } else if text == word3('c', 'o', 'p') {
        Some(Mnemonic::Cop)
    } else if text == word4('c', 'o', 'p', 'x') {
        Some(Mnemonic::Copx)
    } else if text == word3('r', 'e', 't') {
        Some(Mnemonic::Ret)
    } else {
        None
    }
}

/// The word that starts at `at` is the one letter `name`.
pub open spec fn is_register(src: Seq<u8>, at: int, name: char) -> bool {
    0 <= at < src.len() && src[at] == name as u8 && word_end(src, at) == at + 1
}

/// `#k`
pub open spec fn immediate(src: Seq<u8>, at: int) -> Result<(Span, int), AssemblerError> {
    match symbol(src, at, '#' as u8) {
        Err(e) => Err(e),
        Ok(p) => integer(src, p),
    }
}

/// `[k]`
pub open spec fn slot(src: Seq<u8>, at: int) -> Result<(Span, int), AssemblerError> {
    match symbol(src, at, '[' as u8) {
        Err(e) => Err(e),
        Ok(p) => match integer(src, p) {
            Err(e) => Err(e),
            Ok((k, q)) => match symbol(src, q, ']' as u8) {
                Err(e) => Err(e),
                Ok(r) => Ok((k, r)),
            },
        },
    }
}

/// `M[k]`
pub open spec fn memory(src: Seq<u8>, at: int) -> Result<(Span, int), AssemblerError> {
    match word(src, at, Expected::Operand) {
        Err(e) => Err(e),
        Ok((name, p)) => if name.text(src) == word1('M') {
            slot(src, p)
        } else {
            Err(AssemblerError::Syntax { expected: Expected::Operand, at: name.start })
        },
    }
}

/// `[k]` or `[x + k]`
pub open spec fn bracketed(src: Seq<u8>, at: int) -> Result<(PacketOperand, int), AssemblerError> {
    match symbol(src, at, '[' as u8) {
        Err(e) => Err(e),
        Ok(p) => match skip_trivia(src, p) {
            Err(e) => Err(e),
            Ok(q) => if is_register(src, q, 'x') {
                match symbol(src, q + 1, '+' as u8) {
                    Err(e) => Err(e),
                    Ok(r) => match integer(src, r) {
                        Err(e) => Err(e),
                        Ok((k, s)) => match symbol(src, s, ']' as u8) {
                            Err(e) => Err(e),
                            Ok(t) => Ok((PacketOperand::IndirectPacketOffset(k), t)),
                        },
                    },
                }
            } else {
                match integer(src, q) {
                    Err(e) => Err(e),
                    Ok((k, s)) => match symbol(src, s, ']' as u8) {
                        Err(e) => Err(e),
                        Ok(t) => Ok((PacketOperand::PacketOffset(k), t)),
                    },
                }
            },
        },
    }
}

/// `4*([k]&0xf)`; the mask may be written `0xF` too.
pub open spec fn header_length(src: Seq<u8>, at: int) -> Result<(Span, int), AssemblerError> {
    match integer(src, at) {
        Err(e) => Err(e),
        Ok((four, p)) => if four.text(src) != word1('4') {
            Err(AssemblerError::Syntax { expected: Expected::Operand, at: four.start })
        } else {
            match symbol(src, p, '*' as u8) {
                Err(e) => Err(e),
                Ok(q) => match symbol(src, q, '(' as u8) {
                    Err(e) => Err(e),
                    Ok(r) => match slot(src, r) {
                        Err(e) => Err(e),
                        Ok((k, s)) => match symbol(src, s, '&' as u8) {
                            Err(e) => Err(e),
                            Ok(t) => match integer(src, t) {
                                Err(e) => Err(e),
                                Ok((mask, u)) => if mask.text(src) != word3('0', 'x', 'f')
                                    && mask.text(src) != word3('0', 'x', 'F') {
                                    Err(
                                        AssemblerError::Syntax {
                                            expected: Expected::Operand,
                                            at: mask.start,
                                        },
                                    )
                                } else {
                                    match symbol(src, u, ')' as u8) {
                                        Err(e) => Err(e),
                                        Ok(v) => Ok((k, v)),
                                    }
                                },
                            },
                        },
                    },
                },
            }
        },
    }
}

/// The second operand of an arithmetic or a jump operation: `x` or `#k`.
pub open spec fn source(src: Seq<u8>, at: int) -> Result<(Source, int), AssemblerError> {
    match skip_trivia(src, at) {
        Err(e) => Err(e),
        Ok(p) => if is_register(src, p, 'x') {
            Ok((Source::IndexRegister, p + 1))
        } else if p < src.len() && src[p] == '#' as u8 {
            match integer(src, p + 1) {
                Err(e) => Err(e),
                Ok((k, q)) => Ok((Source::Immediate(k), q)),
            }
        } else {
            Err(AssemblerError::Syntax { expected: Expected::Operand, at: p as usize })
        },
    }
}

/// A named extension, with or without `#` before the name.
pub open spec fn extension(src: Seq<u8>, at: int) -> Result<(Span, int), AssemblerError> {
    match skip_trivia(src, at) {
        Err(e) => Err(e),
        Ok(p) => if p < src.len() && src[p] == '#' as u8 {
            word(src, p + 1, Expected::Operand)
        } else {
            word(src, p, Expected::Operand)
        },
    }
}

/// The operand of `ldh` and `ldb`.
pub open spec fn packet_operand(src: Seq<u8>, at: int) -> Result<
    (PacketOperand, int),
    AssemblerError,
> {
    match skip_trivia(src, at) {
        Err(e) => Err(e),
        Ok(p) => if p < src.len() && src[p] == '[' as u8 {
            bracketed(src, p)
        } else {
            match extension(src, p) {
                Err(e) => Err(e),
                Ok((name, q)) => Ok((PacketOperand::Extension(name), q)),
            }
        },
    }
}

/// What a word stands for as the operand of `ld`, once `M` is set apart.
pub open spec fn named_load(src: Seq<u8>, name: Span) -> LoadOperand {
    if name.text(src) == word3('l', 'e', 'n') {
        LoadOperand::Length
    } else {
        LoadOperand::Extension(name)
    }
}

/// The operand of `ld`.
pub open spec fn load_operand(src: Seq<u8>, at: int) -> Result<(LoadOperand, int), AssemblerError> {
    match skip_trivia(src, at) {
        Err(e) => Err(e),
        Ok(p) => if p < src.len() && src[p] == '[' as u8 {
            match bracketed(src, p) {
                Err(e) => Err(e),
                Ok((PacketOperand::PacketOffset(k), q)) => Ok((LoadOperand::PacketOffset(k), q)),
                Ok((PacketOperand::IndirectPacketOffset(k), q)) => Ok(
                    (LoadOperand::IndirectPacketOffset(k), q),
                ),
                Ok((PacketOperand::Extension(name), q)) => Ok((LoadOperand::Extension(name), q)),
            }
        } else if p < src.len() && src[p] == '#' as u8 {
            match skip_trivia(src, p + 1) {
                Err(e) => Err(e),
                Ok(q) => if q < src.len() && is_letter(src[q]) {
                    match word(src, q, Expected::Operand) {
                        Err(e) => Err(e),
                        Ok((name, r)) => Ok((named_load(src, name), r)),
                    }
                } else {
                    match integer(src, q) {
                        Err(e) => Err(e),
                        Ok((k, r)) => Ok((LoadOperand::Immediate(k), r)),
                    }
                },
            }
        } else {
            match word(src, p, Expected::Operand) {
                Err(e) => Err(e),
                Ok((name, q)) => if name.text(src) == word1('M') {
                    match slot(src, q) {
                        Err(e) => Err(e),
                        Ok((k, r)) => Ok((LoadOperand::MemoryAddress(k), r)),
                    }
                } else {
                    Ok((named_load(src, name), q))
                },
            }
        },
    }
}

/// The operand of `ldx`.
pub open spec fn index_operand(src: Seq<u8>, at: int) -> Result<
    (IndexOperand, int),
    AssemblerError,
> {
    match skip_trivia(src, at) {
        Err(e) => Err(e),
        Ok(p) => if p < src.len() && src[p] == '#' as u8 {
            match skip_trivia(src, p + 1) {
                Err(e) => Err(e),
                Ok(q) => if q < src.len() && is_letter(src[q]) {
                    match word(src, q, Expected::Operand) {
                        Err(e) => Err(e),
                        Ok((name, r)) => if name.text(src) == word3('l', 'e', 'n') {
                            Ok((IndexOperand::Length, r))
                        } else {
                            Err(
                                AssemblerError::Syntax {
                                    expected: Expected::Operand,
                                    at: name.start,
                                },
                            )
                        },
                    }
                } else {
                    match integer(src, q) {
                        Err(e) => Err(e),
                        Ok((k, r)) => Ok((IndexOperand::Immediate(k), r)),
                    }
                },
            }
        } else if starts_integer(src, p) {
            match header_length(src, p) {
                Err(e) => Err(e),
                Ok((k, q)) => Ok((IndexOperand::PacketOffsetMsh(k), q)),
            }
        } else {
            match word(src, p, Expected::Operand) {
                Err(e) => Err(e),
                Ok((name, q)) => if name.text(src) == word1('M') {
                    match slot(src, q) {
                        Err(e) => Err(e),
                        Ok((k, r)) => Ok((IndexOperand::MemoryAddress(k), r)),
                    }
                } else if name.text(src) == word3('l', 'e', 'n') {
                    Ok((IndexOperand::Length, q))
                } else {
                    Err(AssemblerError::Syntax { expected: Expected::Operand, at: name.start })
                },
            }
        },
    }
}

/// The operand of `cop`.
pub open spec fn cop_operand(src: Seq<u8>, at: int) -> Result<(CopOperand, int), AssemblerError> {
    match skip_trivia(src, at) {
        Err(e) => Err(e),
        Ok(p) => if p < src.len() && src[p] == '#' as u8 {
            match skip_trivia(src, p + 1) {
                Err(e) => Err(e),
                Ok(q) => if q < src.len() && is_letter(src[q]) {
                    match word(src, q, Expected::Operand) {
                        Err(e) => Err(e),
                        Ok((name, r)) => Ok((CopOperand::Extension(name), r)),
                    }
                } else {
                    match integer(src, q) {
                        Err(e) => Err(e),
                        Ok((k, r)) => Ok((CopOperand::Immediate(k), r)),
                    }
                },
            }
        } else {
            match word(src, p, Expected::Operand) {
                Err(e) => Err(e),
                Ok((name, q)) => Ok((CopOperand::Extension(name), q)),
            }
        },
    }
}

/// The operand of `ret`.
pub open spec fn return_operand(src: Seq<u8>, at: int) -> Result<
    (ReturnOperand, int),
    AssemblerError,
> {
    match skip_trivia(src, at) {
        Err(e) => Err(e),
        Ok(p) => if is_register(src, p, 'x') {
            Ok((ReturnOperand::IndexRegister, p + 1))
        } else if is_register(src, p, 'a') {
            Ok((ReturnOperand::AccumulatorRegister, p + 1))
        } else if p < src.len() && src[p] == '#' as u8 {
            match integer(src, p + 1) {
                Err(e) => Err(e),
                Ok((k, q)) => Ok((ReturnOperand::Immediate(k), q)),
            }
        } else {
            Err(AssemblerError::Syntax { expected: Expected::Operand, at: p as usize })
        },
    }
}

/// The operands of `jeq`, `jgt`, `jge` and `jset`: what to compare with, the
/// target taken when the test holds and, if given, the other one.
pub open spec fn jump_operands(src: Seq<u8>, condition: Condition, at: int) -> Result<
    (Operation, int),
    AssemblerError,
> {
    match source(src, at) {
        Err(e) => Err(e),
        Ok((value, p)) => match symbol(src, p, ',' as u8) {
            Err(e) => Err(e),
            Ok(q) => match word(src, q, Expected::Label) {
                Err(e) => Err(e),
                Ok((on_true, r)) => match skip_trivia(src, r) {
                    Err(e) => Err(e),
                    Ok(s) => if s < src.len() && src[s] == ',' as u8 {
                        match word(src, s + 1, Expected::Label) {
                            Err(e) => Err(e),
                            Ok((on_false, t)) => Ok(
                                (Operation::Jump(condition, value, on_true, on_false), t),
                            ),
                        }
                    } else {
                        Ok((Operation::JumpIf(condition, value, on_true), r))
                    },
                },
            },
        },
    }
}

/// The operands of `jneq`, `jlt` and `jle`: what to compare with, and the
/// one target.
pub open spec fn inverse_operands(src: Seq<u8>, inverse: Inverse, at: int) -> Result<
    (Operation, int),
    AssemblerError,
> {
    match source(src, at) {
        Err(e) => Err(e),
        Ok((value, p)) => match symbol(src, p, ',' as u8) {
            Err(e) => Err(e),
            Ok(q) => match word(src, q, Expected::Label) {
                Err(e) => Err(e),
                Ok((target, r)) => Ok((Operation::JumpUnless(inverse, value, target), r)),
            },
        },
    }
}

/// The operation that `mnemonic` starts, whose operands begin at `at`.
pub open spec fn operation(src: Seq<u8>, mnemonic: Mnemonic, at: int) -> Result<
    (Operation, int),
    AssemblerError,
> {
    match mnemonic {
        Mnemonic::Ld => match load_operand(src, at) {
            Err(e) => Err(e),
            Ok((operand, p)) => Ok((Operation::Ld(operand), p)),
        },
        Mnemonic::Ldi => match immediate(src, at) {
            Err(e) => Err(e),
            Ok((k, p)) => Ok((Operation::Ldi(k), p)),
        },
        Mnemonic::Ldh => match packet_operand(src, at) {
            Err(e) => Err(e),
            Ok((operand, p)) => Ok((Operation::Ldh(operand), p)),
        },
        Mnemonic::Ldb => match packet_operand(src, at) {
            Err(e) => Err(e),
            Ok((operand, p)) => Ok((Operation::Ldb(operand), p)),
        },
        Mnemonic::Ldx => match index_operand(src, at) {
            Err(e) => Err(e),
            Ok((operand, p)) => Ok((Operation::Ldx(operand), p)),
        },
        Mnemonic::Ldxi => match immediate(src, at) {
            Err(e) => Err(e),
            Ok((k, p)) => Ok((Operation::Ldxi(k), p)),
        },
        Mnemonic::Ldxb => match header_length(src, at) {
            Err(e) => Err(e),
            Ok((k, p)) => Ok((Operation::Ldxb(k), p)),
        },
        Mnemonic::St => match memory(src, at) {
            Err(e) => Err(e),
            Ok((k, p)) => Ok((Operation::St(k), p)),
        },
        Mnemonic::Stx => match memory(src, at) {
            Err(e) => Err(e),
            Ok((k, p)) => Ok((Operation::Stx(k), p)),
        },
        Mnemonic::Jmp => match word(src, at, Expected::Label) {
            Err(e) => Err(e),
            Ok((target, p)) => Ok((Operation::Jmp(target), p)),
        },
        Mnemonic::Jump(condition) => jump_operands(src, condition, at),
        Mnemonic::JumpUnless(inverse) => inverse_operands(src, inverse, at),
        Mnemonic::Alu(op) => match source(src, at) {
            Err(e) => Err(e),
            Ok((value, p)) => Ok((Operation::Alu(op, value), p)),
        },
        Mnemonic::Neg => Ok((Operation::Neg, at)),
        Mnemonic::Tax => Ok((Operation::Tax, at)),
        Mnemonic::Txa => Ok((Operation::Txa, at)),
        Mnemonic::Cop => match cop_operand(src, at) {
            Err(e) => Err(e),
            Ok((operand, p)) => Ok((Operation::Cop(operand), p)),
        },
        Mnemonic::Copx => Ok((Operation::Copx, at)),
        Mnemonic::Ret => match return_operand(src, at) {
            Err(e) => Err(e),
            Ok((operand, p)) => Ok((Operation::Ret(operand), p)),
        },
    }
}

/// The statement that starts at `at`, where a token starts, and the offset
/// behind it. A word that a `:` follows declares a label, whatever the word;
/// any other word must be a mnemonic.
pub open spec fn statement(src: Seq<u8>, at: int) -> Result<(Statement, int), AssemblerError> {
    match word(src, at, Expected::Statement) {
        Err(e) => Err(e),
        Ok((first, p)) => match skip_trivia(src, p) {
            Err(e) => Err(e),
            Ok(q) => if q < src.len() && src[q] == ':' as u8 {
                Ok((Statement::Label(first), q + 1))
            } else {
                match mnemonic(first.text(src)) {
                    None => Err(
                        AssemblerError::Syntax { expected: Expected::Statement, at: first.start },
                    ),
                    Some(m) => match operation(src, m, p) {
                        Err(e) => Err(e),
                        Ok((op, r)) => Ok((Statement::Operation(op), r)),
                    },
                }
            },
        },
    }
}

/// The statements of the text from `at` on.
pub open spec fn statements_from(src: Seq<u8>, at: int) -> Result<Seq<Statement>, AssemblerError>
    decreases src.len() - at,
    when 0 <= at <= src.len()
{
    match skip_trivia(src, at) {
        Err(e) => Err(e),
        Ok(p) => if p >= src.len() {
            Ok(Seq::empty())
        } else {
            match statement(src, p) {
                Err(e) => Err(e),
                Ok((first, q)) => {
                    proof {
                        lemma_skip_trivia_bounds(src, at);
                        lemma_statement_advances(src, p);
                    }
                    match statements_from(src, q) {
                        Err(e) => Err(e),
                        Ok(rest) => Ok(seq![first] + rest),
                    }
                },
            }
        },
    }
}

/// The statements of a whole text, or the first place where it does not
/// follow the grammar.
pub open spec fn program(src: Seq<u8>) -> Result<Seq<Statement>, AssemblerError> {
    statements_from(src, 0)
}

/// What the lexical layer says of offsets, for every offset at once.
pub proof fn lemma_lexer_bounds(src: Seq<u8>)
    ensures
        forall|at: int|
            0 <= at <= src.len() ==> (#[trigger] skip_trivia(src, at) matches Ok(next) ==> at
                <= next <= src.len()),
        forall|at: int| 0 <= at <= src.len() ==> at <= #[trigger] word_end(src, at) <= src.len(),
        forall|at: int|
            0 <= at < src.len() && is_letter(src[at]) ==> at < #[trigger] word_end(src, at),
{
    assert forall|at: int| 0 <= at <= src.len() implies (#[trigger] skip_trivia(src, at) matches Ok(
        next,
    ) ==> at <= next <= src.len()) by {
        lemma_skip_trivia_bounds(src, at);
    }
    assert forall|at: int| 0 <= at <= src.len() implies at <= #[trigger] word_end(src, at)
        <= src.len() by {
        lemma_word_end_bounds(src, at);
    }
    assert forall|at: int| 0 <= at < src.len() && is_letter(src[at]) implies at
        < #[trigger] word_end(src, at) by {
        lemma_word_end_bounds(src, at);
    }
}

/// A token takes up at least one byte and ends inside the text.
pub proof fn lemma_token_bounds(src: Seq<u8>)
    ensures
        forall|at: int, byte: u8|
            0 <= at <= src.len() ==> (#[trigger] symbol(src, at, byte) matches Ok(next) ==> at
                < next <= src.len()),
        forall|at: int, expected: Expected|
            0 <= at <= src.len() ==> (#[trigger] word(src, at, expected) matches Ok((_, next))
                ==> at < next <= src.len()),
        forall|at: int|
            0 <= at <= src.len() ==> (#[trigger] integer(src, at) matches Ok((_, next)) ==> at
                < next <= src.len()),
{
    lemma_lexer_bounds(src);
}

/// The operands that are one fixed run of tokens end inside the text.
pub proof fn lemma_simple_operand_bounds(src: Seq<u8>)
    ensures
        forall|at: int|
            0 <= at <= src.len() ==> (#[trigger] immediate(src, at) matches Ok((_, next)) ==> at
                < next <= src.len()),
        forall|at: int|
            0 <= at <= src.len() ==> (#[trigger] slot(src, at) matches Ok((_, next)) ==> at
                < next <= src.len()),
        forall|at: int|
            0 <= at <= src.len() ==> (#[trigger] memory(src, at) matches Ok((_, next)) ==> at
                < next <= src.len()),
        forall|at: int|
            0 <= at <= src.len() ==> (#[trigger] bracketed(src, at) matches Ok((_, next)) ==> at
                < next <= src.len()),
        forall|at: int|
            0 <= at <= src.len() ==> (#[trigger] source(src, at) matches Ok((_, next)) ==> at
                < next <= src.len()),
        forall|at: int|
            0 <= at <= src.len() ==> (#[trigger] extension(src, at) matches Ok((_, next)) ==> at
                < next <= src.len()),
{
    lemma_token_bounds(src);
    lemma_lexer_bounds(src);
}

/// `4*([k]&0xf)` ends inside the text.
pub proof fn lemma_header_length_bounds(src: Seq<u8>)
    ensures
        forall|at: int|
            0 <= at <= src.len() ==> (#[trigger] header_length(src, at) matches Ok((_, next))
                ==> at < next <= src.len()),
{
    lemma_token_bounds(src);
    lemma_simple_operand_bounds(src);
}

/// The operands with several shapes end inside the text.
pub proof fn lemma_operand_bounds(src: Seq<u8>)
    ensures
        forall|at: int|
            0 <= at <= src.len() ==> (#[trigger] packet_operand(src, at) matches Ok((_, next))
                ==> at < next <= src.len()),
        forall|at: int|
            0 <= at <= src.len() ==> (#[trigger] load_operand(src, at) matches Ok((_, next))
                ==> at < next <= src.len()),
        forall|at: int|
            0 <= at <= src.len() ==> (#[trigger] index_operand(src, at) matches Ok((_, next))
                ==> at < next <= src.len()),
        forall|at: int|
            0 <= at <= src.len() ==> (#[trigger] cop_operand(src, at) matches Ok((_, next))
                ==> at < next <= src.len()),
        forall|at: int|
            0 <= at <= src.len() ==> (#[trigger] return_operand(src, at) matches Ok((_, next))
                ==> at < next <= src.len()),
{
    lemma_lexer_bounds(src);
    lemma_token_bounds(src);
    lemma_simple_operand_bounds(src);
    lemma_header_length_bounds(src);
}

/// The operands of the conditional jumps end inside the text.
pub proof fn lemma_jump_bounds(src: Seq<u8>)
    ensures
        forall|at: int, condition: Condition|
            0 <= at <= src.len() ==> (#[trigger] jump_operands(src, condition, at) matches Ok(
                (_, next),
            ) ==> at < next <= src.len()),
        forall|at: int, inverse: Inverse|
            0 <= at <= src.len() ==> (#[trigger] inverse_operands(src, inverse, at) matches Ok(
                (_, next),
            ) ==> at < next <= src.len()),
{
    lemma_lexer_bounds(src);
    lemma_token_bounds(src);
    lemma_simple_operand_bounds(src);
}

/// The operands of an operation end inside the text.
pub proof fn lemma_operation_bounds(src: Seq<u8>, mnemonic: Mnemonic, at: int)
    requires
        0 <= at <= src.len(),
    ensures
        operation(src, mnemonic, at) matches Ok((_, next)) ==> at <= next <= src.len(),
{
    lemma_token_bounds(src);
    lemma_simple_operand_bounds(src);
    lemma_header_length_bounds(src);
    lemma_operand_bounds(src);
    lemma_jump_bounds(src);
}

/// A statement takes up at least one byte and ends inside the text.
pub proof fn lemma_statement_advances(src: Seq<u8>, at: int)
    requires
        0 <= at <= src.len(),
    ensures
        statement(src, at) matches Ok((_, next)) ==> at < next <= src.len(),
{
    lemma_lexer_bounds(src);
    lemma_token_bounds(src);
    match word(src, at, Expected::Statement) {
        Err(e) => {},
        Ok((first, p)) => match skip_trivia(src, p) {
            Err(e) => {},
            Ok(q) => {
                match mnemonic(first.text(src)) {
                    None => {},
                    Some(m) => {
                        lemma_operation_bounds(src, m, p);
                    },
                }
            },
        },
    }
}

/// Whether the text at `w` is the one character `a`.
fn spells1(src: &[u8], w: Span, a: char) -> (r: bool)
    requires
        w.fits(src@.len()),
        (a as u32) < 128,
    ensures
        r == (w.text(src@) == word1(a)),
{
    let r = w.end - w.start == 1 && src[w.start] == a as u8;
    assert(word1(a).len() == 1 && word1(a)[0] == a as u8);
    assert(r == (w.text(src@) =~= word1(a)));
    r
}

/// Whether the text at `w` is the two characters `a`, `b`.
fn spells2(src: &[u8], w: Span, a: char, b: char) -> (r: bool)
    requires
        w.fits(src@.len()),
        (a as u32) < 128,
        (b as u32) < 128,
    ensures
        r == (w.text(src@) == word2(a, b)),
{
    let r = w.end - w.start == 2 && src[w.start] == a as u8 && src[w.start + 1] == b as u8;
    assert(r == (w.text(src@) =~= word2(a, b)));
    r
}

/// Whether the text at `w` is the three characters `a`, `b`, `c`.
fn spells3(src: &[u8], w: Span, a: char, b: char, c: char) -> (r: bool)
    requires
        w.fits(src@.len()),
        (a as u32) < 128,
        (b as u32) < 128,
        (c as u32) < 128,
    ensures
        r == (w.text(src@) == word3(a, b, c)),
{
    let r = w.end - w.start == 3 && src[w.start] == a as u8 && src[w.start + 1] == b as u8
        && src[w.start + 2] == c as u8;
    assert(r == (w.text(src@) =~= word3(a, b, c)));
    r
}

/// Whether the text at `w` is the four characters `a`, `b`, `c`, `d`.
fn spells4(src: &[u8], w: Span, a: char, b: char, c: char, d: char) -> (r: bool)
    requires
        w.fits(src@.len()),
        (a as u32) < 128,
        (b as u32) < 128,
        (c as u32) < 128,
        (d as u32) < 128,
    ensures
        r == (w.text(src@) == word4(a, b, c, d)),
{
    let r = w.end - w.start == 4 && src[w.start] == a as u8 && src[w.start + 1] == b as u8
        && src[w.start + 2] == c as u8 && src[w.start + 3] == d as u8;
    assert(r == (w.text(src@) =~= word4(a, b, c, d)));
    r
}

/// Tells which mnemonic the word at `w` is.
pub fn mnemonic_of(src: &[u8], w: Span) -> (r: Option<Mnemonic>)
    requires
        w.fits(src@.len()),
    ensures
        r == mnemonic(w.text(src@)),
{
    if spells2(src, w, 'l', 'd') {
        Some(Mnemonic::Ld)
    } else if spells3(src, w, 'l', 'd', 'i') {
        Some(Mnemonic::Ldi)
    } else if spells3(src, w, 'l', 'd', 'h') {
        Some(Mnemonic::Ldh)
    } else if spells3(src, w, 'l', 'd', 'b') {
        Some(Mnemonic::Ldb)
    } else if spells3(src, w, 'l', 'd', 'x') {
        Some(Mnemonic::Ldx)
    } else if spells4(src, w, 'l', 'd', 'x', 'i') {
        Some(Mnemonic::Ldxi)
    } else if spells4(src, w, 'l', 'd', 'x', 'b') {
        Some(Mnemonic::Ldxb)
    } else if spells2(src, w, 's', 't') {
        Some(Mnemonic::St)
    } else if spells3(src, w, 's', 't', 'x') {
        Some(Mnemonic::Stx)
    } else if spells3(src, w, 'j', 'm', 'p') || spells2(src, w, 'j', 'a') {
        Some(Mnemonic::Jmp)
    } else if spells3(src, w, 'j', 'e', 'q') {
        Some(Mnemonic::Jump(Condition::Equal))
    } else if spells4(src, w, 'j', 'n', 'e', 'q') || spells3(src, w, 'j', 'n', 'e') {
        Some(Mnemonic::JumpUnless(Inverse::NotEqual))
    } else if spells3(src, w, 'j', 'l', 't') {
        Some(Mnemonic::JumpUnless(Inverse::Less))
    } else if spells3(src, w, 'j', 'l', 'e') {
        Some(Mnemonic::JumpUnless(Inverse::LessOrEqual))
    } else if spells3(src, w, 'j', 'g', 't') {
        Some(Mnemonic::Jump(Condition::Greater))
    } else if spells3(src, w, 'j', 'g', 'e') {
        Some(Mnemonic::Jump(Condition::GreaterOrEqual))
    } else if spells4(src, w, 'j', 's', 'e', 't') {
        Some(Mnemonic::Jump(Condition::AnyBit))
    } else if spells3(src, w, 'a', 'd', 'd') {
        Some(Mnemonic::Alu(AluOp::Add))
    } else if spells3(src, w, 's', 'u', 'b') {
        Some(Mnemonic::Alu(AluOp::Sub))
    } else if spells3(src, w, 'm', 'u', 'l') {
        Some(Mnemonic::Alu(AluOp::Mul))
    } else if spells3(src, w, 'd', 'i', 'v') {
        Some(Mnemonic::Alu(AluOp::Div))
    } else if spells3(src, w, 'm', 'o', 'd') {
        Some(Mnemonic::Alu(AluOp::Mod))
    } else if spells3(src, w, 'n', 'e', 'g') {
        Some(Mnemonic::Neg)
    } else if spells3(src, w, 'a', 'n', 'd') {
        Some(Mnemonic::Alu(AluOp::And))
    } else if spells2(src, w, 'o', 'r') {
        Some(Mnemonic::Alu(AluOp::Or))
    } else if spells3(src, w, 'x', 'o', 'r') {
        Some(Mnemonic::Alu(AluOp::Xor))
    } else if spells3(src, w, 'l', 's', 'h') {
        Some(Mnemonic::Alu(AluOp::Lsh))
    } else if spells3(src, w, 'r', 's', 'h') {
        Some(Mnemonic::Alu(AluOp::Rsh))
    } else if spells3(src, w, 't', 'a', 'x') {
        Some(Mnemonic::Tax)
    } else if spells3(src, w, 't', 'x', 'a') {
        Some(Mnemonic::Txa)
    } else if spells3(src, w, 'c', 'o', 'p') {
        Some(Mnemonic::Cop)
    } else if spells4(src, w, 'c', 'o', 'p', 'x') {
        Some(Mnemonic::Copx)
    } else if spells3(src, w, 'r', 'e', 't') {
        Some(Mnemonic::Ret)
    } else {
        None
    }
}

/// Whether the word at `at` is the one letter `name`.
fn register_at(src: &[u8], at: usize, name: char) -> (r: bool)
    requires
        at <= src@.len(),
        (name as u32) < 128,
    ensures
        r == is_register(src@, at as int, name),
        r ==> at < usize::MAX,
{
    at < src.len() && src[at] == name as u8 && find_word_end(src, at) == at + 1
}

/// Reads `#k`.
fn read_immediate(src: &[u8], at: usize) -> (r: Result<(Span, usize), AssemblerError>)
    requires
        at <= src@.len(),
    ensures
        agrees(r, immediate(src@, at as int)),
        r matches Ok((k, next)) ==> at < next <= src@.len() && k.fits(src@.len()),
        settled(src@, at as int) ==> match r {
            Ok((k, next)) => k.settled(src@) && settled(src@, next as int),
            Err(e) => e.settled(src@),
        },
{
    let p = read_symbol(src, at, '#' as u8)?;
    read_integer(src, p)
}

/// Reads `[k]`.
fn read_slot(src: &[u8], at: usize) -> (r: Result<(Span, usize), AssemblerError>)
    requires
        at <= src@.len(),
    ensures
        agrees(r, slot(src@, at as int)),
        r matches Ok((k, next)) ==> at < next <= src@.len() && k.fits(src@.len()),
        settled(src@, at as int) ==> match r {
            Ok((k, next)) => k.settled(src@) && settled(src@, next as int),
            Err(e) => e.settled(src@),
        },
{
    let p = read_symbol(src, at, '[' as u8)?;
    let (k, q) = read_integer(src, p)?;
    let r = read_symbol(src, q, ']' as u8)?;
    Ok((k, r))
}

/// Reads `M[k]`.
fn read_memory(src: &[u8], at: usize) -> (r: Result<(Span, usize), AssemblerError>)
    requires
        at <= src@.len(),
    ensures
        agrees(r, memory(src@, at as int)),
        r matches Ok((k, next)) ==> at < next <= src@.len() && k.fits(src@.len()),
        settled(src@, at as int) ==> match r {
            Ok((k, next)) => k.settled(src@) && settled(src@, next as int),
            Err(e) => e.settled(src@),
        },
{
    let (name, p) = read_word(src, at, Expected::Operand)?;
    if spells1(src, name, 'M') {
        read_slot(src, p)
    } else {
        Err(AssemblerError::Syntax { expected: Expected::Operand, at: name.start })
    }
}

/// Reads `[k]` or `[x + k]`.
fn read_bracketed(src: &[u8], at: usize) -> (r: Result<(PacketOperand, usize), AssemblerError>)
    requires
        at <= src@.len(),
    ensures
        agrees(r, bracketed(src@, at as int)),
        r matches Ok((operand, next)) ==> at < next <= src@.len() && Operation::Ldh(operand).fits(
            src@.len(),
        ) && !(operand is Extension),
        settled(src@, at as int) ==> match r {
            Ok((operand, next)) => Operation::Ldh(operand).settled(src@) && settled(src@, next as int),
            Err(e) => e.settled(src@),
        },
{
    let p = read_symbol(src, at, '[' as u8)?;
    let q = skip(src, p)?;
    if register_at(src, q, 'x') {
        let r = read_symbol(src, q + 1, '+' as u8)?;
        let (k, s) = read_integer(src, r)?;
        let t = read_symbol(src, s, ']' as u8)?;
        Ok((PacketOperand::IndirectPacketOffset(k), t))
    } else {
        let (k, s) = read_integer(src, q)?;
        let t = read_symbol(src, s, ']' as u8)?;
        Ok((PacketOperand::PacketOffset(k), t))
    }
}

/// Reads `4*([k]&0xf)`.
fn read_header_length(src: &[u8], at: usize) -> (r: Result<(Span, usize), AssemblerError>)
    requires
        at <= src@.len(),
    ensures
        agrees(r, header_length(src@, at as int)),
        r matches Ok((k, next)) ==> at < next <= src@.len() && k.fits(src@.len()),
        settled(src@, at as int) ==> match r {
            Ok((k, next)) => k.settled(src@) && settled(src@, next as int),
            Err(e) => e.settled(src@),
        },
{
    let (four, p) = read_integer(src, at)?;
    if !spells1(src, four, '4') {
        return Err(AssemblerError::Syntax { expected: Expected::Operand, at: four.start });
    }
    let q = read_symbol(src, p, '*' as u8)?;
    let r = read_symbol(src, q, '(' as u8)?;
    let (k, s) = read_slot(src, r)?;
    let t = read_symbol(src, s, '&' as u8)?;
    let (mask, u) = read_integer(src, t)?;
    if !spells3(src, mask, '0', 'x', 'f') && !spells3(src, mask, '0', 'x', 'F') {
        return Err(AssemblerError::Syntax { expected: Expected::Operand, at: mask.start });
    }
    let v = read_symbol(src, u, ')' as u8)?;
    Ok((k, v))
}

/// Reads `x` or `#k`.
fn read_source(src: &[u8], at: usize) -> (r: Result<(Source, usize), AssemblerError>)
    requires
        at <= src@.len(),
    ensures
        agrees(r, source(src@, at as int)),
        r matches Ok((value, next)) ==> at < next <= src@.len() && value.fits(src@.len()),
        settled(src@, at as int) ==> match r {
            Ok((value, next)) => value.settled(src@) && settled(src@, next as int),
            Err(e) => e.settled(src@),
        },
{
    let p = skip(src, at)?;
    if register_at(src, p, 'x') {
        Ok((Source::IndexRegister, p + 1))
    } else if p < src.len() && src[p] == '#' as u8 {
        let (k, q) = read_integer(src, p + 1)?;
        Ok((Source::Immediate(k), q))
    } else {
        Err(AssemblerError::Syntax { expected: Expected::Operand, at: p })
    }
}

/// Reads the name of an extension.
fn read_extension(src: &[u8], at: usize) -> (r: Result<(Span, usize), AssemblerError>)
    requires
        at <= src@.len(),
    ensures
        agrees(r, extension(src@, at as int)),
        r matches Ok((name, next)) ==> at < next <= src@.len() && name.fits(src@.len()),
        settled(src@, at as int) ==> match r {
            Ok((name, next)) => name.settled(src@) && settled(src@, next as int),
            Err(e) => e.settled(src@),
        },
{
    let p = skip(src, at)?;
    if p < src.len() && src[p] == '#' as u8 {
        read_word(src, p + 1, Expected::Operand)
    } else {
        read_word(src, p, Expected::Operand)
    }
}

/// Reads the operand of `ldh` or `ldb`.
fn read_packet_operand(src: &[u8], at: usize) -> (r: Result<(PacketOperand, usize), AssemblerError>)
    requires
        at <= src@.len(),
    ensures
        agrees(r, packet_operand(src@, at as int)),
        r matches Ok((operand, next)) ==> at < next <= src@.len() && Operation::Ldh(operand).fits(
            src@.len(),
        ),
        settled(src@, at as int) ==> match r {
            Ok((operand, next)) => Operation::Ldh(operand).settled(src@) && settled(src@, next as int),
            Err(e) => e.settled(src@),
        },
{
    let p = skip(src, at)?;
    if p < src.len() && src[p] == '[' as u8 {
        read_bracketed(src, p)
    } else {
        let (name, q) = read_extension(src, p)?;
        Ok((PacketOperand::Extension(name), q))
    }
}

/// Tells what a word stands for as the operand of `ld`.
fn load_named(src: &[u8], name: Span) -> (r: LoadOperand)
    requires
        name.fits(src@.len()),
    ensures
        r == named_load(src@, name),
{
    if spells3(src, name, 'l', 'e', 'n') {
        LoadOperand::Length
    } else {
        LoadOperand::Extension(name)
    }
}

/// Reads the operand of `ld`.
fn read_load_operand(src: &[u8], at: usize) -> (r: Result<(LoadOperand, usize), AssemblerError>)
    requires
        at <= src@.len(),
    ensures
        agrees(r, load_operand(src@, at as int)),
        r matches Ok((operand, next)) ==> at < next <= src@.len() && Operation::Ld(operand).fits(
            src@.len(),
        ),
        settled(src@, at as int) ==> match r {
            Ok((operand, next)) => Operation::Ld(operand).settled(src@) && settled(src@, next as int),
            Err(e) => e.settled(src@),
        },
{
    let p = skip(src, at)?;
    if p < src.len() && src[p] == '[' as u8 {
        match read_bracketed(src, p)? {
            (PacketOperand::PacketOffset(k), q) => Ok((LoadOperand::PacketOffset(k), q)),
            (PacketOperand::IndirectPacketOffset(k), q) => Ok(
                (LoadOperand::IndirectPacketOffset(k), q),
            ),
            (PacketOperand::Extension(name), q) => Ok((LoadOperand::Extension(name), q)),
        }
    } else if p < src.len() && src[p] == '#' as u8 {
        let q = skip(src, p + 1)?;
        if q < src.len() && letter(src[q]) {
            let (name, r) = read_word(src, q, Expected::Operand)?;
            Ok((load_named(src, name), r))
        } else {
            let (k, r) = read_integer(src, q)?;
            Ok((LoadOperand::Immediate(k), r))
        }
    } else {
        let (name, q) = read_word(src, p, Expected::Operand)?;
        if spells1(src, name, 'M') {
            let (k, r) = read_slot(src, q)?;
            Ok((LoadOperand::MemoryAddress(k), r))
        } else {
            Ok((load_named(src, name), q))
        }
    }
}

/// Reads the operand of `ldx`.
fn read_index_operand(src: &[u8], at: usize) -> (r: Result<(IndexOperand, usize), AssemblerError>)
    requires
        at <= src@.len(),
    ensures
        agrees(r, index_operand(src@, at as int)),
        r matches Ok((operand, next)) ==> at < next <= src@.len() && Operation::Ldx(operand).fits(
            src@.len(),
        ),
        settled(src@, at as int) ==> match r {
            Ok((operand, next)) => Operation::Ldx(operand).settled(src@) && settled(src@, next as int),
            Err(e) => e.settled(src@),
        },
{
    let p = skip(src, at)?;
    if p < src.len() && src[p] == '#' as u8 {
        let q = skip(src, p + 1)?;
        if q < src.len() && letter(src[q]) {
            let (name, r) = read_word(src, q, Expected::Operand)?;
            if spells3(src, name, 'l', 'e', 'n') {
                Ok((IndexOperand::Length, r))
            } else {
                Err(AssemblerError::Syntax { expected: Expected::Operand, at: name.start })
            }
        } else {
            let (k, r) = read_integer(src, q)?;
            Ok((IndexOperand::Immediate(k), r))
        }
    } else if p < src.len() && (digit(src[p]) || (src[p] == '-' as u8 && p + 1 < src.len()
        && digit(src[p + 1]))) {
        let (k, q) = read_header_length(src, p)?;
        Ok((IndexOperand::PacketOffsetMsh(k), q))
    } else {
        let (name, q) = read_word(src, p, Expected::Operand)?;
        if spells1(src, name, 'M') {
            let (k, r) = read_slot(src, q)?;
            Ok((IndexOperand::MemoryAddress(k), r))
        } else if spells3(src, name, 'l', 'e', 'n') {
            Ok((IndexOperand::Length, q))
        } else {
            Err(AssemblerError::Syntax { expected: Expected::Operand, at: name.start })
        }
    }
}

/// Reads the operand of `cop`.
fn read_cop_operand(src: &[u8], at: usize) -> (r: Result<(CopOperand, usize), AssemblerError>)
    requires
        at <= src@.len(),
    ensures
        agrees(r, cop_operand(src@, at as int)),
        r matches Ok((operand, next)) ==> at < next <= src@.len() && Operation::Cop(operand).fits(
            src@.len(),
        ),
        settled(src@, at as int) ==> match r {
            Ok((operand, next)) => Operation::Cop(operand).settled(src@) && settled(src@, next as int),
            Err(e) => e.settled(src@),
        },
{
    let p = skip(src, at)?;
    if p < src.len() && src[p] == '#' as u8 {
        let q = skip(src, p + 1)?;
        if q < src.len() && letter(src[q]) {
            let (name, r) = read_word(src, q, Expected::Operand)?;
            Ok((CopOperand::Extension(name), r))
        } else {
            let (k, r) = read_integer(src, q)?;
            Ok((CopOperand::Immediate(k), r))
        }
    } else {
        let (name, q) = read_word(src, p, Expected::Operand)?;
        Ok((CopOperand::Extension(name), q))
    }
}

/// Reads the operand of `ret`.
fn read_return_operand(src: &[u8], at: usize) -> (r: Result<(ReturnOperand, usize), AssemblerError>)
    requires
        at <= src@.len(),
    ensures
        agrees(r, return_operand(src@, at as int)),
        r matches Ok((operand, next)) ==> at < next <= src@.len() && Operation::Ret(operand).fits(
            src@.len(),
        ),
        settled(src@, at as int) ==> match r {
            Ok((operand, next)) => Operation::Ret(operand).settled(src@) && settled(src@, next as int),
            Err(e) => e.settled(src@),
        },
{
    let p = skip(src, at)?;
    if register_at(src, p, 'x') {
        Ok((ReturnOperand::IndexRegister, p + 1))
    } else if register_at(src, p, 'a') {
        Ok((ReturnOperand::AccumulatorRegister, p + 1))
    } else if p < src.len() && src[p] == '#' as u8 {
        let (k, q) = read_integer(src, p + 1)?;
        Ok((ReturnOperand::Immediate(k), q))
    } else {
        Err(AssemblerError::Syntax { expected: Expected::Operand, at: p })
    }
}

/// Reads the operands of `jeq`, `jgt`, `jge` or `jset`.
fn read_jump_operands(src: &[u8], condition: Condition, at: usize) -> (r: Result<
    (Operation, usize),
    AssemblerError,
>)
    requires
        at <= src@.len(),
    ensures
        agrees(r, jump_operands(src@, condition, at as int)),
        r matches Ok((op, next)) ==> at < next <= src@.len() && op.fits(src@.len()),
        settled(src@, at as int) ==> match r {
            Ok((op, next)) => op.settled(src@) && settled(src@, next as int),
            Err(e) => e.settled(src@),
        },
{
    let (value, p) = read_source(src, at)?;
    let q = read_symbol(src, p, ',' as u8)?;
    let (on_true, r) = read_word(src, q, Expected::Label)?;
    let s = skip(src, r)?;
    if s < src.len() && src[s] == ',' as u8 {
        let (on_false, t) = read_word(src, s + 1, Expected::Label)?;
        Ok((Operation::Jump(condition, value, on_true, on_false), t))
    } else {
        Ok((Operation::JumpIf(condition, value, on_true), r))
    }
}

/// Reads the operands of `jneq`, `jlt` or `jle`.
fn read_inverse_operands(src: &[u8], inverse: Inverse, at: usize) -> (r: Result<
    (Operation, usize),
    AssemblerError,
>)
    requires
        at <= src@.len(),
    ensures
        agrees(r, inverse_operands(src@, inverse, at as int)),
        r matches Ok((op, next)) ==> at < next <= src@.len() && op.fits(src@.len()),
        settled(src@, at as int) ==> match r {
            Ok((op, next)) => op.settled(src@) && settled(src@, next as int),
            Err(e) => e.settled(src@),
        },
{
    let (value, p) = read_source(src, at)?;
    let q = read_symbol(src, p, ',' as u8)?;
    let (target, r) = read_word(src, q, Expected::Label)?;
    Ok((Operation::JumpUnless(inverse, value, target), r))
}

/// Reads the operands that `mnemonic` accepts.
pub fn read_operation(src: &[u8], mnemonic: Mnemonic, at: usize) -> (r: Result<
    (Operation, usize),
    AssemblerError,
>)
    requires
        at <= src@.len(),
    ensures
        agrees(r, operation(src@, mnemonic, at as int)),
        r matches Ok((op, next)) ==> at <= next <= src@.len() && op.fits(src@.len()),
        settled(src@, at as int) ==> match r {
            Ok((op, next)) => op.settled(src@) && settled(src@, next as int),
            Err(e) => e.settled(src@),
        },
{
    match mnemonic {
        Mnemonic::Ld => {
            let (operand, p) = read_load_operand(src, at)?;
            Ok((Operation::Ld(operand), p))
        },
        Mnemonic::Ldi => {
            let (k, p) = read_immediate(src, at)?;
            Ok((Operation::Ldi(k), p))
        },
        Mnemonic::Ldh => {
            let (operand, p) = read_packet_operand(src, at)?;
            Ok((Operation::Ldh(operand), p))
        },
        Mnemonic::Ldb => {
            let (operand, p) = read_packet_operand(src, at)?;
            Ok((Operation::Ldb(operand), p))
        },
        Mnemonic::Ldx => {
            let (operand, p) = read_index_operand(src, at)?;
            Ok((Operation::Ldx(operand), p))
        },
        Mnemonic::Ldxi => {
            let (k, p) = read_immediate(src, at)?;
            Ok((Operation::Ldxi(k), p))
        },
        Mnemonic::Ldxb => {
            let (k, p) = read_header_length(src, at)?;
            Ok((Operation::Ldxb(k), p))
        },
        Mnemonic::St => {
            let (k, p) = read_memory(src, at)?;
            Ok((Operation::St(k), p))
        },
        Mnemonic::Stx => {
            let (k, p) = read_memory(src, at)?;
            Ok((Operation::Stx(k), p))
        },
        Mnemonic::Jmp => {
            let (target, p) = read_word(src, at, Expected::Label)?;
            Ok((Operation::Jmp(target), p))
        },
        Mnemonic::Jump(condition) => read_jump_operands(src, condition, at),
        Mnemonic::JumpUnless(inverse) => read_inverse_operands(src, inverse, at),
        Mnemonic::Alu(op) => {
            let (value, p) = read_source(src, at)?;
            Ok((Operation::Alu(op, value), p))
        },
        Mnemonic::Neg => Ok((Operation::Neg, at)),
        Mnemonic::Tax => Ok((Operation::Tax, at)),
        Mnemonic::Txa => Ok((Operation::Txa, at)),
        Mnemonic::Cop => {
            let (operand, p) = read_cop_operand(src, at)?;
            Ok((Operation::Cop(operand), p))
        },
        Mnemonic::Copx => Ok((Operation::Copx, at)),
        Mnemonic::Ret => {
            let (operand, p) = read_return_operand(src, at)?;
            Ok((Operation::Ret(operand), p))
        },
    }
}

/// Reads the statement that starts at `at`.
pub fn read_statement(src: &[u8], at: usize) -> (r: Result<(Statement, usize), AssemblerError>)
    requires
        at <= src@.len(),
    ensures
        agrees(r, statement(src@, at as int)),
        r matches Ok((st, next)) ==> at < next <= src@.len() && st.fits(src@.len()),
        settled(src@, at as int) ==> match r {
            Ok((st, next)) => st.settled(src@) && settled(src@, next as int),
            Err(e) => e.settled(src@),
        },
{
    let (first, p) = read_word(src, at, Expected::Statement)?;
    let q = skip(src, p)?;
    if q < src.len() && src[q] == ':' as u8 {
        Ok((Statement::Label(first), q + 1))
    } else {
        match mnemonic_of(src, first) {
            None => Err(AssemblerError::Syntax { expected: Expected::Statement, at: first.start }),
            Some(m) => {
                let (op, r) = read_operation(src, m, p)?;
                Ok((Statement::Operation(op), r))
            },
        }
    }
}

/// Splits a source text into its statements.
///
/// Fails with a `Syntax` error at the first offset where the text fits no
/// rule of the grammar. Integer literals and names are not looked at beyond
/// their shape.
pub fn parse(src: &[u8]) -> (r: Result<Vec<Statement>, AssemblerError>)
    ensures
        match r {
            Ok(statements) => program(src@) == Ok::<Seq<Statement>, AssemblerError>(statements@)
                && all_fit(statements@, src@.len()) && all_settled(statements@, src@),
            Err(e) => program(src@) == Err::<Seq<Statement>, AssemblerError>(e) && e.settled(src@),
        },
{
    let mut statements: Vec<Statement> = Vec::new();
    let mut at: usize = 0;
    loop
        invariant
            at <= src@.len(),
            settled(src@, at as int),
            all_fit(statements@, src@.len()),
            all_settled(statements@, src@),
            program(src@) == joined(statements@, statements_from(src@, at as int)),
        decreases src@.len() - at,
    {
        let p = match skip(src, at) {
            Ok(p) => p,
            Err(e) => { return Err(e); },
        };
        if p >= src.len() {
            assert(statements@ + Seq::<Statement>::empty() =~= statements@);
            return Ok(statements);
        }
        let (first, q) = match read_statement(src, p) {
            Ok(found) => found,
            Err(e) => { return Err(e); },
        };
        proof {
            match statements_from(src@, q as int) {
                Ok(rest) => {
                    assert(statements@ + (seq![first] + rest) =~= statements@.push(first) + rest);
                },
                Err(_) => {},
            }
        }
        statements.push(first);
        at = q;
    }
}

/// The statements read so far followed by those still to come.
pub open spec fn joined(done: Seq<Statement>, rest: Result<Seq<Statement>, AssemblerError>) -> Result<
    Seq<Statement>,
    AssemblerError,
> {
    match rest {
        Ok(more) => Ok(done + more),
        Err(e) => Err(e),
    }
}

} // verus!
