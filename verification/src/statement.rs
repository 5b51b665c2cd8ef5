//! The statements of a program, as the parser hands them to the two passes.
//!
//! Every operand is kept as the range of source text it was read from: an
//! integer literal is evaluated, and a name is looked up, only when the
//! operation is encoded.

use vstd::prelude::*;
use crate::span::Span;

verus! {

/// The second operand of an arithmetic or a conditional jump operation.
#[derive(Debug, Clone, Copy, PartialEq, Eq, Structural)]
pub enum Source {
    /// The index register, written `x`.
    IndexRegister,
    /// An immediate, written `#k`.
    Immediate(Span),
}

/// What `ld` can load into the accumulator.
#[derive(Debug, Clone, Copy, PartialEq, Eq, Structural)]
pub enum LoadOperand {
    /// `[k]`
    PacketOffset(Span),
    /// `[x + k]`
    IndirectPacketOffset(Span),
    /// `M[k]`
    MemoryAddress(Span),
    /// `#k`
    Immediate(Span),
    /// `len`
    Length,
    /// A named extension.
    Extension(Span),
}

/// What `ldh` and `ldb` can load into the accumulator.
#[derive(Debug, Clone, Copy, PartialEq, Eq, Structural)]
pub enum PacketOperand {
    /// `[k]`
    PacketOffset(Span),
    /// `[x + k]`
    IndirectPacketOffset(Span),
    /// A named extension.
    Extension(Span),
}

/// What `ldx` can load into the index register.
#[derive(Debug, Clone, Copy, PartialEq, Eq, Structural)]
pub enum IndexOperand {
    /// `M[k]`
    MemoryAddress(Span),
    /// `4*([k]&0xf)`
    PacketOffsetMsh(Span),
    /// `#k`
    Immediate(Span),
    /// `len`
    Length,
}

/// What `ret` can return.
#[derive(Debug, Clone, Copy, PartialEq, Eq, Structural)]
pub enum ReturnOperand {
    /// `#k`
    Immediate(Span),
    /// `x`
    IndexRegister,
    /// `a`
    AccumulatorRegister,
}

/// What `cop` can call.
#[derive(Debug, Clone, Copy, PartialEq, Eq, Structural)]
pub enum CopOperand {
    /// `#k`
    Immediate(Span),
    /// A named extension.
    Extension(Span),
}

/// The tests that a conditional jump can branch on when they hold.
#[derive(Debug, Clone, Copy, PartialEq, Eq, Structural)]
pub enum Condition {
    /// `jeq`
    Equal,
    /// `jgt`
    Greater,
    /// `jge`
    GreaterOrEqual,
    /// `jset`
    AnyBit,
}

/// The tests that are written as the failure of another one.
#[derive(Debug, Clone, Copy, PartialEq, Eq, Structural)]
pub enum Inverse {
    /// `jneq` or `jne`: branch where `jeq` would not.
    NotEqual,
    /// `jlt`: branch where `jge` would not.
    Less,
    /// `jle`: branch where `jgt` would not.
    LessOrEqual,
}

/// The binary arithmetic and logic operations.
#[derive(Debug, Clone, Copy, PartialEq, Eq, Structural)]
pub enum AluOp {
    Add,
    Sub,
    Mul,
    Div,
    Mod,
    And,
    Or,
    Xor,
    Lsh,
    Rsh,
}

/// A mnemonic together with the one operand shape that matched.
#[derive(Debug, Clone, Copy, PartialEq, Eq, Structural)]
pub enum Operation {
    Ld(LoadOperand),
    /// `ldi #k`
    Ldi(Span),
    Ldh(PacketOperand),
    Ldb(PacketOperand),
    Ldx(IndexOperand),
    /// `ldxi #k`
    Ldxi(Span),
    /// `ldxb 4*([k]&0xf)`
    Ldxb(Span),
    /// `st M[k]`
    St(Span),
    /// `stx M[k]`
    Stx(Span),
    /// `jmp label` or `ja label`
    Jmp(Span),
    /// A conditional jump with a target for each outcome, the one taken when
    /// the test holds first.
    Jump(Condition, Source, Span, Span),
    /// A conditional jump that branches when the test holds and falls
    /// through otherwise.
    JumpIf(Condition, Source, Span),
    /// A conditional jump that branches when the inverse test holds.
    JumpUnless(Inverse, Source, Span),
    Alu(AluOp, Source),
    Neg,
    Tax,
    Txa,
    Cop(CopOperand),
    Copx,
    Ret(ReturnOperand),
}

/// One statement of a program.
#[derive(Debug, Clone, Copy, PartialEq, Eq, Structural)]
pub enum Statement {
    /// A label declaration; the span is the name.
    Label(Span),
    /// An operation, which takes one slot of the program.
    Operation(Operation),
}

impl Source {
    /// `holds` is true of every span in the operand.
    pub open spec fn every(self, holds: spec_fn(Span) -> bool) -> bool {
        match self {
            Source::IndexRegister => true,
            Source::Immediate(k) => holds(k),
        }
    }

    /// Every span in the operand lies inside a text of `len` bytes.
    pub open spec fn fits(self, len: nat) -> bool {
        self.every(|span: Span| span.fits(len))
    }

    /// Every span in the operand starts and ends at settled offsets of
    /// `src`.
    pub open spec fn settled(self, src: Seq<u8>) -> bool {
        self.every(|span: Span| span.settled(src))
    }
}

impl Operation {
    /// `holds` is true of every span in the operation.
    pub open spec fn every(self, holds: spec_fn(Span) -> bool) -> bool {
        match self {
            Operation::Ld(LoadOperand::PacketOffset(k)) => holds(k),
            Operation::Ld(LoadOperand::IndirectPacketOffset(k)) => holds(k),
            Operation::Ld(LoadOperand::MemoryAddress(k)) => holds(k),
            Operation::Ld(LoadOperand::Immediate(k)) => holds(k),
            Operation::Ld(LoadOperand::Length) => true,
            Operation::Ld(LoadOperand::Extension(name)) => holds(name),
            Operation::Ldi(k) => holds(k),
            Operation::Ldh(PacketOperand::PacketOffset(k)) => holds(k),
            Operation::Ldh(PacketOperand::IndirectPacketOffset(k)) => holds(k),
            Operation::Ldh(PacketOperand::Extension(name)) => holds(name),
            Operation::Ldb(PacketOperand::PacketOffset(k)) => holds(k),
            Operation::Ldb(PacketOperand::IndirectPacketOffset(k)) => holds(k),
            Operation::Ldb(PacketOperand::Extension(name)) => holds(name),
            Operation::Ldx(IndexOperand::MemoryAddress(k)) => holds(k),
            Operation::Ldx(IndexOperand::PacketOffsetMsh(k)) => holds(k),
            Operation::Ldx(IndexOperand::Immediate(k)) => holds(k),
            Operation::Ldx(IndexOperand::Length) => true,
            Operation::Ldxi(k) => holds(k),
            Operation::Ldxb(k) => holds(k),
            Operation::St(k) => holds(k),
            Operation::Stx(k) => holds(k),
            Operation::Jmp(target) => holds(target),
            Operation::Jump(_, source, on_true, on_false) => source.every(holds) && holds(on_true)
                && holds(on_false),
            Operation::JumpIf(_, source, target) => source.every(holds) && holds(target),
            Operation::JumpUnless(_, source, target) => source.every(holds) && holds(target),
            Operation::Alu(_, source) => source.every(holds),
            Operation::Neg => true,
            Operation::Tax => true,
            Operation::Txa => true,
            Operation::Cop(CopOperand::Immediate(k)) => holds(k),
            Operation::Cop(CopOperand::Extension(name)) => holds(name),
            Operation::Copx => true,
            Operation::Ret(ReturnOperand::Immediate(k)) => holds(k),
            Operation::Ret(ReturnOperand::IndexRegister) => true,
            Operation::Ret(ReturnOperand::AccumulatorRegister) => true,
        }
    }

    /// Every span in the operation lies inside a text of `len` bytes.
    pub open spec fn fits(self, len: nat) -> bool {
        self.every(|span: Span| span.fits(len))
    }

    /// Every span in the operation starts and ends at settled offsets of
    /// `src`.
    pub open spec fn settled(self, src: Seq<u8>) -> bool {
        self.every(|span: Span| span.settled(src))
    }

    /// Whether the operation names the label `name` as a jump target.
    pub open spec fn refers_to(self, src: Seq<u8>, name: Seq<u8>) -> bool {
        match self {
            Operation::Jmp(target) => target.text(src) == name,
            Operation::Jump(_, _, on_true, on_false) => on_true.text(src) == name || on_false.text(
                src,
            ) == name,
            Operation::JumpIf(_, _, target) => target.text(src) == name,
            Operation::JumpUnless(_, _, target) => target.text(src) == name,
            _ => false,
        }
    }
}

impl Statement {
    /// Every span in the statement lies inside a text of `len` bytes.
    pub open spec fn fits(self, len: nat) -> bool {
        match self {
            Statement::Label(name) => name.fits(len),
            Statement::Operation(op) => op.fits(len),
        }
    }

    /// Every span in the statement starts and ends at settled offsets of
    /// `src`.
    pub open spec fn settled(self, src: Seq<u8>) -> bool {
        match self {
            Statement::Label(name) => name.settled(src),
            Statement::Operation(op) => op.settled(src),
        }
    }

    /// Whether the statement declares the label `name`.
    pub open spec fn declares(self, src: Seq<u8>, name: Seq<u8>) -> bool {
        match self {
            Statement::Label(span) => span.text(src) == name,
            Statement::Operation(_) => false,
        }
    }

    /// Whether the statement names the label `name` as a jump target.
    pub open spec fn refers_to(self, src: Seq<u8>, name: Seq<u8>) -> bool {
        match self {
            Statement::Label(_) => false,
            Statement::Operation(op) => op.refers_to(src, name),
        }
    }
}

/// Every span in every statement lies inside a text of `len` bytes.
pub open spec fn all_fit(statements: Seq<Statement>, len: nat) -> bool {
    forall|i: int| 0 <= i < statements.len() ==> (#[trigger] statements[i]).fits(len)
}

/// Every span in every statement starts and ends at settled offsets of
/// `src`.
pub open spec fn all_settled(statements: Seq<Statement>, src: Seq<u8>) -> bool {
    forall|i: int| 0 <= i < statements.len() ==> (#[trigger] statements[i]).settled(src)
}

/// The number of operations among the first `upto` statements: the program
/// counter of an operation at index `upto`, and the one that a label there
/// is bound to.
pub open spec fn operations_before(statements: Seq<Statement>, upto: int) -> nat
    decreases upto,
{
    if upto <= 0 {
        0
    } else if statements[upto - 1] is Operation {
        operations_before(statements, upto - 1) + 1
    } else {
        operations_before(statements, upto - 1)
    }
}

} // verus!
