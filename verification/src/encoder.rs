//! The second pass: encoding every operation into an instruction.

use vstd::prelude::*;
use crate::error::AssemblerError;
use crate::extensions::{lookup, ExtensionTable};
use crate::instruction::Instruction;
use crate::integer::{evaluate, evaluate_spec};
use crate::labels::LabelTable;
use crate::opcode::{
    BPF_A, BPF_ABS, BPF_ADD, BPF_ALU, BPF_AND, BPF_B, BPF_COP, BPF_COPX, BPF_DIV, BPF_H, BPF_IMM,
    BPF_IND, BPF_JA, BPF_JEQ, BPF_JGE, BPF_JGT, BPF_JMP, BPF_JSET, BPF_K, BPF_LD, BPF_LDX, BPF_LEN,
    BPF_LSH, BPF_MEM, BPF_MISC, BPF_MOD, BPF_MSH, BPF_MUL, BPF_NEG, BPF_OR, BPF_RET, BPF_RSH,
    BPF_ST, BPF_STX, BPF_SUB, BPF_TAX, BPF_TXA, BPF_W, BPF_X, BPF_XOR,
};
use crate::span::Span;
use crate::statement::{
    all_fit, all_settled, operations_before, AluOp, Condition, CopOperand, IndexOperand, Inverse, LoadOperand,
    Operation, PacketOperand, ReturnOperand, Source, Statement,
};

verus! {

/// An instruction that does not branch.
pub open spec fn plain(code: u16, k: u32) -> Instruction {
    Instruction { code, jt: 0, jf: 0, k }
}

/// The instruction `code` with the literal at `k` as its operand.
pub open spec fn with_value_spec(code: u16, src: Seq<u8>, k: Span) -> Result<
    Instruction,
    AssemblerError,
> {
    match evaluate_spec(src, k) {
        Ok(v) => Ok(plain(code, v)),
        Err(e) => Err(e),
    }
}

/// The instruction `code` with the code of the extension at `name` as its
/// operand.
pub open spec fn with_extension_spec(
    code: u16,
    src: Seq<u8>,
    name: Span,
    extensions: Map<Seq<u8>, u32>,
) -> Result<Instruction, AssemblerError> {
    match lookup(extensions, name.text(src)) {
        Some(v) => Ok(plain(code, v)),
        None => Err(AssemblerError::UndeclaredExtension(name)),
    }
}

/// The number of instructions that a jump at `pc` skips to reach the label
/// at `target`. The label must be declared and must lie after the jump.
pub open spec fn displacement(
    src: Seq<u8>,
    labels: Map<Seq<u8>, nat>,
    target: Span,
    pc: nat,
) -> Result<nat, AssemblerError> {
    let name = target.text(src);
    if !labels.contains_key(name) {
        Err(AssemblerError::UndeclaredLabel(target))
    } else if labels[name] <= pc {
        Err(AssemblerError::UnreachableLabel(target))
    } else {
        Ok((labels[name] - pc - 1) as nat)
    }
}

/// The unconditional jump `code` from `pc` to the label at `target`: the
/// displacement is the operand, reduced to its 32 bits.
pub open spec fn jump_always_spec(
    code: u16,
    src: Seq<u8>,
    labels: Map<Seq<u8>, nat>,
    target: Span,
    pc: nat,
) -> Result<Instruction, AssemblerError> {
    match displacement(src, labels, target, pc) {
        Ok(d) => Ok(plain(code, (d % 0x1_0000_0000) as u32)),
        Err(e) => Err(e),
    }
}

/// One branch field of a conditional jump at `pc`: zero where no target is
/// given, else the displacement to the target, reduced to the 8 bits of the
/// field.
pub open spec fn branch_spec(
    src: Seq<u8>,
    labels: Map<Seq<u8>, nat>,
    target: Option<Span>,
    pc: nat,
) -> Result<u8, AssemblerError> {
    match target {
        None => Ok(0u8),
        Some(t) => match displacement(src, labels, t, pc) {
            Ok(d) => Ok((d % 0x100) as u8),
            Err(e) => Err(e),
        },
    }
}

/// The bit of `code` that says where the second operand comes from.
pub open spec fn source_code(source: Source) -> u16 {
    match source {
        Source::IndexRegister => BPF_X,
        Source::Immediate(_) => BPF_K,
    }
}

/// The operand field that goes with a second operand.
pub open spec fn source_value(src: Seq<u8>, source: Source) -> Result<u32, AssemblerError> {
    match source {
        Source::IndexRegister => Ok(0u32),
        Source::Immediate(k) => evaluate_spec(src, k),
    }
}

/// The conditional jump `code` at `pc`. The operand is evaluated first, then
/// the branch taken when the test holds, then the other one.
pub open spec fn conditional_spec(
    code: u16,
    src: Seq<u8>,
    labels: Map<Seq<u8>, nat>,
    source: Source,
    on_true: Option<Span>,
    on_false: Option<Span>,
    pc: nat,
) -> Result<Instruction, AssemblerError> {
    match source_value(src, source) {
        Err(e) => Err(e),
        Ok(k) => match branch_spec(src, labels, on_true, pc) {
            Err(e) => Err(e),
            Ok(jt) => match branch_spec(src, labels, on_false, pc) {
                Err(e) => Err(e),
                Ok(jf) => Ok(Instruction { code, jt, jf, k }),
            },
        },
    }
}

/// The arithmetic instruction `code` with its second operand.
pub open spec fn arithmetic_spec(code: u16, src: Seq<u8>, source: Source) -> Result<
    Instruction,
    AssemblerError,
> {
    match source_value(src, source) {
        Ok(k) => Ok(plain(code, k)),
        Err(e) => Err(e),
    }
}

/// The test field of a conditional jump.
pub open spec fn condition_code(condition: Condition) -> u16 {
    match condition {
        Condition::Equal => BPF_JEQ,
        Condition::Greater => BPF_JGT,
        Condition::GreaterOrEqual => BPF_JGE,
        Condition::AnyBit => BPF_JSET,
    }
}

/// The test whose failure an inverse test branches on.
pub open spec fn inverse_code(inverse: Inverse) -> u16 {
    match inverse {
        Inverse::NotEqual => BPF_JEQ,
        Inverse::Less => BPF_JGE,
        Inverse::LessOrEqual => BPF_JGT,
    }
}

/// The operation field of an arithmetic instruction.
pub open spec fn alu_code(op: AluOp) -> u16 {
    match op {
        AluOp::Add => BPF_ADD,
        AluOp::Sub => BPF_SUB,
        AluOp::Mul => BPF_MUL,
        AluOp::Div => BPF_DIV,
        AluOp::Mod => BPF_MOD,
        AluOp::And => BPF_AND,
        AluOp::Or => BPF_OR,
        AluOp::Xor => BPF_XOR,
        AluOp::Lsh => BPF_LSH,
        AluOp::Rsh => BPF_RSH,
    }
}

/// The instruction that `operation` stands for at program counter `pc`.
pub open spec fn encode_spec(
    src: Seq<u8>,
    operation: Operation,
    pc: nat,
    labels: Map<Seq<u8>, nat>,
    extensions: Map<Seq<u8>, u32>,
) -> Result<Instruction, AssemblerError> {
    match operation {
        Operation::Ld(LoadOperand::PacketOffset(k)) => with_value_spec(
            BPF_LD | BPF_W | BPF_ABS,
            src,
            k,
        ),
        Operation::Ld(LoadOperand::IndirectPacketOffset(k)) => with_value_spec(
            BPF_LD | BPF_W | BPF_IND,
            src,
            k,
        ),
        Operation::Ld(LoadOperand::MemoryAddress(k)) => with_value_spec(BPF_LD | BPF_MEM, src, k),
        Operation::Ld(LoadOperand::Immediate(k)) => with_value_spec(BPF_LD | BPF_IMM, src, k),
        Operation::Ld(LoadOperand::Length) => Ok(plain(BPF_LD | BPF_W | BPF_LEN, 0)),
        Operation::Ld(LoadOperand::Extension(name)) => with_extension_spec(
            BPF_LD | BPF_W | BPF_ABS,
            src,
            name,
            extensions,
        ),
        Operation::Ldi(k) => with_value_spec(BPF_LD | BPF_IMM, src, k),
        Operation::Ldh(PacketOperand::PacketOffset(k)) => with_value_spec(
            BPF_LD | BPF_H | BPF_ABS,
            src,
            k,
        ),
        Operation::Ldh(PacketOperand::IndirectPacketOffset(k)) => with_value_spec(
            BPF_LD | BPF_H | BPF_IND,
            src,
            k,
        ),
        Operation::Ldh(PacketOperand::Extension(name)) => with_extension_spec(
            BPF_LD | BPF_H | BPF_ABS,
            src,
            name,
            extensions,
        ),
        Operation::Ldb(PacketOperand::PacketOffset(k)) => with_value_spec(
            BPF_LD | BPF_B | BPF_ABS,
            src,
            k,
        ),
        Operation::Ldb(PacketOperand::IndirectPacketOffset(k)) => with_value_spec(
            BPF_LD | BPF_B | BPF_IND,
            src,
            k,
        ),
        Operation::Ldb(PacketOperand::Extension(name)) => with_extension_spec(
            BPF_LD | BPF_B | BPF_ABS,
            src,
            name,
            extensions,
        ),
        Operation::Ldx(IndexOperand::MemoryAddress(k)) => with_value_spec(
            BPF_LDX | BPF_MEM,
            src,
            k,
        ),
        Operation::Ldx(IndexOperand::PacketOffsetMsh(k)) => with_value_spec(
            BPF_LDX | BPF_MSH | BPF_B,
            src,
            k,
        ),
        Operation::Ldx(IndexOperand::Immediate(k)) => with_value_spec(BPF_LDX | BPF_IMM, src, k),
        Operation::Ldx(IndexOperand::Length) => Ok(plain(BPF_LDX | BPF_W | BPF_LEN, 0)),
        Operation::Ldxi(k) => with_value_spec(BPF_LDX | BPF_IMM, src, k),
        Operation::Ldxb(k) => with_value_spec(BPF_LDX | BPF_MSH | BPF_B, src, k),
        Operation::St(k) => with_value_spec(BPF_ST, src, k),
        Operation::Stx(k) => with_value_spec(BPF_STX, src, k),
        Operation::Jmp(target) => jump_always_spec(BPF_JMP | BPF_JA, src, labels, target, pc),
        Operation::Jump(condition, source, on_true, on_false) => conditional_spec(
            BPF_JMP | condition_code(condition) | source_code(source),
            src,
            labels,
            source,
            Some(on_true),
            Some(on_false),
            pc,
        ),
        Operation::JumpIf(condition, source, target) => conditional_spec(
            BPF_JMP | condition_code(condition) | source_code(source),
            src,
            labels,
            source,
            Some(target),
            None,
            pc,
        ),
        Operation::JumpUnless(inverse, source, target) => conditional_spec(
            BPF_JMP | inverse_code(inverse) | source_code(source),
            src,
            labels,
            source,
            None,
            Some(target),
            pc,
        ),
        Operation::Alu(op, source) => arithmetic_spec(
            BPF_ALU | alu_code(op) | source_code(source),
            src,
            source,
        ),
        Operation::Neg => Ok(plain(BPF_ALU | BPF_NEG, 0)),
        Operation::Tax => Ok(plain(BPF_MISC | BPF_TAX, 0)),
        Operation::Txa => Ok(plain(BPF_MISC | BPF_TXA, 0)),
        Operation::Cop(CopOperand::Immediate(k)) => with_value_spec(BPF_MISC | BPF_COP, src, k),
        Operation::Cop(CopOperand::Extension(name)) => with_extension_spec(
            BPF_MISC | BPF_COP,
            src,
            name,
            extensions,
        ),
        Operation::Copx => Ok(plain(BPF_MISC | BPF_COPX, 0)),
        Operation::Ret(ReturnOperand::Immediate(k)) => with_value_spec(BPF_RET | BPF_K, src, k),
        Operation::Ret(ReturnOperand::IndexRegister) => Ok(plain(BPF_RET | BPF_X, 0)),
        Operation::Ret(ReturnOperand::AccumulatorRegister) => Ok(plain(BPF_RET | BPF_A, 0)),
    }
}

/// The `code` of a conditional jump on `test` (`0x10` for equal, `0x20` for
/// greater, `0x30` for greater or equal, `0x40` for any bit set), in
/// numbers: the jump class is `0x05`, and `0x08` says that the index
/// register is compared with.
pub open spec fn jump_opcode(test: u16, source: Source) -> u16 {
    match source {
        Source::Immediate(_) => (0x05 + test) as u16,
        Source::IndexRegister => (0x0d + test) as u16,
    }
}

/// The `code` of every operation, in numbers.
pub open spec fn opcode(operation: Operation) -> u16 {
    match operation {
        Operation::Ld(LoadOperand::PacketOffset(_)) => 0x20,
        Operation::Ld(LoadOperand::IndirectPacketOffset(_)) => 0x40,
        Operation::Ld(LoadOperand::MemoryAddress(_)) => 0x60,
        Operation::Ld(LoadOperand::Immediate(_)) => 0x00,
        Operation::Ld(LoadOperand::Length) => 0x80,
        Operation::Ld(LoadOperand::Extension(_)) => 0x20,
        Operation::Ldi(_) => 0x00,
        Operation::Ldh(PacketOperand::PacketOffset(_)) => 0x28,
        Operation::Ldh(PacketOperand::IndirectPacketOffset(_)) => 0x48,
        Operation::Ldh(PacketOperand::Extension(_)) => 0x28,
        Operation::Ldb(PacketOperand::PacketOffset(_)) => 0x30,
        Operation::Ldb(PacketOperand::IndirectPacketOffset(_)) => 0x50,
        Operation::Ldb(PacketOperand::Extension(_)) => 0x30,
        Operation::Ldx(IndexOperand::MemoryAddress(_)) => 0x61,
        Operation::Ldx(IndexOperand::PacketOffsetMsh(_)) => 0xb1,
        Operation::Ldx(IndexOperand::Immediate(_)) => 0x01,
        Operation::Ldx(IndexOperand::Length) => 0x81,
        Operation::Ldxi(_) => 0x01,
        Operation::Ldxb(_) => 0xb1,
        Operation::St(_) => 0x02,
        Operation::Stx(_) => 0x03,
        Operation::Jmp(_) => 0x05,
        Operation::Jump(Condition::Equal, source, _, _) => jump_opcode(0x10, source),
        Operation::Jump(Condition::Greater, source, _, _) => jump_opcode(0x20, source),
        Operation::Jump(Condition::GreaterOrEqual, source, _, _) => jump_opcode(0x30, source),
        Operation::Jump(Condition::AnyBit, source, _, _) => jump_opcode(0x40, source),
        Operation::JumpIf(Condition::Equal, source, _) => jump_opcode(0x10, source),
        Operation::JumpIf(Condition::Greater, source, _) => jump_opcode(0x20, source),
        Operation::JumpIf(Condition::GreaterOrEqual, source, _) => jump_opcode(0x30, source),
        Operation::JumpIf(Condition::AnyBit, source, _) => jump_opcode(0x40, source),
        Operation::JumpUnless(Inverse::NotEqual, source, _) => jump_opcode(0x10, source),
        Operation::JumpUnless(Inverse::Less, source, _) => jump_opcode(0x30, source),
        Operation::JumpUnless(Inverse::LessOrEqual, source, _) => jump_opcode(0x20, source),
        Operation::Alu(AluOp::Add, Source::Immediate(_)) => 0x04,
        Operation::Alu(AluOp::Add, Source::IndexRegister) => 0x0c,
        Operation::Alu(AluOp::Sub, Source::Immediate(_)) => 0x14,
        Operation::Alu(AluOp::Sub, Source::IndexRegister) => 0x1c,
        Operation::Alu(AluOp::Mul, Source::Immediate(_)) => 0x24,
        Operation::Alu(AluOp::Mul, Source::IndexRegister) => 0x2c,
        Operation::Alu(AluOp::Div, Source::Immediate(_)) => 0x34,
        Operation::Alu(AluOp::Div, Source::IndexRegister) => 0x3c,
        Operation::Alu(AluOp::Or, Source::Immediate(_)) => 0x44,
        Operation::Alu(AluOp::Or, Source::IndexRegister) => 0x4c,
        Operation::Alu(AluOp::And, Source::Immediate(_)) => 0x54,
        Operation::Alu(AluOp::And, Source::IndexRegister) => 0x5c,
        Operation::Alu(AluOp::Lsh, Source::Immediate(_)) => 0x64,
        Operation::Alu(AluOp::Lsh, Source::IndexRegister) => 0x6c,
        Operation::Alu(AluOp::Rsh, Source::Immediate(_)) => 0x74,
        Operation::Alu(AluOp::Rsh, Source::IndexRegister) => 0x7c,
        Operation::Alu(AluOp::Mod, Source::Immediate(_)) => 0x94,
        Operation::Alu(AluOp::Mod, Source::IndexRegister) => 0x9c,
        Operation::Alu(AluOp::Xor, Source::Immediate(_)) => 0xa4,
        Operation::Alu(AluOp::Xor, Source::IndexRegister) => 0xac,
        Operation::Neg => 0x84,
        Operation::Tax => 0x07,
        Operation::Txa => 0x87,
        Operation::Cop(_) => 0x27,
        Operation::Copx => 0x47,
        Operation::Ret(ReturnOperand::Immediate(_)) => 0x06,
        Operation::Ret(ReturnOperand::IndexRegister) => 0x0e,
        Operation::Ret(ReturnOperand::AccumulatorRegister) => 0x16,
    }
}

/// The fields of `code` put together give the numbers of the table.
pub proof fn lemma_opcode(
    src: Seq<u8>,
    operation: Operation,
    pc: nat,
    labels: Map<Seq<u8>, nat>,
    extensions: Map<Seq<u8>, u32>,
)
    ensures
        encode_spec(src, operation, pc, labels, extensions) matches Ok(instruction)
            ==> instruction.code == opcode(operation),
{
    assert(0x00u16 | 0x00u16 | 0x20u16 == 0x20u16 && 0x00u16 | 0x00u16 | 0x40u16 == 0x40u16
        && 0x00u16 | 0x60u16 == 0x60u16 && 0x00u16 | 0x00u16 == 0x00u16 && 0x00u16 | 0x00u16
        | 0x80u16 == 0x80u16 && 0x00u16 | 0x08u16 | 0x20u16 == 0x28u16 && 0x00u16 | 0x08u16
        | 0x40u16 == 0x48u16 && 0x00u16 | 0x10u16 | 0x20u16 == 0x30u16 && 0x00u16 | 0x10u16
        | 0x40u16 == 0x50u16 && 0x01u16 | 0x60u16 == 0x61u16 && 0x01u16 | 0xa0u16 | 0x10u16
        == 0xb1u16 && 0x01u16 | 0x00u16 == 0x01u16 && 0x01u16 | 0x00u16 | 0x80u16 == 0x81u16)
        by (bit_vector);
    assert(0x05u16 | 0x00u16 == 0x05u16 && 0x05u16 | 0x10u16 | 0x00u16 == 0x15u16 && 0x05u16
        | 0x10u16 | 0x08u16 == 0x1du16 && 0x05u16 | 0x20u16 | 0x00u16 == 0x25u16 && 0x05u16
        | 0x20u16 | 0x08u16 == 0x2du16 && 0x05u16 | 0x30u16 | 0x00u16 == 0x35u16 && 0x05u16
        | 0x30u16 | 0x08u16 == 0x3du16 && 0x05u16 | 0x40u16 | 0x00u16 == 0x45u16 && 0x05u16
        | 0x40u16 | 0x08u16 == 0x4du16) by (bit_vector);
    assert(0x04u16 | 0x00u16 | 0x00u16 == 0x04u16 && 0x04u16 | 0x00u16 | 0x08u16 == 0x0cu16
        && 0x04u16 | 0x10u16 | 0x00u16 == 0x14u16 && 0x04u16 | 0x10u16 | 0x08u16 == 0x1cu16
        && 0x04u16 | 0x20u16 | 0x00u16 == 0x24u16 && 0x04u16 | 0x20u16 | 0x08u16 == 0x2cu16
        && 0x04u16 | 0x30u16 | 0x00u16 == 0x34u16 && 0x04u16 | 0x30u16 | 0x08u16 == 0x3cu16
        && 0x04u16 | 0x40u16 | 0x00u16 == 0x44u16 && 0x04u16 | 0x40u16 | 0x08u16 == 0x4cu16
        && 0x04u16 | 0x50u16 | 0x00u16 == 0x54u16 && 0x04u16 | 0x50u16 | 0x08u16 == 0x5cu16
        && 0x04u16 | 0x60u16 | 0x00u16 == 0x64u16 && 0x04u16 | 0x60u16 | 0x08u16 == 0x6cu16
        && 0x04u16 | 0x70u16 | 0x00u16 == 0x74u16 && 0x04u16 | 0x70u16 | 0x08u16 == 0x7cu16
        && 0x04u16 | 0x90u16 | 0x00u16 == 0x94u16 && 0x04u16 | 0x90u16 | 0x08u16 == 0x9cu16
        && 0x04u16 | 0xa0u16 | 0x00u16 == 0xa4u16 && 0x04u16 | 0xa0u16 | 0x08u16 == 0xacu16
        && 0x04u16 | 0x80u16 == 0x84u16) by (bit_vector);
    assert(0x07u16 | 0x00u16 == 0x07u16 && 0x07u16 | 0x80u16 == 0x87u16 && 0x07u16 | 0x20u16
        == 0x27u16 && 0x07u16 | 0x40u16 == 0x47u16 && 0x06u16 | 0x00u16 == 0x06u16 && 0x06u16
        | 0x08u16 == 0x0eu16 && 0x06u16 | 0x10u16 == 0x16u16) by (bit_vector);
}

/// The instructions of the first `upto` statements, or the first error met
/// while encoding them in order.
pub open spec fn encode_upto(
    src: Seq<u8>,
    statements: Seq<Statement>,
    labels: Map<Seq<u8>, nat>,
    extensions: Map<Seq<u8>, u32>,
    upto: int,
) -> Result<Seq<Instruction>, AssemblerError>
    decreases upto,
{
    if upto <= 0 {
        Ok(Seq::empty())
    } else {
        match encode_upto(src, statements, labels, extensions, upto - 1) {
            Err(e) => Err(e),
            Ok(done) => match statements[upto - 1] {
                Statement::Label(_) => Ok(done),
                Statement::Operation(operation) => match encode_spec(
                    src,
                    operation,
                    operations_before(statements, upto - 1),
                    labels,
                    extensions,
                ) {
                    Ok(instruction) => Ok(done.push(instruction)),
                    Err(e) => Err(e),
                },
            },
        }
    }
}

/// The instructions of a whole program under a given label table.
pub open spec fn encode_program_spec(
    src: Seq<u8>,
    statements: Seq<Statement>,
    labels: Map<Seq<u8>, nat>,
    extensions: Map<Seq<u8>, u32>,
) -> Result<Seq<Instruction>, AssemblerError> {
    encode_upto(src, statements, labels, extensions, statements.len() as int)
}

/// Once a prefix of a program fails to encode, every longer prefix fails in
/// the same way.
pub proof fn lemma_encode_error_stays(
    src: Seq<u8>,
    statements: Seq<Statement>,
    labels: Map<Seq<u8>, nat>,
    extensions: Map<Seq<u8>, u32>,
    from: int,
    upto: int,
)
    requires
        from <= upto,
        encode_upto(src, statements, labels, extensions, from) is Err,
    ensures
        encode_upto(src, statements, labels, extensions, upto) == encode_upto(
            src,
            statements,
            labels,
            extensions,
            from,
        ),
    decreases upto - from,
{
    if from < upto {
        lemma_encode_error_stays(src, statements, labels, extensions, from, upto - 1);
    }
}

/// Builds the instruction `code` whose operand is the literal at `k`.
fn with_value(code: u16, src: &[u8], k: Span) -> (r: Result<Instruction, AssemblerError>)
    requires
        k.fits(src@.len()),
    ensures
        r == with_value_spec(code, src@, k),
{
    match evaluate(src, k) {
        Ok(v) => Ok(Instruction { code, jt: 0, jf: 0, k: v }),
        Err(e) => Err(e),
    }
}

/// Builds the instruction `code` whose operand is the code of the extension
/// named at `name`.
fn with_extension(code: u16, src: &[u8], name: Span, extensions: &ExtensionTable) -> (r: Result<
    Instruction,
    AssemblerError,
>)
    requires
        name.fits(src@.len()),
    ensures
        r == with_extension_spec(code, src@, name, extensions@),
{
    match extensions.find_text(src, name) {
        Some(v) => Ok(Instruction { code, jt: 0, jf: 0, k: v }),
        None => Err(AssemblerError::UndeclaredExtension(name)),
    }
}

/// Resolves the label at `target` for a jump at `pc`.
///
/// Fails with `UndeclaredLabel` when no statement declares the name, and
/// with `UnreachableLabel` when the label is bound to `pc` or before it.
fn resolve(src: &[u8], labels: &LabelTable, target: Span, pc: usize) -> (r: Result<
    usize,
    AssemblerError,
>)
    requires
        labels.fits(src@.len()),
        target.fits(src@.len()),
    ensures
        match r {
            Ok(d) => displacement(src@, labels.bindings(src@), target, pc as nat) == Ok::<
                nat,
                AssemblerError,
            >(d as nat),
            Err(e) => displacement(src@, labels.bindings(src@), target, pc as nat) == Err::<
                nat,
                AssemblerError,
            >(e),
        },
{
    match labels.find(src, target) {
        Some(at) => if at > pc {
            Ok(at - pc - 1)
        } else {
            Err(AssemblerError::UnreachableLabel(target))
        },
        None => Err(AssemblerError::UndeclaredLabel(target)),
    }
}

/// Builds the unconditional jump `code` from `pc` to the label at `target`.
fn jump_always(code: u16, src: &[u8], labels: &LabelTable, target: Span, pc: usize) -> (r: Result<
    Instruction,
    AssemblerError,
>)
    requires
        labels.fits(src@.len()),
        target.fits(src@.len()),
    ensures
        r == jump_always_spec(code, src@, labels.bindings(src@), target, pc as nat),
{
    match resolve(src, labels, target, pc) {
        Ok(d) => Ok(Instruction { code, jt: 0, jf: 0, k: (d as u64 % 0x1_0000_0000) as u32 }),
        Err(e) => Err(e),
    }
}

/// Computes one branch field of a conditional jump at `pc`.
fn branch(src: &[u8], labels: &LabelTable, target: Option<Span>, pc: usize) -> (r: Result<
    u8,
    AssemblerError,
>)
    requires
        labels.fits(src@.len()),
        target matches Some(t) ==> t.fits(src@.len()),
    ensures
        r == branch_spec(src@, labels.bindings(src@), target, pc as nat),
{
    match target {
        None => Ok(0),
        Some(t) => match resolve(src, labels, t, pc) {
            Ok(d) => Ok((d % 0x100) as u8),
            Err(e) => Err(e),
        },
    }
}

/// Evaluates the second operand of an arithmetic or a jump operation.
fn value_of(src: &[u8], source: Source) -> (r: Result<u32, AssemblerError>)
    requires
        source.fits(src@.len()),
    ensures
        r == source_value(src@, source),
{
    match source {
        Source::IndexRegister => Ok(0),
        Source::Immediate(k) => evaluate(src, k),
    }
}

/// The bit of `code` that says where the second operand comes from.
fn source_bit(source: Source) -> (r: u16)
    ensures
        r == source_code(source),
{
    match source {
        Source::IndexRegister => BPF_X,
        Source::Immediate(_) => BPF_K,
    }
}

/// Builds the conditional jump `code` at `pc`.
fn conditional(
    code: u16,
    src: &[u8],
    labels: &LabelTable,
    source: Source,
    on_true: Option<Span>,
    on_false: Option<Span>,
    pc: usize,
) -> (r: Result<Instruction, AssemblerError>)
    requires
        labels.fits(src@.len()),
        source.fits(src@.len()),
        on_true matches Some(t) ==> t.fits(src@.len()),
        on_false matches Some(t) ==> t.fits(src@.len()),
    ensures
        r == conditional_spec(code, src@, labels.bindings(src@), source, on_true, on_false, pc as nat),
{
    let k = match value_of(src, source) {
        Ok(k) => k,
        Err(e) => { return Err(e); },
    };
    let jt = match branch(src, labels, on_true, pc) {
        Ok(jt) => jt,
        Err(e) => { return Err(e); },
    };
    let jf = match branch(src, labels, on_false, pc) {
        Ok(jf) => jf,
        Err(e) => { return Err(e); },
    };
    Ok(Instruction { code, jt, jf, k })
}

/// Builds the arithmetic instruction `code` with its second operand.
fn arithmetic(code: u16, src: &[u8], source: Source) -> (r: Result<Instruction, AssemblerError>)
    requires
        source.fits(src@.len()),
    ensures
        r == arithmetic_spec(code, src@, source),
{
    match value_of(src, source) {
        Ok(k) => Ok(Instruction { code, jt: 0, jf: 0, k }),
        Err(e) => Err(e),
    }
}

/// The test field of a conditional jump.
fn condition_bits(condition: Condition) -> (r: u16)
    ensures
        r == condition_code(condition),
{
    match condition {
        Condition::Equal => BPF_JEQ,
        Condition::Greater => BPF_JGT,
        Condition::GreaterOrEqual => BPF_JGE,
        Condition::AnyBit => BPF_JSET,
    }
}

/// The test whose failure an inverse test branches on.
fn inverse_bits(inverse: Inverse) -> (r: u16)
    ensures
        r == inverse_code(inverse),
{
    match inverse {
        Inverse::NotEqual => BPF_JEQ,
        Inverse::Less => BPF_JGE,
        Inverse::LessOrEqual => BPF_JGT,
    }
}

/// The operation field of an arithmetic instruction.
fn alu_bits(op: AluOp) -> (r: u16)
    ensures
        r == alu_code(op),
{
    match op {
        AluOp::Add => BPF_ADD,
        AluOp::Sub => BPF_SUB,
        AluOp::Mul => BPF_MUL,
        AluOp::Div => BPF_DIV,
        AluOp::Mod => BPF_MOD,
        AluOp::And => BPF_AND,
        AluOp::Or => BPF_OR,
        AluOp::Xor => BPF_XOR,
        AluOp::Lsh => BPF_LSH,
        AluOp::Rsh => BPF_RSH,
    }
}

/// Encodes one operation that stands at program counter `pc`.
///
/// The mnemonic and the operand shape choose the `code`; an immediate is
/// evaluated, an extension is looked up in `extensions`, and a jump target
/// is resolved against `labels`.
pub fn encode(
    src: &[u8],
    operation: Operation,
    pc: usize,
    labels: &LabelTable,
    extensions: &ExtensionTable,
) -> (r: Result<Instruction, AssemblerError>)
    requires
        operation.fits(src@.len()),
        labels.fits(src@.len()),
    ensures
        r == encode_spec(src@, operation, pc as nat, labels.bindings(src@), extensions@),
        r matches Ok(instruction) ==> instruction.code == opcode(operation),
        operation.settled(src@) ==> (r matches Err(e) ==> e.settled(src@)),
{
    proof {
        lemma_opcode(src@, operation, pc as nat, labels.bindings(src@), extensions@);
    }
    match operation {
        Operation::Ld(LoadOperand::PacketOffset(k)) => with_value(BPF_LD | BPF_W | BPF_ABS, src, k),
        Operation::Ld(LoadOperand::IndirectPacketOffset(k)) => with_value(
            BPF_LD | BPF_W | BPF_IND,
            src,
            k,
        ),
        Operation::Ld(LoadOperand::MemoryAddress(k)) => with_value(BPF_LD | BPF_MEM, src, k),
        Operation::Ld(LoadOperand::Immediate(k)) => with_value(BPF_LD | BPF_IMM, src, k),
        Operation::Ld(LoadOperand::Length) => Ok(
            Instruction { code: BPF_LD | BPF_W | BPF_LEN, jt: 0, jf: 0, k: 0 },
        ),
        Operation::Ld(LoadOperand::Extension(name)) => with_extension(
            BPF_LD | BPF_W | BPF_ABS,
            src,
            name,
            extensions,
        ),
        Operation::Ldi(k) => with_value(BPF_LD | BPF_IMM, src, k),
        Operation::Ldh(PacketOperand::PacketOffset(k)) => with_value(
            BPF_LD | BPF_H | BPF_ABS,
            src,
            k,
        ),
        Operation::Ldh(PacketOperand::IndirectPacketOffset(k)) => with_value(
            BPF_LD | BPF_H | BPF_IND,
            src,
            k,
        ),
        Operation::Ldh(PacketOperand::Extension(name)) => with_extension(
            BPF_LD | BPF_H | BPF_ABS,
            src,
            name,
            extensions,
        ),
        Operation::Ldb(PacketOperand::PacketOffset(k)) => with_value(
            BPF_LD | BPF_B | BPF_ABS,
            src,
            k,
        ),
        Operation::Ldb(PacketOperand::IndirectPacketOffset(k)) => with_value(
            BPF_LD | BPF_B | BPF_IND,
            src,
            k,
        ),
        Operation::Ldb(PacketOperand::Extension(name)) => with_extension(
            BPF_LD | BPF_B | BPF_ABS,
            src,
            name,
            extensions,
        ),
        Operation::Ldx(IndexOperand::MemoryAddress(k)) => with_value(BPF_LDX | BPF_MEM, src, k),
        Operation::Ldx(IndexOperand::PacketOffsetMsh(k)) => with_value(
            BPF_LDX | BPF_MSH | BPF_B,
            src,
            k,
        ),
        Operation::Ldx(IndexOperand::Immediate(k)) => with_value(BPF_LDX | BPF_IMM, src, k),
        Operation::Ldx(IndexOperand::Length) => Ok(
            Instruction { code: BPF_LDX | BPF_W | BPF_LEN, jt: 0, jf: 0, k: 0 },
        ),
        Operation::Ldxi(k) => with_value(BPF_LDX | BPF_IMM, src, k),
        Operation::Ldxb(k) => with_value(BPF_LDX | BPF_MSH | BPF_B, src, k),
        Operation::St(k) => with_value(BPF_ST, src, k),
        Operation::Stx(k) => with_value(BPF_STX, src, k),
        Operation::Jmp(target) => jump_always(BPF_JMP | BPF_JA, src, labels, target, pc),
        Operation::Jump(condition, source, on_true, on_false) => conditional(
            BPF_JMP | condition_bits(condition) | source_bit(source),
            src,
            labels,
            source,
            Some(on_true),
            Some(on_false),
            pc,
        ),
        Operation::JumpIf(condition, source, target) => conditional(
            BPF_JMP | condition_bits(condition) | source_bit(source),
            src,
            labels,
            source,
            Some(target),
            None,
            pc,
        ),
        Operation::JumpUnless(inverse, source, target) => conditional(
            BPF_JMP | inverse_bits(inverse) | source_bit(source),
            src,
            labels,
            source,
            None,
            Some(target),
            pc,
        ),
        Operation::Alu(op, source) => arithmetic(
            BPF_ALU | alu_bits(op) | source_bit(source),
            src,
            source,
        ),
        Operation::Neg => Ok(Instruction { code: BPF_ALU | BPF_NEG, jt: 0, jf: 0, k: 0 }),
        Operation::Tax => Ok(Instruction { code: BPF_MISC | BPF_TAX, jt: 0, jf: 0, k: 0 }),
        Operation::Txa => Ok(Instruction { code: BPF_MISC | BPF_TXA, jt: 0, jf: 0, k: 0 }),
        Operation::Cop(CopOperand::Immediate(k)) => with_value(BPF_MISC | BPF_COP, src, k),
        Operation::Cop(CopOperand::Extension(name)) => with_extension(
            BPF_MISC | BPF_COP,
            src,
            name,
            extensions,
        ),
        Operation::Copx => Ok(Instruction { code: BPF_MISC | BPF_COPX, jt: 0, jf: 0, k: 0 }),
        Operation::Ret(ReturnOperand::Immediate(k)) => with_value(BPF_RET | BPF_K, src, k),
        Operation::Ret(ReturnOperand::IndexRegister) => Ok(
            Instruction { code: BPF_RET | BPF_X, jt: 0, jf: 0, k: 0 },
        ),
        Operation::Ret(ReturnOperand::AccumulatorRegister) => Ok(
            Instruction { code: BPF_RET | BPF_A, jt: 0, jf: 0, k: 0 },
        ),
    }
}

/// Runs the second pass over `statements`, which were read from `src`, with
/// the labels that the first pass bound.
///
/// The result is the instruction of every operation, in order, or the first
/// error met; nothing is returned of a program that fails.
pub fn encode_program(
    src: &[u8],
    statements: &[Statement],
    labels: &LabelTable,
    extensions: &ExtensionTable,
) -> (r: Result<Vec<Instruction>, AssemblerError>)
    requires
        all_fit(statements@, src@.len()),
        labels.fits(src@.len()),
    ensures
        match r {
            Ok(instructions) => encode_program_spec(
                src@,
                statements@,
                labels.bindings(src@),
                extensions@,
            ) == Ok::<Seq<Instruction>, AssemblerError>(instructions@),
            Err(e) => encode_program_spec(src@, statements@, labels.bindings(src@), extensions@)
                == Err::<Seq<Instruction>, AssemblerError>(e),
        },
        all_settled(statements@, src@) ==> (r matches Err(e) ==> e.settled(src@)),
{
    let mut instructions: Vec<Instruction> = Vec::new();
    let mut pc: usize = 0;
    let mut i: usize = 0;
    while i < statements.len()
        invariant
            i <= statements@.len(),
            all_fit(statements@, src@.len()),
            labels.fits(src@.len()),
            pc == operations_before(statements@, i as int),
            pc <= i,
            encode_upto(src@, statements@, labels.bindings(src@), extensions@, i as int) == Ok::<
                Seq<Instruction>,
                AssemblerError,
            >(instructions@),
        decreases statements@.len() - i,
    {
        assert(statements@[i as int].fits(src@.len()));
        match statements[i] {
            Statement::Label(_) => {},
            Statement::Operation(operation) => {
                match encode(src, operation, pc, labels, extensions) {
                    Ok(instruction) => {
                        instructions.push(instruction);
                    },
                    Err(e) => {
                        proof {
                            lemma_encode_error_stays(
                                src@,
                                statements@,
                                labels.bindings(src@),
                                extensions@,
                                i + 1,
                                statements@.len() as int,
                            );
                        }
                        return Err(e);
                    },
                }
                pc += 1;
            },
        }
        i += 1;
    }
    Ok(instructions)
}

} // verus!
