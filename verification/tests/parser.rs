//! The statements that the parser reads.

use bpfasm::error::Expected;
use bpfasm::parser::{mnemonic_of, parse, read_operation, read_statement, Mnemonic};
use bpfasm::statement::{
    AluOp, Condition, CopOperand, IndexOperand, Inverse, LoadOperand, Operation, PacketOperand,
    ReturnOperand, Source, Statement,
};
use bpfasm::{AssemblerError, Span};

fn span(start: usize, end: usize) -> Span {
    Span { start, end }
}

fn only(source: &str) -> Statement {
    let statements = parse(source.as_bytes()).unwrap();
    assert_eq!(statements.len(), 1, "{:?}", source);
    statements[0]
}

#[test]
fn labels_and_operations() {
    let statements = parse(b"start: ld [4]\n  end :ret a").unwrap();
    assert_eq!(
        statements,
        vec![
            Statement::Label(span(0, 5)),
            Statement::Operation(Operation::Ld(LoadOperand::PacketOffset(span(11, 12)))),
            Statement::Label(span(16, 19)),
            Statement::Operation(Operation::Ret(ReturnOperand::AccumulatorRegister)),
        ]
    );
}

#[test]
fn a_word_before_a_colon_is_a_label() {
    assert_eq!(only("ret:"), Statement::Label(span(0, 3)));
    assert_eq!(only("_x1 /* here */ :"), Statement::Label(span(0, 3)));
}

#[test]
fn comments_and_blanks_between_tokens() {
    let source = "ld /* a */ [ ; b\n x\t+\r\n 0x10 /* c */ ] ; d";
    assert_eq!(
        only(source),
        Statement::Operation(Operation::Ld(LoadOperand::IndirectPacketOffset(span(24, 28))))
    );
    assert_eq!(&source[24..28], "0x10");
}

#[test]
fn load_operands() {
    assert_eq!(only("ld M[7]"), Statement::Operation(Operation::Ld(LoadOperand::MemoryAddress(span(5, 6)))));
    assert_eq!(only("ld #-7"), Statement::Operation(Operation::Ld(LoadOperand::Immediate(span(4, 6)))));
    assert_eq!(only("ld len"), Statement::Operation(Operation::Ld(LoadOperand::Length)));
    assert_eq!(only("ld # len"), Statement::Operation(Operation::Ld(LoadOperand::Length)));
    assert_eq!(only("ld lens"), Statement::Operation(Operation::Ld(LoadOperand::Extension(span(3, 7)))));
    assert_eq!(only("ld #rand"), Statement::Operation(Operation::Ld(LoadOperand::Extension(span(4, 8)))));
    assert_eq!(only("ldi #1"), Statement::Operation(Operation::Ldi(span(5, 6))));
    assert_eq!(only("ldh [1]"), Statement::Operation(Operation::Ldh(PacketOperand::PacketOffset(span(5, 6)))));
    assert_eq!(
        only("ldb [x+1]"),
        Statement::Operation(Operation::Ldb(PacketOperand::IndirectPacketOffset(span(7, 8))))
    );
    assert_eq!(only("ldh len"), Statement::Operation(Operation::Ldh(PacketOperand::Extension(span(4, 7)))));
    assert_eq!(only("ldx M[2]"), Statement::Operation(Operation::Ldx(IndexOperand::MemoryAddress(span(6, 7)))));
    assert_eq!(only("ldx #2"), Statement::Operation(Operation::Ldx(IndexOperand::Immediate(span(5, 6)))));
    assert_eq!(only("ldx len"), Statement::Operation(Operation::Ldx(IndexOperand::Length)));
    assert_eq!(
        only("ldx 4*([2]&0xf)"),
        Statement::Operation(Operation::Ldx(IndexOperand::PacketOffsetMsh(span(8, 9))))
    );
    assert_eq!(only("ldxi #2"), Statement::Operation(Operation::Ldxi(span(6, 7))));
    assert_eq!(only("ldxb 4 * ( [ 2 ] & 0xF )"), Statement::Operation(Operation::Ldxb(span(13, 14))));
    assert_eq!(only("st M[3]"), Statement::Operation(Operation::St(span(5, 6))));
    assert_eq!(only("stx M[3]"), Statement::Operation(Operation::Stx(span(6, 7))));
}

#[test]
fn jump_operands() {
    assert_eq!(only("jmp out"), Statement::Operation(Operation::Jmp(span(4, 7))));
    assert_eq!(only("ja x"), Statement::Operation(Operation::Jmp(span(3, 4))));
    assert_eq!(
        only("jeq x, a, b"),
        Statement::Operation(Operation::Jump(Condition::Equal, Source::IndexRegister, span(7, 8), span(10, 11)))
    );
    assert_eq!(
        only("jset #1, a"),
        Statement::Operation(Operation::JumpIf(Condition::AnyBit, Source::Immediate(span(6, 7)), span(9, 10)))
    );
    assert_eq!(
        only("jgt #1,a"),
        Statement::Operation(Operation::JumpIf(Condition::Greater, Source::Immediate(span(5, 6)), span(7, 8)))
    );
    assert_eq!(
        only("jge x,a"),
        Statement::Operation(Operation::JumpIf(Condition::GreaterOrEqual, Source::IndexRegister, span(6, 7)))
    );
    assert_eq!(
        only("jne x, a"),
        Statement::Operation(Operation::JumpUnless(Inverse::NotEqual, Source::IndexRegister, span(7, 8)))
    );
    assert_eq!(
        only("jlt #2, a"),
        Statement::Operation(Operation::JumpUnless(Inverse::Less, Source::Immediate(span(5, 6)), span(8, 9)))
    );
    assert_eq!(
        only("jle x, a"),
        Statement::Operation(Operation::JumpUnless(Inverse::LessOrEqual, Source::IndexRegister, span(7, 8)))
    );
}

#[test]
fn one_target_jump_followed_by_a_label() {
    let statements = parse(b"jeq x, a\nb: ret a\na:").unwrap();
    assert_eq!(statements.len(), 4);
    assert_eq!(
        statements[0],
        Statement::Operation(Operation::JumpIf(Condition::Equal, Source::IndexRegister, span(7, 8)))
    );
    assert_eq!(statements[1], Statement::Label(span(9, 10)));
}

#[test]
fn other_operands() {
    assert_eq!(only("add x"), Statement::Operation(Operation::Alu(AluOp::Add, Source::IndexRegister)));
    assert_eq!(only("xor #3"), Statement::Operation(Operation::Alu(AluOp::Xor, Source::Immediate(span(5, 6)))));
    assert_eq!(only("neg"), Statement::Operation(Operation::Neg));
    assert_eq!(only("tax"), Statement::Operation(Operation::Tax));
    assert_eq!(only("txa"), Statement::Operation(Operation::Txa));
    assert_eq!(only("copx"), Statement::Operation(Operation::Copx));
    assert_eq!(only("cop #1"), Statement::Operation(Operation::Cop(CopOperand::Immediate(span(5, 6)))));
    assert_eq!(only("cop fpu"), Statement::Operation(Operation::Cop(CopOperand::Extension(span(4, 7)))));
    assert_eq!(only("ret x"), Statement::Operation(Operation::Ret(ReturnOperand::IndexRegister)));
    assert_eq!(only("ret #0"), Statement::Operation(Operation::Ret(ReturnOperand::Immediate(span(5, 6)))));
}

#[test]
fn mnemonics() {
    let words: [(&str, Option<Mnemonic>); 40] = [
        ("ld", Some(Mnemonic::Ld)),
        ("ldi", Some(Mnemonic::Ldi)),
        ("ldh", Some(Mnemonic::Ldh)),
        ("ldb", Some(Mnemonic::Ldb)),
        ("ldx", Some(Mnemonic::Ldx)),
        ("ldxi", Some(Mnemonic::Ldxi)),
        ("ldxb", Some(Mnemonic::Ldxb)),
        ("st", Some(Mnemonic::St)),
        ("stx", Some(Mnemonic::Stx)),
        ("jmp", Some(Mnemonic::Jmp)),
        ("ja", Some(Mnemonic::Jmp)),
        ("jeq", Some(Mnemonic::Jump(Condition::Equal))),
        ("jneq", Some(Mnemonic::JumpUnless(Inverse::NotEqual))),
        ("jne", Some(Mnemonic::JumpUnless(Inverse::NotEqual))),
        ("jlt", Some(Mnemonic::JumpUnless(Inverse::Less))),
        ("jle", Some(Mnemonic::JumpUnless(Inverse::LessOrEqual))),
        ("jgt", Some(Mnemonic::Jump(Condition::Greater))),
        ("jge", Some(Mnemonic::Jump(Condition::GreaterOrEqual))),
        ("jset", Some(Mnemonic::Jump(Condition::AnyBit))),
        ("add", Some(Mnemonic::Alu(AluOp::Add))),
        ("sub", Some(Mnemonic::Alu(AluOp::Sub))),
        ("mul", Some(Mnemonic::Alu(AluOp::Mul))),
        ("div", Some(Mnemonic::Alu(AluOp::Div))),
        ("mod", Some(Mnemonic::Alu(AluOp::Mod))),
        ("neg", Some(Mnemonic::Neg)),
        ("and", Some(Mnemonic::Alu(AluOp::And))),
        ("or", Some(Mnemonic::Alu(AluOp::Or))),
        ("xor", Some(Mnemonic::Alu(AluOp::Xor))),
        ("lsh", Some(Mnemonic::Alu(AluOp::Lsh))),
        ("rsh", Some(Mnemonic::Alu(AluOp::Rsh))),
        ("tax", Some(Mnemonic::Tax)),
        ("txa", Some(Mnemonic::Txa)),
        ("cop", Some(Mnemonic::Cop)),
        ("copx", Some(Mnemonic::Copx)),
        ("ret", Some(Mnemonic::Ret)),
        ("LD", None),
        ("l", None),
        ("ldxx", None),
        ("", None),
        ("jmpp", None),
    ];
    for (word, expected) in words {
        assert_eq!(mnemonic_of(word.as_bytes(), span(0, word.len())), expected, "{:?}", word);
    }
}

#[test]
fn reading_from_an_offset() {
    let src = b"ld [4] ret #1";
    assert_eq!(
        read_statement(src, 6),
        Ok((Statement::Operation(Operation::Ret(ReturnOperand::Immediate(span(12, 13)))), 13))
    );
    assert_eq!(
        read_operation(src, Mnemonic::Ld, 2),
        Ok((Operation::Ld(LoadOperand::PacketOffset(span(4, 5))), 6))
    );
    assert_eq!(read_operation(src, Mnemonic::Neg, 2), Ok((Operation::Neg, 2)));
    assert_eq!(
        read_statement(src, 13),
        Err(AssemblerError::Syntax { expected: Expected::Statement, at: 13 })
    );
}

#[test]
fn rejected_shapes() {
    let cases = [
        ("ldh #4", Expected::Operand, 5),
        ("ldb M[1]", Expected::Statement, 5),
        ("ldx [1]", Expected::Operand, 4),
        ("ldx proto", Expected::Operand, 4),
        ("ldx #proto", Expected::Operand, 5),
        ("ldx 5*([1]&0xf)", Expected::Operand, 4),
        ("ldx 4*([1]&0xff)", Expected::Operand, 11),
        ("ldxb M[1]", Expected::Integer, 5),
        ("st [1]", Expected::Operand, 3),
        ("st m[1]", Expected::Operand, 3),
        ("stx #1", Expected::Operand, 4),
        ("jmp #1", Expected::Label, 4),
        ("jeq a, out", Expected::Operand, 4),
        ("jeq xy, out", Expected::Operand, 4),
        ("jne #1, a, b", Expected::Statement, 9),
        ("add a", Expected::Operand, 4),
        ("add [1]", Expected::Operand, 4),
        ("ret [1]", Expected::Operand, 4),
        ("ret ax", Expected::Operand, 4),
        ("ret #", Expected::Integer, 5),
        ("ret #-", Expected::Integer, 5),
        ("ret #+1", Expected::Integer, 5),
        ("neg x", Expected::Statement, 4),
        ("ld", Expected::Operand, 2),
        ("ld %x", Expected::Operand, 3),
        ("ld [x+1", Expected::Symbol(b']'), 7),
        ("/* open", Expected::CommentEnd, 0),
        ("ret a /", Expected::Statement, 6),
        ("ret a $", Expected::Statement, 6),
        ("\u{e9}: ret a", Expected::Statement, 0),
    ];
    let mut wrong = Vec::new();
    for (source, expected, at) in cases {
        let got = parse(source.as_bytes());
        if got != Err(AssemblerError::Syntax { expected, at }) {
            wrong.push(format!("{:?}: {:?}", source, got));
        }
    }
    assert_eq!(wrong, Vec::<String>::new());
}

#[test]
fn bytes_that_are_not_text() {
    // comments may hold any bytes
    let statements = parse(b"; \xff\xfe\n ret a /* \x80 */").unwrap();
    assert_eq!(statements, vec![Statement::Operation(Operation::Ret(ReturnOperand::AccumulatorRegister))]);
    assert_eq!(
        parse(b"ret \xff"),
        Err(AssemblerError::Syntax { expected: Expected::Operand, at: 4 })
    );
}
