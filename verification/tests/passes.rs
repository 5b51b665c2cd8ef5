//! The two passes, each alone, and the harness for arbitrary bytes.

use bpfasm::encoder::{encode, encode_program};
use bpfasm::extensions::{linux, ExtensionTable};
use bpfasm::labels::bind_labels;
use bpfasm::lexer::{find_block_end, find_line_end, find_word_end, read_integer, read_symbol, read_word, skip};
use bpfasm::error::Expected;
use bpfasm::parser::parse;
use bpfasm::span::{same_text, text_is};
use bpfasm::statement::{Condition, Operation, Source};
use bpfasm::{assemble, assemble_bytes, fuzz, AssemblerError, Instruction, Span};

fn span(start: usize, end: usize) -> Span {
    Span { start, end }
}

#[test]
fn labels_are_bound_to_the_next_operation() {
    let src = b"a: ret #0\nb: c: ret #1\nret #2\nd:";
    let statements = parse(src).unwrap();
    let labels = bind_labels(src, &statements).unwrap();
    assert_eq!(labels.find(src, span(0, 1)), Some(0));
    assert_eq!(labels.find(src, span(10, 11)), Some(1));
    assert_eq!(labels.find(src, span(13, 14)), Some(1));
    assert_eq!(labels.find(src, span(30, 31)), Some(3));
    // any other place that spells the name finds the label too
    assert_eq!(labels.find(src, span(3, 4)), None);
    assert_eq!(labels.find(src, span(0, 0)), None);
}

#[test]
fn first_pass_reports_the_later_declaration() {
    let src = b"a: b: a: b:";
    let statements = parse(src).unwrap();
    assert_eq!(bind_labels(src, &statements).err(), Some(AssemblerError::RedeclaredLabel(span(6, 7))));
}

#[test]
fn encoding_one_operation() {
    let src = b"jeq #0x10, near, far\nnear: ret a\nfar: ret x";
    let statements = parse(src).unwrap();
    let labels = bind_labels(src, &statements).unwrap();
    let table = ExtensionTable::new();
    let jump = Operation::Jump(Condition::Equal, Source::Immediate(span(5, 9)), span(11, 15), span(17, 20));
    assert_eq!(
        encode(src, jump, 0, &labels, &table),
        Ok(Instruction { code: 0x15, jt: 0, jf: 1, k: 16 })
    );
    // the same operation, were it to stand at the first target
    assert_eq!(
        encode(src, jump, 1, &labels, &table),
        Err(AssemblerError::UnreachableLabel(span(11, 15)))
    );
    assert_eq!(
        encode(src, Operation::Jmp(span(17, 20)), 0, &labels, &table),
        Ok(Instruction { code: 0x05, jt: 0, jf: 0, k: 1 })
    );
    assert_eq!(
        encode(src, Operation::Jmp(span(0, 3)), 0, &labels, &table),
        Err(AssemblerError::UndeclaredLabel(span(0, 3)))
    );
}

#[test]
fn second_pass_alone() {
    let src = b"ld rand\njmp end\nend: ret a";
    let statements = parse(src).unwrap();
    let labels = bind_labels(src, &statements).unwrap();
    assert_eq!(
        encode_program(src, &statements, &labels, &linux()),
        Ok(vec![
            Instruction { code: 0x20, jt: 0, jf: 0, k: 0xFFFFF038 },
            Instruction { code: 0x05, jt: 0, jf: 0, k: 0 },
            Instruction { code: 0x16, jt: 0, jf: 0, k: 0 },
        ])
    );
    assert_eq!(
        encode_program(src, &statements, &labels, &ExtensionTable::new()),
        Err(AssemblerError::UndeclaredExtension(span(3, 7)))
    );
}

#[test]
fn lexical_helpers() {
    let src = b"  ; note\n /* x */ word_1 -12ab, #";
    assert_eq!(skip(src, 0), Ok(18));
    assert_eq!(skip(src, 18), Ok(18));
    assert_eq!(find_line_end(src, 2), 8);
    assert_eq!(find_line_end(src, 9), src.len());
    assert_eq!(find_block_end(src, 12), Some(17));
    assert_eq!(find_block_end(src, 16), None);
    assert_eq!(find_word_end(src, 18), 24);
    assert_eq!(find_word_end(src, 24), 24);
    assert_eq!(read_word(src, 9, Expected::Label), Ok((span(18, 24), 24)));
    assert_eq!(read_integer(src, 24), Ok((span(25, 30), 30)));
    assert_eq!(read_symbol(src, 30, b','), Ok(31));
    assert_eq!(
        read_symbol(src, 31, b','),
        Err(AssemblerError::Syntax { expected: Expected::Symbol(b','), at: 32 })
    );
    assert_eq!(
        read_word(src, 31, Expected::Label),
        Err(AssemblerError::Syntax { expected: Expected::Label, at: 32 })
    );
    assert_eq!(
        read_integer(src, 18),
        Err(AssemblerError::Syntax { expected: Expected::Integer, at: 18 })
    );
    assert_eq!(skip(b"/* open", 0), Err(AssemblerError::Syntax { expected: Expected::CommentEnd, at: 0 }));
    assert_eq!(skip(b"/*/", 0), Err(AssemblerError::Syntax { expected: Expected::CommentEnd, at: 0 }));
    assert_eq!(skip(b"/**/x", 0), Ok(4));
}

#[test]
fn comparing_texts() {
    let src = b"drop drip drop";
    assert!(same_text(src, span(0, 4), span(10, 14)));
    assert!(!same_text(src, span(0, 4), span(5, 9)));
    assert!(!same_text(src, span(0, 4), span(10, 13)));
    assert!(same_text(src, span(2, 2), span(7, 7)));
    assert!(text_is(src, span(5, 9), b"drip"));
    assert!(!text_is(src, span(5, 9), b"drop"));
    assert!(!text_is(src, span(5, 9), b"dri"));
    assert_eq!(Span::new(5, 9), span(5, 9));
    assert_eq!(span(5, 9).len(), 4);
}

#[test]
fn arbitrary_bytes_do_no_harm() {
    fuzz(b"");
    fuzz(b"ld poff\nret a");
    fuzz(b"ld [");
    fuzz(b"\xff\xfe\x00ld [0]");
    fuzz(b"a: a: jmp a");
    fuzz(b"ret #99999999999999999999");
    fuzz("; caf\u{e9}\nret a".as_bytes());
    let mut long = Vec::new();
    for i in 0..2000u32 {
        long.extend_from_slice(format!("l{}: jeq #{}, l{}\n", i, i, i + 1).as_bytes());
    }
    long.extend_from_slice(b"l2000: ret a");
    fuzz(&long);
}

#[test]
fn bytes_are_assembled_where_they_are_text() {
    let table = linux();
    assert_eq!(assemble_bytes(b"\xff\xfe ret a", &table), None);
    assert_eq!(assemble_bytes(b"ret a ; \xc3", &table), None);
    assert_eq!(assemble_bytes(b"ld rand\nret a", &table), Some(assemble("ld rand\nret a", &table)));
    assert_eq!(assemble_bytes(b"", &table), Some(Ok(vec![])));
    let accented = "; caf\u{e9}\njmp caf\u{e9}";
    assert_eq!(
        assemble_bytes(accented.as_bytes(), &table),
        Some(Err(AssemblerError::Syntax { expected: Expected::Statement, at: 15 }))
    );
}
