//! The general laws of the assembler, each on chosen programs.

use bpfasm::assembler::assemble_statements;
use bpfasm::extensions::{linux, ExtensionTable};
use bpfasm::parser::parse;
use bpfasm::statement::Statement;
use bpfasm::{assemble, AssemblerError, Span};

const FILTER: &str = "ldh [12]\njne #0x800, drop\nldb [23]\njneq #6, drop\nret #-1\ndrop: ret #0\n";

#[test]
fn same_arguments_same_outcome() {
    let table = linux();
    assert_eq!(assemble(FILTER, &table), assemble(FILTER, &table));
    assert_eq!(assemble(FILTER, &table), assemble(FILTER, &linux()));
    let broken = "jmp nowhere";
    assert_eq!(assemble(broken, &table), assemble(broken, &table));
    assert!(assemble(broken, &table).is_err());
}

#[test]
fn unused_label_changes_nothing_in_the_text() {
    let table = linux();
    let plain = assemble(FILTER, &table).unwrap();
    let places = ["", "ldh [12]\n", "ldh [12]\njne #0x800, drop\n", FILTER];
    for place in places {
        let mut with_label = String::from(place);
        with_label.push_str("unused:\n");
        with_label.push_str(&FILTER[place.len()..]);
        assert_eq!(assemble(&with_label, &table).unwrap(), plain, "{:?}", with_label);
    }
}

#[test]
fn unused_label_changes_nothing_among_the_statements() {
    let table = linux();
    // the name of the new label is the word `ret` of the last statement
    let src = FILTER.as_bytes();
    let label = Span { start: FILTER.len() - 7, end: FILTER.len() - 4 };
    assert_eq!(&FILTER[label.start..label.end], "ret");
    let statements = parse(src).unwrap();
    let plain = assemble_statements(src, &statements, &table).unwrap();
    for at in 0..=statements.len() {
        let mut with_label = statements.clone();
        with_label.insert(at, Statement::Label(label));
        assert_eq!(assemble_statements(src, &with_label, &table).unwrap(), plain);
    }
}

#[test]
fn unused_label_keeps_an_error_as_it_is() {
    let table = ExtensionTable::new();
    let src = b"ld poff ret a";
    let statements = parse(src).unwrap();
    let plain = assemble_statements(src, &statements, &table);
    assert_eq!(plain, Err(AssemblerError::UndeclaredExtension(Span { start: 3, end: 7 })));
    let mut with_label = statements.clone();
    with_label.insert(1, Statement::Label(Span { start: 8, end: 11 }));
    assert_eq!(assemble_statements(src, &with_label, &table), plain);
}

#[test]
fn second_declaration_fails_wherever_it_stands() {
    let table = linux();
    let src = FILTER.as_bytes();
    let statements = parse(src).unwrap();
    let drop = match statements[5] {
        Statement::Label(name) => name,
        _ => panic!("the sixth statement declares the label"),
    };
    for at in 0..=statements.len() {
        let mut twice = statements.clone();
        twice.insert(at, Statement::Label(drop));
        let error = assemble_statements(src, &twice, &table).unwrap_err();
        assert_eq!(error, AssemblerError::RedeclaredLabel(drop));
    }
    for source in ["a: a:", "a: ret #0\nb: ret #1\na: ret #2", "jmp a\na: ret #0 a:"] {
        assert!(matches!(assemble(source, &table), Err(AssemblerError::RedeclaredLabel(_))));
    }
}

#[test]
fn jumps_go_forward_only() {
    let table = linux();
    for source in [
        "a: jmp a",
        "a: ret #0\njmp a",
        "a: ret #0\nret #1\nja a",
        "a: jeq #0, a",
        "a: ret #0\njeq x, b, a\nb: ret #1",
        "a: ret #0\njneq #1, a",
        "a: ret #0\njlt #1, a",
        "a: ret #0\njle x, a",
        "a: ret #0\njgt #1, a, a",
        "a: ret #0\njge #1, a",
        "a: ret #0\njset #1, a",
        "ret #0\na: b: jmp b",
    ] {
        assert!(
            matches!(assemble(source, &table), Err(AssemblerError::UnreachableLabel(_))),
            "{:?}",
            source
        );
    }
    for source in ["jmp a\na: ret #0", "jmp a\nret #0\na:", "jeq x, a, b\na: b: ret a"] {
        assert!(assemble(source, &table).is_ok(), "{:?}", source);
    }
}

#[test]
fn extension_is_the_load_from_its_offset() {
    let table = linux();
    assert_eq!(assemble("ld proto", &table), assemble("ld [0xFFFFF000]", &table));
    assert_eq!(assemble("ld pto", &table), assemble("ld [0xFFFFF000]", &table));
    assert_eq!(assemble("ld poff", &table), assemble("ld [0xFFFFF034]", &table));
    assert_eq!(assemble("ld #poff", &table), assemble("ld [0xFFFFF034]", &table));
    assert_eq!(assemble("ldh proto", &table), assemble("ldh [0xFFFFF000]", &table));
    assert_eq!(assemble("ldb rand", &table), assemble("ldb [0xFFFFF038]", &table));
    assert_eq!(assemble("cop cpu", &table), assemble("cop #0xFFFFF024", &table));
    // the operand of the immediate load is the same for `proto`, the code is not
    let by_name = assemble("ld proto", &table).unwrap();
    let immediate = assemble("ld #0xFFFFF000", &table).unwrap();
    assert_eq!(by_name[0].k, immediate[0].k);
    assert_eq!((by_name[0].code, immediate[0].code), (0x20, 0x00));
    assert_eq!(assemble("ld poff", &table).unwrap()[0].k, 0xFFFFF000 + 52);
}
