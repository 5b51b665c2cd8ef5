//! Integer literals in their four radices.

use bpfasm::integer::evaluate;
use bpfasm::{AssemblerError, Span};

fn value(text: &str) -> Result<u32, AssemblerError> {
    evaluate(text.as_bytes(), Span { start: 0, end: text.len() })
}

fn invalid(text: &str) -> Result<u32, AssemblerError> {
    Err(AssemblerError::InvalidInteger(Span { start: 0, end: text.len() }))
}

#[test]
fn decimal() {
    assert_eq!(value("0"), Ok(0));
    assert_eq!(value("7"), Ok(7));
    assert_eq!(value("2054"), Ok(2054));
    assert_eq!(value("2147483647"), Ok(0x7FFF_FFFF));
    assert_eq!(value("2147483648"), invalid("2147483648"));
    assert_eq!(value("4294967295"), invalid("4294967295"));
    assert_eq!(value("99999999999999999999999999"), invalid("99999999999999999999999999"));
    assert_eq!(value("12a"), invalid("12a"));
    assert_eq!(value("1_000"), invalid("1_000"));
    assert_eq!(value(""), invalid(""));
}

#[test]
fn negative_decimal_is_its_bit_pattern() {
    assert_eq!(value("-1"), Ok(0xFFFF_FFFF));
    assert_eq!(value("-2"), Ok(0xFFFF_FFFE));
    assert_eq!(value("-0"), Ok(0));
    assert_eq!(value("-2147483648"), Ok(0x8000_0000));
    assert_eq!(value("-2147483649"), invalid("-2147483649"));
    assert_eq!(value("-"), invalid("-"));
    assert_eq!(value("-0x1"), invalid("-0x1"));
    assert_eq!(value("-017"), Ok((-17i32) as u32));
}

#[test]
fn hexadecimal() {
    assert_eq!(value("0x0"), Ok(0));
    assert_eq!(value("0x806"), Ok(2054));
    assert_eq!(value("0xc000003e"), Ok(3221225534));
    assert_eq!(value("0xFFFFFFFF"), Ok(0xFFFF_FFFF));
    assert_eq!(value("0xfFfFfFfF"), Ok(0xFFFF_FFFF));
    assert_eq!(value("0x00000000000000001"), Ok(1));
    assert_eq!(value("0x100000000"), invalid("0x100000000"));
    assert_eq!(value("0x"), invalid("0x"));
    assert_eq!(value("0xg"), invalid("0xg"));
    assert_eq!(value("0X1"), invalid("0X1"));
}

#[test]
fn octal() {
    assert_eq!(value("00"), Ok(0));
    assert_eq!(value("017"), Ok(15));
    assert_eq!(value("0777"), Ok(511));
    assert_eq!(value("037777777777"), Ok(0xFFFF_FFFF));
    assert_eq!(value("040000000000"), invalid("040000000000"));
    assert_eq!(value("08"), invalid("08"));
    assert_eq!(value("0a"), invalid("0a"));
}

#[test]
fn binary() {
    assert_eq!(value("0b0"), Ok(0));
    assert_eq!(value("0b101"), Ok(5));
    assert_eq!(value("0b11111111111111111111111111111111"), Ok(0xFFFF_FFFF));
    assert_eq!(value("0b100000000000000000000000000000000"), invalid("0b100000000000000000000000000000000"));
    assert_eq!(value("0b"), invalid("0b"));
    assert_eq!(value("0b2"), invalid("0b2"));
    assert_eq!(value("0B1"), invalid("0B1"));
}

#[test]
fn literal_inside_a_text() {
    let text = "ret #0x10 ; sixteen";
    assert_eq!(evaluate(text.as_bytes(), Span { start: 5, end: 9 }), Ok(16));
    assert_eq!(
        evaluate(text.as_bytes(), Span { start: 5, end: 7 }),
        Err(AssemblerError::InvalidInteger(Span { start: 5, end: 7 }))
    );
}
