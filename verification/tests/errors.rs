//! Messages and reports of errors.

use bpfasm::error::Expected;
use bpfasm::extensions::linux;
use bpfasm::{assemble, AssemblerError, Span};

#[test]
fn messages_quote_the_name() {
    let source = "jmp nowhere\nret #0";
    let error = assemble(source, &linux()).unwrap_err();
    assert_eq!(error.message(source), "undeclared label \"nowhere\"");

    let source = "a: jmp a";
    let error = assemble(source, &linux()).unwrap_err();
    assert_eq!(error.message(source), "unreachable label \"a\"");

    let source = "a: a: ret a";
    let error = assemble(source, &linux()).unwrap_err();
    assert_eq!(error.message(source), "redeclared label \"a\"");

    let source = "ld foo";
    let error = assemble(source, &linux()).unwrap_err();
    assert_eq!(error.message(source), "invalid extension \"foo\"");

    let source = "ret #0b102";
    let error = assemble(source, &linux()).unwrap_err();
    assert_eq!(error.message(source), "invalid integer literal \"0b102\"");
}

#[test]
fn syntax_messages_say_what_was_expected() {
    let cases = [
        ("123", Expected::Statement, 0, "expected a label or a mnemonic"),
        ("frobnicate #1", Expected::Statement, 0, "expected a label or a mnemonic"),
        ("ret", Expected::Operand, 3, "expected an operand that the mnemonic accepts"),
        ("ret #x", Expected::Integer, 5, "expected an integer"),
        ("jmp 1", Expected::Label, 4, "expected the name of a label"),
        ("ld [1", Expected::Symbol(b']'), 5, "expected `]`"),
        ("st M 1", Expected::Symbol(b'['), 5, "expected `[`"),
        ("ldi 1", Expected::Symbol(b'#'), 4, "expected `#`"),
        ("ld [x 1]", Expected::Symbol(b'+'), 6, "expected `+`"),
        ("ldxb 4 ([1]&0xf)", Expected::Symbol(b'*'), 7, "expected `*`"),
        ("ldxb 4*[1]&0xf)", Expected::Symbol(b'('), 7, "expected `(`"),
        ("ldxb 4*([1] 0xf)", Expected::Symbol(b'&'), 12, "expected `&`"),
        ("ldxb 4*([1]&0xf", Expected::Symbol(b')'), 15, "expected `)`"),
        ("jeq #1 out", Expected::Symbol(b','), 7, "expected `,`"),
        ("ret a /* open", Expected::CommentEnd, 6, "expected `*/` to close the comment"),
    ];
    for (source, expected, at, message) in cases {
        let error = assemble(source, &linux()).unwrap_err();
        assert_eq!(error, AssemblerError::Syntax { expected, at }, "{:?}", source);
        assert_eq!(error.span(), Span { start: at, end: at });
        assert_eq!(error.message(source), message);
    }
}

#[test]
fn span_of_each_kind() {
    let span = Span { start: 3, end: 9 };
    assert_eq!(AssemblerError::RedeclaredLabel(span).span(), span);
    assert_eq!(AssemblerError::UndeclaredLabel(span).span(), span);
    assert_eq!(AssemblerError::UnreachableLabel(span).span(), span);
    assert_eq!(AssemblerError::UndeclaredExtension(span).span(), span);
    assert_eq!(AssemblerError::InvalidInteger(span).span(), span);
    assert_eq!(
        AssemblerError::Syntax { expected: Expected::Integer, at: 7 }.span(),
        Span { start: 7, end: 7 }
    );
}

#[test]
fn report_shows_line_and_column() {
    let source = "ldh [12]\njne #0x806, drop\nret #-1\n";
    let error = assemble(source, &linux()).unwrap_err();
    assert_eq!(error, AssemblerError::UndeclaredLabel(Span { start: 21, end: 25 }));
    let report = error.report(source);
    let expected = [
        " --> 2:13",
        "  |",
        "2 | jne #0x806, drop",
        "  |             ^--^",
        "  |",
        "  = undeclared label \"drop\"",
    ]
    .join("\n");
    assert_eq!(report, expected);
    assert_ne!(report, error.message(source));
}

#[test]
fn report_of_a_syntax_error_at_the_end() {
    let source = "ret";
    let error = assemble(source, &linux()).unwrap_err();
    let report = error.report(source);
    let expected = [
        " --> 1:4",
        "  |",
        "1 | ret",
        "  |    ^---",
        "  |",
        "  = expected an operand that the mnemonic accepts",
    ]
    .join("\n");
    assert_eq!(report, expected);
}

#[test]
fn report_of_a_syntax_error_at_the_start_of_a_line() {
    let source = "ret a\n\n[1]\n";
    let error = assemble(source, &linux()).unwrap_err();
    assert_eq!(error, AssemblerError::Syntax { expected: Expected::Statement, at: 7 });
    let expected = [
        " --> 3:1",
        "  |",
        "3 | [1]",
        "  | ^---",
        "  |",
        "  = expected a label or a mnemonic",
    ]
    .join("\n");
    assert_eq!(error.report(source), expected);
}

#[test]
fn message_and_report_against_another_text() {
    // a span that does not lie in the text leaves the headline alone
    let error = AssemblerError::UndeclaredLabel(Span { start: 4, end: 11 });
    assert_eq!(error.message("jmp"), "undeclared label");
    assert_eq!(error.report("jmp"), "undeclared label");
    let error = AssemblerError::UndeclaredLabel(Span { start: 3, end: 2 });
    assert_eq!(error.message("jmp nowhere"), "undeclared label");
    // nor does one that cuts a character in two
    let text = "; \u{e9}\njmp a";
    let error = AssemblerError::UndeclaredLabel(Span { start: 3, end: 4 });
    assert_eq!(error.message(text), "undeclared label");
    assert_eq!(error.report(text), "undeclared label");
    let error = AssemblerError::UndeclaredLabel(Span { start: 2, end: 4 });
    assert_eq!(error.message(text), "undeclared label \"\u{e9}\"");
}

#[test]
fn errors_in_text_with_wide_characters() {
    let source = "; caf\u{e9} \u{2615}\njmp \u{e9}";
    let error = assemble(source, &linux()).unwrap_err();
    assert_eq!(error, AssemblerError::Syntax { expected: Expected::Label, at: 16 });
    let report = error.report(source);
    assert!(report.starts_with(" --> 2:5\n"), "{}", report);
}
