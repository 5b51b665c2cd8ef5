//! What can go wrong while assembling.

use vstd::prelude::*;
use vstd::string::StringSliceAdditionalSpecFns;
use vstd::utf8::{
    decode_utf8, encode_utf8_decode_utf8, encode_utf8_valid_utf8, is_char_boundary,
    is_char_boundary_iff_not_is_continuation_byte, is_char_boundary_start_end_of_seq,
    valid_utf8_split,
};
use crate::span::Span;

verus! {

/// What the parser was looking for where it stopped.
#[derive(Debug, Clone, Copy, PartialEq, Eq, Structural)]
pub enum Expected {
    /// A label declaration or a mnemonic.
    Statement,
    /// An operand of a shape that the mnemonic accepts.
    Operand,
    /// An integer literal.
    Integer,
    /// The name of a label.
    Label,
    /// One given byte of punctuation.
    Symbol(u8),
    /// The `*/` that closes a block comment.
    CommentEnd,
}

/// The first failure met while assembling, with the place it refers to.
///
/// The name or literal that an error speaks of is the text its span covers.
#[derive(Debug, Clone, Copy, PartialEq, Eq, Structural)]
pub enum AssemblerError {
    /// The text does not follow the grammar at byte offset `at`.
    Syntax { expected: Expected, at: usize },
    /// A label is declared a second time; the span is the later name.
    RedeclaredLabel(Span),
    /// A jump names a label that is declared nowhere.
    UndeclaredLabel(Span),
    /// A jump names a label that does not lie after the jump.
    UnreachableLabel(Span),
    /// A name is used as an extension that the table does not hold.
    UndeclaredExtension(Span),
    /// An integer literal has a digit outside its radix or exceeds 32 bits.
    InvalidInteger(Span),
}

impl AssemblerError {
    /// The range of the source that the error points at.
    pub open spec fn spec_span(&self) -> Span {
        match *self {
            AssemblerError::Syntax { expected, at } => Span { start: at, end: at },
            AssemblerError::RedeclaredLabel(s) => s,
            AssemblerError::UndeclaredLabel(s) => s,
            AssemblerError::UnreachableLabel(s) => s,
            AssemblerError::UndeclaredExtension(s) => s,
            AssemblerError::InvalidInteger(s) => s,
        }
    }

    /// The error points at a range that starts and ends at settled offsets
    /// of `src`.
    pub open spec fn settled(&self, src: Seq<u8>) -> bool {
        self.spec_span().settled(src)
    }

    /// The range of the source that the error points at.
    #[verifier::when_used_as_spec(spec_span)]
    pub fn span(&self) -> (r: Span)
        ensures
            r == self.spec_span(),
    {
        match *self {
            AssemblerError::Syntax { expected: _, at } => Span { start: at, end: at },
            AssemblerError::RedeclaredLabel(s) => s,
            AssemblerError::UndeclaredLabel(s) => s,
            AssemblerError::UnreachableLabel(s) => s,
            AssemblerError::UndeclaredExtension(s) => s,
            AssemblerError::InvalidInteger(s) => s,
        }
    }
}

impl Expected {
    /// What the parser was looking for, in words.
    pub open spec fn text(self) -> Seq<char> {
        match self {
            Expected::Statement => "expected a label or a mnemonic"@,
            Expected::Operand => "expected an operand that the mnemonic accepts"@,
            Expected::Integer => "expected an integer"@,
            Expected::Label => "expected the name of a label"@,
            Expected::Symbol(byte) => if byte == '#' as u8 {
                "expected `#`"@
            } else if byte == '[' as u8 {
                "expected `[`"@
            } else if byte == ']' as u8 {
                "expected `]`"@
            } else if byte == '(' as u8 {
                "expected `(`"@
            } else if byte == ')' as u8 {
                "expected `)`"@
            } else if byte == '+' as u8 {
                "expected `+`"@
            } else if byte == '*' as u8 {
                "expected `*`"@
            } else if byte == '&' as u8 {
                "expected `&`"@
            } else if byte == ',' as u8 {
                "expected `,`"@
            } else {
                "expected a punctuation mark"@
            },
            Expected::CommentEnd => "expected `*/` to close the comment"@,
        }
    }

    /// What the parser was looking for, in words.
    pub fn describe(self) -> (r: &'static str)
        ensures
            r@ == self.text(),
    {
        match self {
            Expected::Statement => "expected a label or a mnemonic",
            Expected::Operand => "expected an operand that the mnemonic accepts",
            Expected::Integer => "expected an integer",
            Expected::Label => "expected the name of a label",
            Expected::Symbol(byte) => if byte == '#' as u8 {
                "expected `#`"
            } else if byte == '[' as u8 {
                "expected `[`"
            } else if byte == ']' as u8 {
                "expected `]`"
            } else if byte == '(' as u8 {
                "expected `(`"
            } else if byte == ')' as u8 {
                "expected `)`"
            } else if byte == '+' as u8 {
                "expected `+`"
            } else if byte == '*' as u8 {
                "expected `*`"
            } else if byte == '&' as u8 {
                "expected `&`"
            } else if byte == ',' as u8 {
                "expected `,`"
            } else {
                "expected a punctuation mark"
            },
            Expected::CommentEnd => "expected `*/` to close the comment",
        }
    }
}

/// The text that pest shows for an error with the message `message` at the
/// bytes from `start` up to `end` of `source`: the line and column, the line
/// itself with the range underlined, and the message.
pub uninterp spec fn pest_display(source: Seq<char>, start: int, end: int, message: Seq<char>) -> Seq<
    char,
>;

/// The text that pest shows for an error with the message `message` at the
/// byte offset `at` of `source`: the line and column, the line itself with
/// the place marked, and the message.
pub uninterp spec fn pest_display_at(source: Seq<char>, at: int, message: Seq<char>) -> Seq<char>;

/// `pest::error::Error::new_from_span` with a custom message, as its
/// `Display` writes it. The span must lie on character boundaries of the
/// source, else pest has no `Span` for it. The text depends on the source,
/// the span and the message alone.
#[verifier::external_body]
fn display_span(source: &str, start: usize, end: usize, message: &str) -> (r: String)
    requires
        start <= end <= source.spec_bytes().len(),
        is_char_boundary(source.spec_bytes(), start as int),
        is_char_boundary(source.spec_bytes(), end as int),
    ensures
        r@ == pest_display(source@, start as int, end as int, message@),
{
    let span = pest::Span::new(source, start, end).unwrap();
    let variant = pest::error::ErrorVariant::<()>::CustomError { message: message.to_string() };
    pest::error::Error::new_from_span(variant, span).to_string()
}

/// `pest::error::Error::new_from_pos` with a custom message, as its
/// `Display` writes it. The offset must lie on a character boundary of the
/// source, else pest has no `Position` for it. The text depends on the
/// source, the offset and the message alone.
#[verifier::external_body]
fn display_position(source: &str, at: usize, message: &str) -> (r: String)
    requires
        at <= source.spec_bytes().len(),
        is_char_boundary(source.spec_bytes(), at as int),
    ensures
        r@ == pest_display_at(source@, at as int, message@),
{
    let position = pest::Position::new(source, at).unwrap();
    let variant = pest::error::ErrorVariant::<()>::CustomError { message: message.to_string() };
    pest::error::Error::new_from_pos(variant, position).to_string()
}

impl AssemblerError {
    /// The error's span lies inside the text `bytes`, on boundaries of its
    /// characters.
    pub open spec fn lies_in(&self, bytes: Seq<u8>) -> bool {
        let span = self.spec_span();
        span.start <= span.end <= bytes.len() && is_char_boundary(bytes, span.start as int)
            && is_char_boundary(bytes, span.end as int)
    }

    /// What went wrong, without the name or literal concerned.
    pub open spec fn headline(&self) -> Seq<char> {
        match *self {
            AssemblerError::Syntax { expected, at } => expected.text(),
            AssemblerError::RedeclaredLabel(_) => "redeclared label"@,
            AssemblerError::UndeclaredLabel(_) => "undeclared label"@,
            AssemblerError::UnreachableLabel(_) => "unreachable label"@,
            AssemblerError::UndeclaredExtension(_) => "invalid extension"@,
            AssemblerError::InvalidInteger(_) => "invalid integer literal"@,
        }
    }

    /// The message of the error, read against the source text `bytes`: the
    /// headline and, but for a syntax error, the name or literal in quotes.
    /// The headline alone where the span does not lie in the text.
    pub open spec fn message_spec(&self, bytes: Seq<u8>) -> Seq<char> {
        if *self is Syntax || !self.lies_in(bytes) {
            self.headline()
        } else {
            self.headline() + " \""@ + decode_utf8(self.spec_span().text(bytes)) + "\""@
        }
    }

    /// The report of the error, read against the source text: pest's layout
    /// of the message at the offset of a syntax error or at the span of
    /// another one, or the message alone where the span does not lie in the
    /// text.
    pub open spec fn report_spec(&self, source: &str) -> Seq<char> {
        if !self.lies_in(source.spec_bytes()) {
            self.message_spec(source.spec_bytes())
        } else if *self is Syntax {
            pest_display_at(
                source@,
                self.spec_span().start as int,
                self.message_spec(source.spec_bytes()),
            )
        } else {
            pest_display(
                source@,
                self.spec_span().start as int,
                self.spec_span().end as int,
                self.message_spec(source.spec_bytes()),
            )
        }
    }

    /// What went wrong, without the name or literal concerned.
    fn headline_text(&self) -> (r: &'static str)
        ensures
            r@ == self.headline(),
    {
        match *self {
            AssemblerError::Syntax { expected, at: _ } => expected.describe(),
            AssemblerError::RedeclaredLabel(_) => "redeclared label",
            AssemblerError::UndeclaredLabel(_) => "undeclared label",
            AssemblerError::UnreachableLabel(_) => "unreachable label",
            AssemblerError::UndeclaredExtension(_) => "invalid extension",
            AssemblerError::InvalidInteger(_) => "invalid integer literal",
        }
    }

    /// Whether the error's span lies inside `source`, on boundaries of its
    /// characters.
    fn fits_source(&self, source: &str) -> (r: bool)
        ensures
            r == self.lies_in(source.spec_bytes()),
    {
        let span = self.span();
        span.start <= span.end && span.end <= source.as_bytes().len() && source.is_char_boundary(
            span.start,
        )
            && source.is_char_boundary(span.end)
    }

    /// Writes the message of the error for the source text it arose from.
    pub fn message(&self, source: &str) -> (r: String)
        ensures
            r@ == self.message_spec(source.spec_bytes()),
    {
        let mut out = String::from_str(self.headline_text());
        let is_syntax = match *self {
            AssemblerError::Syntax { expected: _, at: _ } => true,
            _ => false,
        };
        if is_syntax || !self.fits_source(source) {
            return out;
        }
        let span = self.span();
        let ghost bytes = source.spec_bytes();
        proof {
            encode_utf8_valid_utf8(source@);
            valid_utf8_split(bytes, span.end as int);
        }
        let (head, _) = source.split_at(span.end);
        proof {
            assert(head.spec_bytes() =~= bytes.subrange(0, span.end as int));
            if span.start < span.end {
                is_char_boundary_iff_not_is_continuation_byte(bytes, span.start as int);
                is_char_boundary_iff_not_is_continuation_byte(head.spec_bytes(), span.start as int);
            } else {
                is_char_boundary_start_end_of_seq(head.spec_bytes());
            }
        }
        let (_, name) = head.split_at(span.start);
        proof {
            assert(name.spec_bytes() =~= span.text(bytes));
            encode_utf8_decode_utf8(name@);
        }
        out.append(" \"");
        out.append(name);
        out.append("\"");
        out
    }

    /// Writes the report of the error for the source text it arose from:
    /// where it lies, the line with the place underlined, and the message.
    pub fn report(&self, source: &str) -> (r: String)
        ensures
            r@ == self.report_spec(source),
    {
        let message = self.message(source);
        if !self.fits_source(source) {
            return message;
        }
        match *self {
            AssemblerError::Syntax { expected: _, at } => display_position(
                source,
                at,
                message.as_str(),
            ),
            _ => {
                let span = self.span();
                display_span(source, span.start, span.end, message.as_str())
            },
        }
    }
}

} // verus!
