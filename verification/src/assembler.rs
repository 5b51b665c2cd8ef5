//! The assembler: both passes over one program.

use vstd::prelude::*;
use vstd::string::StringSliceAdditionalSpecFns;
use vstd::utf8::{encode_utf8_valid_utf8, valid_utf8};
use crate::encoder::{encode_program, encode_program_spec};
use crate::error::AssemblerError;
use crate::extensions::{linux, ExtensionTable};
use crate::instruction::Instruction;
use crate::labels::{bind_labels, label_table};
use crate::parser::{parse, program};
use crate::span::lemma_settled_is_boundary;
use crate::statement::{all_fit, all_settled, Statement};

verus! {

/// The instructions that a sequence of statements over the text `src`
/// assembles to, or the first error: a label declared twice anywhere in the
/// program comes before any error of an operation.
pub open spec fn assemble_statements_spec(
    src: Seq<u8>,
    statements: Seq<Statement>,
    extensions: Map<Seq<u8>, u32>,
) -> Result<Seq<Instruction>, AssemblerError> {
    match label_table(src, statements) {
        Err(e) => Err(e),
        Ok(labels) => encode_program_spec(src, statements, labels, extensions),
    }
}

/// The instructions that a source text assembles to, or the first error: a
/// text that does not follow the grammar fails before any label or operation
/// is looked at.
pub open spec fn assemble_spec(src: Seq<u8>, extensions: Map<Seq<u8>, u32>) -> Result<
    Seq<Instruction>,
    AssemblerError,
> {
    match program(src) {
        Err(e) => Err(e),
        Ok(statements) => assemble_statements_spec(src, statements, extensions),
    }
}

/// The outcome `r` of a run is the outcome `s` that the definition gives:
/// the same instructions in the same order, or the same error.
pub open spec fn yields(
    r: Result<Vec<Instruction>, AssemblerError>,
    s: Result<Seq<Instruction>, AssemblerError>,
) -> bool {
    match r {
        Ok(instructions) => s == Ok::<Seq<Instruction>, AssemblerError>(instructions@),
        Err(e) => s == Err::<Seq<Instruction>, AssemblerError>(e),
    }
}

/// Assembles statements that were read from `src`.
///
/// The first pass binds the labels, the second encodes the operations. All
/// or nothing: the first error ends the run, and it points at a span of the
/// statement that failed.
pub fn assemble_statements(
    src: &[u8],
    statements: &[Statement],
    extensions: &ExtensionTable,
) -> (r: Result<Vec<Instruction>, AssemblerError>)
    requires
        all_fit(statements@, src@.len()),
    ensures
        yields(r, assemble_statements_spec(src@, statements@, extensions@)),
        all_settled(statements@, src@) ==> (r matches Err(e) ==> e.settled(src@)),
{
    let labels = match bind_labels(src, statements) {
        Ok(labels) => labels,
        Err(e) => { return Err(e); },
    };
    encode_program(src, statements, &labels, extensions)
}

/// Assembles a source text into its instructions.
///
/// The outcome depends on the text and on the table alone: the same
/// arguments give the same instructions, or the same error, every time. An
/// error points into the text, at a range between characters of it.
pub fn assemble(source: &str, extensions: &ExtensionTable) -> (r: Result<
    Vec<Instruction>,
    AssemblerError,
>)
    ensures
        yields(r, assemble_spec(source.spec_bytes(), extensions@)),
        r matches Err(e) ==> e.lies_in(source.spec_bytes()),
{
    let src = source.as_bytes();
    let r = match parse(src) {
        Ok(statements) => assemble_statements(src, statements.as_slice(), extensions),
        Err(e) => Err(e),
    };
    proof {
        if let Err(e) = r {
            encode_utf8_valid_utf8(source@);
            lemma_settled_is_boundary(src@, e.spec_span().start as int);
            lemma_settled_is_boundary(src@, e.spec_span().end as int);
        }
    }
    r
}

/// `core::str::from_utf8`: the bytes as a string slice where they are valid
/// UTF-8, nothing where they are not. The slice holds the very bytes given.
#[verifier::external_body]
fn text_of(data: &[u8]) -> (r: Option<&str>)
    ensures
        r is Some <==> valid_utf8(data@),
        r matches Some(text) ==> text.spec_bytes() == data@,
{
    core::str::from_utf8(data).ok()
}

/// Assembles a source text given as bytes, if the bytes are UTF-8.
pub fn assemble_bytes(data: &[u8], extensions: &ExtensionTable) -> (r: Option<
    Result<Vec<Instruction>, AssemblerError>,
>)
    ensures
        r is Some <==> valid_utf8(data@),
        r matches Some(outcome) ==> yields(outcome, assemble_spec(data@, extensions@)),
        r matches Some(Err(e)) ==> e.lies_in(data@),
{
    match text_of(data) {
        Some(source) => Some(assemble(source, extensions)),
        None => None,
    }
}

/// Feeds arbitrary bytes to the assembler, with the Linux extensions: input
/// that is not UTF-8 is dropped, and whatever the assembler answers is
/// dropped too.
pub fn fuzz(data: &[u8]) {
    let extensions = linux();
    let _ = assemble_bytes(data, &extensions);
}

} // verus!
