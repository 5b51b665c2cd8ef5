//! An assembler for classic BPF socket-filter programs.
//!
//! Source text is split into statements, labels are bound to program
//! counters in a first pass, and every operation is encoded into one
//! fixed-width instruction record in a second pass. [`assemble`] does all
//! three; [`parser::parse`], [`labels::bind_labels`] and
//! [`encoder::encode_program`] do one each. The module [`laws`] holds what
//! is true of every program.

pub mod assembler;
pub mod encoder;
pub mod error;
pub mod extensions;
pub mod instruction;
pub mod integer;
pub mod labels;
pub mod laws;
pub mod lexer;
pub mod opcode;
pub mod parser;
pub mod span;
pub mod statement;

pub use assembler::{assemble, assemble_bytes, fuzz};
pub use error::AssemblerError;
pub use instruction::Instruction;
pub use span::Span;
