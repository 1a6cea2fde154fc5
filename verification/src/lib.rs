//! A minimal 8-bit instruction set: an assembler front end (lexer, line
//! parser, span-tracked diagnostics) and the virtual machine that executes
//! the assembled byte stream.
//!
//! The opcode table in `instr` is the single source of truth: the parser
//! checks operand counts against it and the machine decodes and advances
//! the program counter by it.

pub mod diag;
pub mod instr;
pub mod lex;
pub mod parse;
pub mod span;
pub mod vm;
