//! A small language for deterministic single-tape Turing machines:
//! a lexer and parser for the source grammar, an interpreter that
//! produces a step-by-step trace, and a native-code generator.

pub mod bytes;
pub mod lexer;
pub mod parser;
pub mod interp;
pub mod compiler;
