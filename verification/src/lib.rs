//! A tiny compiler front end for flat `+`/`-` arithmetic over decimal
//! numerals: a lexer that turns a byte string into positioned tokens, a
//! diagnostic renderer that points at an offending span of the source, and
//! a single-pass code generator that emits an assembly program computing
//! the expression's left-to-right value.

pub mod bytes;
pub mod codegen;
pub mod diagnostics;
pub mod lexer;
pub mod semantics;
pub mod token;
