//! A single-pass bytecode compiler and stack machine for a small scripting
//! language: a scanner, a precedence-climbing compiler that emits bytecode
//! into a chunk, and a virtual machine that runs it.
//!
//! Numbers are IEEE-754 doubles held by their bit pattern. Sign, ordering and
//! equality are decided here on the bits; rounding arithmetic, the reading of
//! decimal literals and the printing of numbers are taken from the caller as
//! functions, and every contract says exactly how their results are used.

pub mod text;
pub mod token;
pub mod opcode;
pub mod host;
pub mod value;
pub mod chunk;
pub mod globals;
pub mod scanner;
pub mod parser;
pub mod compiler;
pub mod vm;
pub mod theorems;
