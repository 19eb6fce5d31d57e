//! A single-pass compiler from arithmetic expressions to bytecode, and the
//! stack machine that runs the bytecode.
//!
//! The library is generic in the type `V` of the numbers it computes with. It
//! never inspects a number: the host hands in the function that converts a
//! numeral to a number, or fails on it, and the functions that do the
//! arithmetic. Every contract speaks of numbers through the contracts of those
//! functions.
//!
//! - [`scanner`]: source text to tokens, and the lexical grammar.
//! - [`syntax`]: the grammar of expressions, what an expression compiles to,
//!   and the diagnostics of a faulty source.
//! - [`rules`]: the rule table of the parser and precedence climbing, which
//!   reads the grammar.
//! - [`chunk`]: the instruction set and the compiled unit.
//! - [`compiler`]: the compiler itself.
//! - [`vm`]: the machine, and what it is for code to run.
//! - [`semantics`]: the value of an expression, and that the machine
//!   computes it.
//! - [`debug`]: the disassembler.
pub mod chunk;
pub mod compiler;
pub mod debug;
pub mod rules;
pub mod scanner;
pub mod semantics;
pub mod syntax;
pub mod vm;
