//! A compiler from a small prefix-notation language to flat bytecode, and the
//! stack machine that runs that bytecode.
//!
//! Source text is split into tokens ([`lexer`]), compiled in one forward pass
//! with backpatched jumps ([`compiler`]) into cells ([`bytecode`]), and run by
//! [`vm`]. [`program`] chains the three; [`laws`] states what holds of them.

/// Tokens from source text.
pub mod lexer;
/// Integer and float literals.
pub mod literal;
/// Instructions, cells and compile errors.
pub mod bytecode;
/// The single-pass code generator.
pub mod compiler;
/// The stack machine.
pub mod vm;
/// Source text to outcome.
pub mod program;
/// Properties of compilation and execution.
pub mod laws;
