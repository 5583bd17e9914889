//! A small compiler core for the Kita scripting language: a lexer, a
//! precedence-climbing parser, a single-pass type checker and a C emitter.

pub mod backend;
pub mod frontend;
pub mod text;
