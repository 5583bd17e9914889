//! Lexing, parsing and semantic analysis.

pub mod token;
pub mod lexer;
pub mod ast;
pub mod parser;
pub mod parser_proofs;
pub mod sema;
