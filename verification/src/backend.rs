//! Emission of target-language text.

pub mod codegen_c;
