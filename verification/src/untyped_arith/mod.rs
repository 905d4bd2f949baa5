//! Untyped arithmetic expressions: booleans, naturals, conditionals.

pub mod eval;
pub mod parser;
