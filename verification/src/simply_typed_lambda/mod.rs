//! The simply typed lambda calculus with booleans, naturals and conditionals.

pub mod ast_parser;
pub mod context;
pub mod eval;
pub mod normalization;
pub mod parser;
pub mod soundness;
pub mod substitute;
pub mod term;
pub mod type_parser;
pub mod typing;
