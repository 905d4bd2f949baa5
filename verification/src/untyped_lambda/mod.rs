//! The untyped lambda calculus in its written form.

pub mod parser;
