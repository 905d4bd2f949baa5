//! Arithmetic expressions in their first written form, where the words of
//! a conditional are set apart by runs of blanks.

pub mod parser;
