//! Arithmetic expressions whose operands are checked for their kind before
//! they are used.

pub mod eval;
