//! Small term calculi, each with the grammar of its written form, and for
//! the simply typed lambda calculus over booleans and naturals a scope
//! resolver, a substitution engine, a call-by-value evaluator and the
//! typing judgment, with proofs of progress, preservation and
//! normalization.

pub mod arith;
pub mod misc;
pub mod scan;
pub mod simply_typed_lambda;
pub mod typed_arith;
pub mod untyped_arith;
pub mod untyped_lambda;
