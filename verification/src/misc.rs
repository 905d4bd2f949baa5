//! Constants shared by the grammars.

use vstd::prelude::*;

verus! {

/// The letters that may name a variable.
pub const ALPHABET: &'static str = "abcdefghijklmnopqrstuvwxyz";

} // verus!
