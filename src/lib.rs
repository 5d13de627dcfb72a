use vstd::prelude::*;

pub mod calculator;
pub mod code_gen;
pub mod errors;
pub mod lexer;
pub mod rpn;
pub mod token;

verus! {

} // verus!
