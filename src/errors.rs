use vstd::prelude::*;

verus! {

/// Why an expression could not be evaluated.
#[derive(Clone, Debug, PartialEq, Eq)]
pub enum CalculatorError {
    /// The expression cannot be executed (unknown name, missing operand).
    Runtime(String),
    /// The text cannot be read as an expression; the second field is the character index
    /// closest to the offending token.
    Syntax(String, usize),
}

} // verus!
