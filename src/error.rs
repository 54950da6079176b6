use vstd::prelude::*;

verus! {

/// Why the evaluation of one input line stopped.
#[derive(Debug, Clone, Copy, PartialEq, Eq, Structural)]
pub enum EvalError {
    /// Two adjacent items have no defined combination, or an operator was left unconsumed.
    Syntax,
    /// A function was expected where a value stood, or the other way round.
    Type,
    /// An index does not fit the rank or the length of an array.
    Shape,
    /// A node's role disagreed with its shape during reduction.
    Internal,
    /// A result does not fit in 64 bits.
    Overflow,
    /// Division by zero.
    Domain,
    /// A form the language reserves but does not evaluate.
    Unsupported,
}

} // verus!
