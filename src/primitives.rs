use vstd::prelude::*;

verus! {

/// The primitive functions of the language.
#[derive(Debug, Clone, Copy, PartialEq, Eq, Structural)]
pub enum PrimitiveFunction {
    Plus,
    Minus,
    Times,
    Divide,
    LeftTack,
    RightTack,
    Comma,
    Epsilon,
}

/// The primitive monadic operators.
#[derive(Debug, Clone, Copy, PartialEq, Eq, Structural)]
pub enum PrimitiveMonadicOperator {
    Commute,
}

/// The primitive dyadic operators.
#[derive(Debug, Clone, Copy, PartialEq, Eq, Structural)]
pub enum PrimitiveDyadicOperator {
    Atop,
}

} // verus!
