use vstd::prelude::*;

verus! {

/// Every way in which parsing or evaluating a program can fail.
#[derive(Debug, PartialEq, Eq, Structural, Clone, Copy)]
pub enum Error {
    /// Nothing at the start of the input can begin a program unit.
    CannotParse,
    /// The input breaks the grammar inside a unit; the payload is the
    /// character offset at which it stopped matching.
    SyntaxError(usize),
    /// No unit is named `main`.
    MissingMain,
    /// Text after a complete unit does not begin another unit.
    TrailingInput,
    /// A memory lookup found no binding for the name.
    NotFound,
    /// An expression refers to a name that has no binding.
    UndefinedVariable,
    /// Resolving references went round a cycle of bindings.
    CyclicReference,
    /// A division whose right operand is zero.
    DivisionByZero,
    /// A product that does not fit in `i32`.
    MultiplyOverflow,
    /// `i32::MIN / -1`, whose quotient does not fit in `i32`.
    DivisionOverflow,
    /// An operator in a position where it has no meaning (for instance
    /// `Mul` as a unary operator).
    InvalidOperator,
}

} // verus!
