use vstd::prelude::*;

verus! {

/// The fatal fault kinds of the pipeline.  Tokenizing can fail with
/// `UnexpectedCharacter` or `NumberOverflow`; parsing with `UnexpectedToken`
/// or `UnexpectedEndOfInput`; evaluation with `DivisionByZero`, or — only on
/// an unchecked program — with `UndefinedVariable` or `TypeMismatch`.
/// Every fault aborts its stage immediately; there is no recovery.
#[derive(Clone, Copy, Debug, PartialEq, Eq, Structural)]
pub enum Fault {
    UnexpectedCharacter,
    NumberOverflow,
    UnexpectedToken,
    UnexpectedEndOfInput,
    UndefinedVariable,
    DivisionByZero,
    TypeMismatch,
}

} // verus!
