use vstd::prelude::*;

verus! {

/// Why the storage refused an operation.
#[derive(Clone, Copy, Debug, PartialEq, Eq, Structural)]
pub enum StorageError {
    /// The transaction was already committed or cancelled.
    Finished,
    /// A write was attempted in a transaction opened for reading.
    ReadOnly,
}

/// Why an expression has no value.
#[derive(Clone, Copy, Debug, PartialEq, Eq, Structural)]
pub enum EvaluationError {
    /// A field or `$this` was referred to where no document is in scope.
    NoContextDocument,
    /// An operator was applied to values of a kind it has no meaning for.
    TypeMismatch,
    DivisionByZero,
    /// The result of an arithmetic operation is not a representable number.
    Overflow,
}

/// The text is no statement.
#[derive(Clone, Copy, Debug, PartialEq, Eq, Structural)]
pub struct ParseError {}

/// Why a statement failed. A statement fails with exactly one of these, the
/// first that occurred.
#[derive(Clone, Copy, Debug, PartialEq, Eq, Structural)]
pub enum Error {
    /// The caller may not run the statement.
    Permission,
    /// The cancellation signal was tripped.
    Cancelled,
    /// The deadline passed.
    Timeout,
    Storage(StorageError),
    Evaluation(EvaluationError),
    /// A patch operation is malformed.
    Patch,
    /// A clause or operator reached a stage that does not accept it.
    InternalInvariantViolation,
}

} // verus!
