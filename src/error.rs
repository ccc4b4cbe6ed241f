//! What can stop an execution.
use vstd::prelude::*;

verus! {

/// The kind of a failure.
#[derive(Debug, Clone, Copy, PartialEq, Eq, Structural)]
pub enum ErrorKind {
    /// No root, more than one root, a repeated node id, an edge to an unknown
    /// id, or a cycle.
    MalformedDocument,
    /// A node lacks a data field that its kind needs.
    MissingField,
    /// A referenced variable is not bound, or an operand is empty.
    UnresolvedVariable,
    /// `/` or `%` with a zero right operand.
    DivisionByZero,
    /// An integer result that its type cannot hold.
    ArithmeticOverflow,
    /// An operator outside the supported set.
    UnknownOperator,
    /// An action amount that is not a non-negative integer.
    InvalidAmount,
}

/// A failure, with the id of the node where it happened where there is one.
#[derive(Debug, Clone, Copy, PartialEq, Eq, Structural)]
pub struct ExecError {
    pub kind: ErrorKind,
    pub node: Option<u32>,
}

} // verus!
