//! The ways a run can fail.

use vstd::prelude::*;

verus! {

/// Why evaluation or execution stopped. The first error ends the run.
#[derive(Clone, Copy, Debug, PartialEq, Eq, Structural)]
pub enum ExecError {
    /// A value has the wrong shape for the operation, such as a list where a
    /// condition is wanted.
    TypeMismatch,
    /// The right-hand side of a division is zero.
    DivideByZero,
    /// A command that the executor cannot run. It can run them all, so no
    /// run ends with this.
    NotYetImplemented,
    /// A forward scan, or a look at the next statement, ran off the program.
    UnexpectedEof,
    /// The block stack does not fit the statement that closes a block. The
    /// executor keeps the two in step, so no run ends with this.
    SyntaxError,
    /// An `Else` with no `If` block on top of the stack that is running its
    /// true arm.
    UnexpectedElse,
    /// An `End` with no open block.
    UnexpectedEnd,
    /// A block without a body. Such a block is run like any other, so no
    /// run ends with this.
    EmptyBlock,
    /// A store into `Ans`.
    ImmutableVariable,
    /// A `Then` that is not directly behind an `If`.
    UnexpectedThen,
    /// A block on the stack whose header is not a statement of its kind. No
    /// run ends with this that began with a stack whose blocks all name
    /// their headers.
    FailedToFindForNode,
    /// A `Goto` to a label that the program does not define.
    UnknownLabel,
    /// An element of a list that is itself a list.
    NonNumericTypeInList,
    /// An operation on two lists of different lengths.
    DimensionMismatch,
}

} // verus!
